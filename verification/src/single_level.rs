//! The smallest graph with an edge: two nodes and the edge between them,
//! written on one line.

use crate::attributs::{split_attributes, Entries};
use crate::block::{subgraph_keyword, subgraph_positions};
use crate::dot_graph::{
    extract, graph_name, graph_type_of, kept_lines, normalize, parse_children, parse_document,
    parse_graph, remove_spans, strip_closing_brace, GraphView,
};
use crate::edge::{parse_edge, EdgeView};
use crate::graph_type::GraphType;
use crate::node::{parse_node, NodeView};
use crate::parsing_error::Failure;
use crate::round_trip::{
    lemma_find_one_is_at, lemma_keyword_letters, lemma_lacks_pattern, lemma_marks,
};
use crate::statement::{
    add_statement, classify, classify_pieces, line_content, no_statements, StatementsView,
};
use crate::text::{
    contains, find, join, lemma_find, lemma_find_is, occurs_at, split, split_once, starts_with,
    trim,
};
use crate::text_laws::{
    lacks, lemma_find_one, lemma_lacks_across, lemma_lacks_both, lemma_split_joined,
    lemma_split_whole, lemma_trim_more, lemma_trim_none, lemma_trim_start_more,
};
use crate::type_relation::TypeRelation;
use vstd::prelude::*;

verus! {

/// The relation that the edges of a graph of the family state.
pub open spec fn relation_of(family: GraphType) -> TypeRelation {
    match family {
        GraphType::Graph => TypeRelation::NonOriente,
        GraphType::Digraph => TypeRelation::Oriente,
    }
}

/// The text of a graph of the family, with the name `name`, that declares
/// the nodes `A` and `B` and states an edge from `A` to `B`.
pub open spec fn small_text(family: GraphType, name: Seq<char>) -> Seq<char> {
    family.keyword_text() + " "@ + name + " { A; B; A "@ + family.symbol_text() + " B; }"@
}

/// A node without attributes.
pub open spec fn bare_node(identifier: Seq<char>) -> NodeView {
    NodeView { identifier, attributes: None }
}

/// The graph of the family that holds the nodes `A` and `B`, both without
/// attributes, and one edge from `A` to `B`, and nothing else. Its name is
/// `name` without the white space around it, or `NoName` where nothing is
/// left of that.
pub open spec fn small_graph(family: GraphType, name: Seq<char>) -> GraphView {
    GraphView {
        family,
        nodes: seq![bare_node("A"@), bare_node("B"@)],
        edges: seq![
            EdgeView {
                node_out: "A"@,
                node_in: "B"@,
                relation: relation_of(family),
                attributs: None,
            },
        ],
        subgraphs: Seq::empty(),
        attributs: Some(Seq::empty()),
        name: if trim(name).len() > 0 {
            trim(name)
        } else {
            "NoName"@
        },
    }
}

/// The letters and marks of the small text.
proof fn lemma_small_letters()
    ensures
        "A"@ == seq!['A'],
        "B"@ == seq!['B'],
        " A"@ == seq![' ', 'A'],
        " B"@ == seq![' ', 'B'],
        "--"@ == seq!['-', '-'],
        "->"@ == seq!['-', '>'],
        " { A; B; A "@ == seq![' ', '{', ' ', 'A', ';', ' ', 'B', ';', ' ', 'A', ' '],
        " B; }"@ == seq![' ', 'B', ';', ' ', '}'],
        "digraph"@ == seq!['d', 'i', 'g', 'r', 'a', 'p', 'h'],
        "graph"@ == seq!['g', 'r', 'a', 'p', 'h'],
        "node"@.len() == 4,
        "edge"@.len() == 4,
{
    reveal_strlit("A");
    reveal_strlit("B");
    reveal_strlit(" A");
    reveal_strlit(" B");
    reveal_strlit("--");
    reveal_strlit("->");
    reveal_strlit(" { A; B; A ");
    reveal_strlit(" B; }");
    reveal_strlit("digraph");
    reveal_strlit("graph");
    reveal_strlit("node");
    reveal_strlit("edge");
    assert("A"@ =~= seq!['A']);
    assert("B"@ =~= seq!['B']);
    assert(" A"@ =~= seq![' ', 'A']);
    assert(" B"@ =~= seq![' ', 'B']);
    assert("--"@ =~= seq!['-', '-']);
    assert("->"@ =~= seq!['-', '>']);
    assert(" { A; B; A "@ =~= seq![' ', '{', ' ', 'A', ';', ' ', 'B', ';', ' ', 'A', ' ']);
    assert(" B; }"@ =~= seq![' ', 'B', ';', ' ', '}']);
    assert("digraph"@ =~= seq!['d', 'i', 'g', 'r', 'a', 'p', 'h']);
    assert("graph"@ =~= seq!['g', 'r', 'a', 'p', 'h']);
}

/// A statement of one letter, with white space before it, declares the
/// node of that name, without attributes.
proof fn lemma_letter_node(acc: StatementsView, letter: char, family: GraphType)
    requires
        letter == 'A' || letter == 'B',
    ensures
        line_content(seq![' ', letter]) == seq![letter],
        add_statement(acc, seq![letter], family) == Ok::<_, Failure>(
            StatementsView { nodes: acc.nodes.push(bare_node(seq![letter])), ..acc },
        ),
{
    lemma_marks();
    lemma_small_letters();
    let word = seq![letter];
    let line = seq![' ', letter];
    lemma_lacks_pattern(line, "//"@, 0);
    assert(line =~= seq![' '] + word);
    lemma_trim_start_more(word, ' ');
    lemma_trim_none(word);
    assert(family.symbol_text()[0] == '-');
    lemma_lacks_pattern(word, family.symbol_text(), 0);
    lemma_lacks_pattern(word, "="@, 0);
    lemma_lacks_pattern(word, "["@, 0);
    assert(split_attributes(word) == Ok::<_, Failure>((word, None::<Entries>)));
    assert(word.len() != "node"@.len());
    assert(word.len() != "edge"@.len());
    assert(parse_node(word) == Ok::<_, Failure>(bare_node(word)));
}

/// The statement `A`, the token of the family and `B`, with white space
/// before it, states an edge from `A` to `B`, without attributes.
proof fn lemma_letter_edge(acc: StatementsView, family: GraphType)
    ensures
        line_content(" A "@ + family.symbol_text() + " B"@) == "A "@ + family.symbol_text()
            + " B"@,
        add_statement(acc, "A "@ + family.symbol_text() + " B"@, family) == Ok::<_, Failure>(
            StatementsView {
                edges: acc.edges.push(
                    EdgeView {
                        node_out: "A"@,
                        node_in: "B"@,
                        relation: relation_of(family),
                        attributs: None,
                    },
                ),
                ..acc
            },
        ),
{
    lemma_marks();
    lemma_small_letters();
    reveal_strlit(" A ");
    reveal_strlit("A ");
    let token = family.symbol_text();
    let left = seq!['A', ' '];
    let right = seq![' ', 'B'];
    let line = left + token + right;
    let spaced = seq![' '] + line;
    assert("A "@ =~= left);
    assert(" A "@ + token + " B"@ =~= spaced);
    assert(token.len() == 2 && token[0] == '-' && (token[1] == '-' || token[1] == '>'));
    assert forall|i: int| 0 <= i < spaced.len() implies #[trigger] spaced[i] != '/' by {}
    lemma_lacks_pattern(spaced, "//"@, 0);
    lemma_trim_start_more(line, ' ');
    assert(line[0] == 'A');
    assert(line.last() == 'B');
    lemma_trim_none(line);
    assert(line.subrange(2, 4) =~= token);
    assert forall|j: int| 0 <= j < 2 implies !occurs_at(line, token, j) by {
        if occurs_at(line, token, j) {
            assert(line.subrange(j, j + 2)[0] == line[j]);
        }
    }
    lemma_find_is(line, token, 2);
    assert(line.subrange(0, 2) =~= left);
    assert(line.subrange(4, line.len() as int) =~= right);
    assert(left =~= seq!['A'].push(' '));
    crate::text_laws::lemma_trim_end_more(seq!['A'], ' ');
    lemma_trim_none(seq!['A']);
    assert(trim(left) == "A"@);
    assert(right =~= seq![' '] + seq!['B']);
    lemma_trim_start_more(seq!['B'], ' ');
    lemma_trim_none(seq!['B']);
    assert(trim(right) == "B"@);
    lemma_lacks_pattern(right, "["@, 0);
    assert(split_attributes(right) == Ok::<_, Failure>((right, None::<Entries>)));
    assert(TypeRelation::from_token(token) == Ok::<_, Failure>(relation_of(family)));
}

/// What the body of the small text declares.
proof fn lemma_small_body(family: GraphType)
    ensures
        !contains(" A; B; A "@ + family.symbol_text() + " B; }"@, subgraph_keyword()),
        (" A; B; A "@ + family.symbol_text() + " B; }"@).last() == '}',
        classify((" A; B; A "@ + family.symbol_text() + " B; }"@).drop_last(), family) == Ok::<
            _,
            Failure,
        >(
            StatementsView {
                nodes: seq![bare_node("A"@), bare_node("B"@)],
                edges: seq![
                    EdgeView {
                        node_out: "A"@,
                        node_in: "B"@,
                        relation: relation_of(family),
                        attributs: None,
                    },
                ],
                ..no_statements()
            },
        ),
{
    lemma_marks();
    lemma_small_letters();
    lemma_keyword_letters();
    reveal_strlit(" A; B; A ");
    reveal_strlit("subgraph");
    reveal_strlit("A ");
    let token = family.symbol_text();
    let body = " A; B; A "@ + token + " B; }"@;
    assert(token.len() == 2 && token[0] == '-' && (token[1] == '-' || token[1] == '>'));
    assert(body.len() == 16);
    assert forall|i: int| 0 <= i < body.len() implies #[trigger] body[i] != 's' by {}
    lemma_lacks_pattern(body, subgraph_keyword(), 0);
    let rest = body.drop_last();
    let first = seq![' ', 'A'];
    let second = seq![' ', 'B'];
    let third = seq![' '] + (seq!['A', ' '] + token + seq![' ', 'B']);
    let last = seq![' '];
    let tail2 = third + seq![';'] + last;
    let tail1 = second + seq![';'] + tail2;
    assert(rest =~= first + seq![';'] + tail1);
    lemma_split_joined(first, tail1, ';');
    lemma_split_joined(second, tail2, ';');
    lemma_split_joined(third, last, ';');
    assert forall|i: int| 0 <= i < third.len() implies #[trigger] third[i] != ';' by {}
    lemma_split_whole(first, ';');
    lemma_split_whole(second, ';');
    lemma_split_whole(third, ';');
    lemma_split_whole(last, ';');
    let pieces = split(rest, ";"@);
    assert(pieces =~= seq![first, second, third, last]);
    let none = Seq::<Seq<char>>::empty();
    let one = seq![first];
    let two = seq![first, second];
    let three = seq![first, second, third];
    assert(one.drop_last() =~= none);
    assert(two.drop_last() =~= one);
    assert(three.drop_last() =~= two);
    assert(pieces.drop_last() =~= three);
    let start = no_statements();
    lemma_letter_node(start, 'A', family);
    let after_a = StatementsView { nodes: start.nodes.push(bare_node(seq!['A'])), ..start };
    assert(classify_pieces(none, family) == Ok::<_, Failure>(start));
    assert(classify_pieces(one, family) == Ok::<_, Failure>(after_a));
    lemma_letter_node(after_a, 'B', family);
    let after_b = StatementsView { nodes: after_a.nodes.push(bare_node(seq!['B'])), ..after_a };
    assert(classify_pieces(two, family) == Ok::<_, Failure>(after_b));
    lemma_letter_edge(after_b, family);
    assert(" A "@ + token + " B"@ =~= third) by {
        reveal_strlit(" A ");
    }
    assert("A "@ + token + " B"@ =~= seq!['A', ' '] + token + seq![' ', 'B']);
    let edge = EdgeView {
        node_out: "A"@,
        node_in: "B"@,
        relation: relation_of(family),
        attributs: None,
    };
    let after_edge = StatementsView { edges: after_b.edges.push(edge), ..after_b };
    assert(line_content(third).len() > 0);
    assert(classify_pieces(three, family) == Ok::<_, Failure>(after_edge));
    lemma_lacks_pattern(last, "//"@, 0);
    assert(last =~= Seq::<char>::empty().push(' '));
    lemma_trim_more(Seq::empty(), ' ');
    assert(line_content(last).len() == 0);
    assert(classify_pieces(pieces, family) == Ok::<_, Failure>(after_edge));
    assert(after_edge.nodes =~= seq![bare_node("A"@), bare_node("B"@)]);
    assert(after_edge.edges =~= seq![edge]);
}

/// A graph written on one line as `keyword name { A; B; A token B; }`,
/// with the keyword and the token of one family and a name without `{`,
/// line break and `/`, is read as the graph of that family and name with
/// the two nodes `A` and `B`, both without attributes, the one edge from
/// `A` to `B`, and nothing else. A name of white space alone, or none,
/// gives the name `NoName`.
pub proof fn lemma_small_graph(family: GraphType, name: Seq<char>)
    requires
        lacks(name, '{'),
        lacks(name, '\n'),
        lacks(name, '/'),
    ensures
        parse_document(small_text(family, name)) == Ok::<_, Failure>(small_graph(family, name)),
{
    lemma_marks();
    lemma_small_letters();
    lemma_keyword_letters();
    let keyword = family.keyword_text();
    let token = family.symbol_text();
    let text = small_text(family, name);
    let head = keyword + " "@ + name + " "@;
    let body = " A; B; A "@ + token + " B; }"@;
    assert(" { A; B; A "@ =~= seq![' ', '{'] + " A; B; A "@) by {
        reveal_strlit(" A; B; A ");
    }
    assert(text =~= head + seq!['{'] + body);
    lemma_small_body(family);
    // The text is one line, and is kept as it is.
    assert(token.len() == 2 && token[0] == '-' && (token[1] == '-' || token[1] == '>'));
    lemma_lacks_both(keyword, " "@, '\n');
    lemma_lacks_both(keyword + " "@, name, '\n');
    lemma_lacks_both(keyword + " "@ + name, " "@, '\n');
    lemma_lacks_both(keyword, " "@, '/');
    lemma_lacks_both(keyword + " "@, name, '/');
    lemma_lacks_both(keyword + " "@ + name, " "@, '/');
    lemma_lacks_both(keyword, " "@, '{');
    lemma_lacks_both(keyword + " "@, name, '{');
    lemma_lacks_both(keyword + " "@ + name, " "@, '{');
    assert forall|i: int| 0 <= i < body.len() implies #[trigger] body[i] != '\n' && body[i]
        != '/' by {
        reveal_strlit(" A; B; A ");
    }
    lemma_lacks_both(seq!['{'], body, '\n');
    lemma_lacks_both(seq!['{'], body, '/');
    assert(text =~= head + (seq!['{'] + body));
    lemma_lacks_both(head, seq!['{'] + body, '\n');
    lemma_lacks_both(head, seq!['{'] + body, '/');
    lemma_lacks_pattern(text, "//"@, 0);
    assert(text[0] == keyword[0]);
    assert(text.last() == '}');
    lemma_trim_none(text);
    lemma_split_whole(text, '\n');
    let lines = seq![text];
    assert(lines.drop_last() =~= Seq::empty());
    assert(kept_lines(lines.drop_last()) =~= Seq::empty());
    assert(kept_lines(lines) =~= seq![text]);
    assert(join(seq![text], ";"@) == text);
    assert(normalize(text) == text);
    // The header.
    lemma_find_one_is_at(head, '{', body);
    if family == GraphType::Digraph {
        assert(head.subrange(0, 7) =~= "digraph"@);
    } else {
        assert(head.subrange(0, 7)[0] == head[0]);
        assert(head.subrange(0, 5) =~= "graph"@);
    }
    assert(graph_type_of(head, None) == Ok::<_, Failure>(family));
    let named = name + " "@;
    assert(head =~= keyword + seq![' '] + named);
    lemma_find_one_is_at(keyword, ' ', named);
    assert(named =~= name.push(' '));
    lemma_trim_more(name, ' ');
    assert(graph_name(head) == small_graph(family, name).name);
    // The body.
    assert(subgraph_positions(body, 0) == Ok::<_, Failure>(Seq::<(int, int)>::empty()));
    assert(parse_children(body, Seq::empty(), family) == Ok::<_, Failure>(
        Seq::<GraphView>::empty(),
    ));
    assert(remove_spans(body, Seq::empty()) == body);
    assert(extract(body, family) == Ok::<_, Failure>(
        (Seq::<GraphView>::empty(), body.drop_last()),
    ));
    assert(parse_graph(text, None) == Ok::<_, Failure>(small_graph(family, name)));
}

} // verus!
