//! Reading back what was written: the text of a plain digraph stands for a
//! graph with the same nodes and the same edges.

use crate::attribut::key_value;
use crate::attributs::{
    collect_segments, parse_list, render_entries, render_list, split_attributes, Entries,
};
use crate::block::{subgraph_keyword, subgraph_positions};
use crate::dot_graph::{
    extract, graph_type_of, kept_lines, normalize, parse_children, parse_document, parse_graph,
    remove_spans, render_edges, render_first, render_graph, render_nodes, strip_closing_brace,
    GraphView,
};
use crate::edge::{parse_edge, render_edge, EdgeView};
use crate::graph_type::GraphType;
use crate::node::{parse_node, render_node, NodeView};
use crate::parsing_error::Failure;
use crate::siblings::lemma_find_in_prefix;
use crate::statement::{
    add_statement, classify, classify_pieces, line_content, no_statements, StatementsView,
};
use crate::text::{
    contains, find, is_whitespace, join, lemma_find, lemma_find_is, occurs_at, split, split_once,
    trim, without_char,
};
use crate::text_laws::{
    lacks, lemma_find_one, lemma_find_one_is, lemma_join_push, lemma_lacks_across,
    lemma_lacks_both, lemma_lacks_meeting, lemma_split_joined, lemma_split_longer,
    lemma_split_whole, lemma_trim_end_more, lemma_trim_end_none, lemma_trim_more,
    lemma_trim_none, lemma_trim_start_more, lemma_trim_start_none,
};
use crate::type_relation::TypeRelation;
use vstd::prelude::*;

verus! {

/// The characters that part a text into statements, lists and comments.
pub open spec fn is_special(c: char) -> bool {
    c == ';' || c == '\n' || c == '{' || c == '}' || c == '[' || c == ']' || c == '=' || c == ','
        || c == '/' || c == '>'
}

/// No character of `s` is special.
pub open spec fn no_special(s: Seq<char>) -> bool {
    forall|i: int| 0 <= i < s.len() ==> !is_special(#[trigger] s[i])
}

/// A word: a text that is not empty, holds no special character and not
/// the keyword of nested blocks, and neither begins nor ends with white
/// space.
pub open spec fn is_word(s: Seq<char>) -> bool {
    &&& s.len() > 0
    &&& no_special(s)
    &&& !is_whitespace(s[0])
    &&& !is_whitespace(s.last())
    &&& !contains(s, subgraph_keyword())
}

/// Every key and every value of the entries is a word.
pub open spec fn plain_entries(entries: Entries) -> bool {
    forall|i: int|
        0 <= i < entries.len() ==> is_word((#[trigger] entries[i]).0) && is_word(entries[i].1)
}

/// Every key and every value of the list, if there is one, is a word.
pub open spec fn plain_list(list: Option<Entries>) -> bool {
    match list {
        Some(entries) => plain_entries(entries),
        None => true,
    }
}

/// A text that holds none of the characters that end a statement, a line
/// or a list, or that open a comment, and not the keyword of nested
/// blocks.
pub open spec fn is_calm(s: Seq<char>) -> bool {
    &&& lacks(s, ';')
    &&& lacks(s, '\n')
    &&& lacks(s, '/')
    &&& lacks(s, '{')
    &&& lacks(s, '}')
    &&& !contains(s, subgraph_keyword())
}

/// The keyword of nested blocks holds none of the characters that stand
/// between words.
pub proof fn lemma_keyword_letters()
    ensures
        subgraph_keyword().len() == 8,
        lacks(subgraph_keyword(), ';'),
        lacks(subgraph_keyword(), ' '),
        lacks(subgraph_keyword(), '['),
        lacks(subgraph_keyword(), ']'),
        lacks(subgraph_keyword(), '='),
        lacks(subgraph_keyword(), ','),
        lacks(subgraph_keyword(), '-'),
        lacks(subgraph_keyword(), '>'),
        lacks(subgraph_keyword(), '}'),
        !contains(Seq::empty(), subgraph_keyword()),
{
    reveal_strlit("subgraph");
    lemma_find(Seq::empty(), subgraph_keyword());
}

/// The texts between the words of a statement, as sequences of characters.
pub proof fn lemma_marks()
    ensures
        "["@ == seq!['['],
        "]"@ == seq![']'],
        "="@ == seq!['='],
        ","@ == seq![','],
        ";"@ == seq![';'],
        " "@ == seq![' '],
        "{"@ == seq!['{'],
        "\n"@ == seq!['\n'],
        "->"@ == seq!['-', '>'],
        "//"@ == seq!['/', '/'],
{
    reveal_strlit("[");
    reveal_strlit("]");
    reveal_strlit("=");
    reveal_strlit(",");
    reveal_strlit(";");
    reveal_strlit(" ");
    reveal_strlit("{");
    reveal_strlit("\n");
    reveal_strlit("->");
    reveal_strlit("//");
    assert("["@ =~= seq!['[']);
    assert("]"@ =~= seq![']']);
    assert("="@ =~= seq!['=']);
    assert(","@ =~= seq![',']);
    assert(";"@ =~= seq![';']);
    assert(" "@ =~= seq![' ']);
    assert("{"@ =~= seq!['{']);
    assert("\n"@ =~= seq!['\n']);
    assert("->"@ =~= seq!['-', '>']);
    assert("//"@ =~= seq!['/', '/']);
}

/// A text that lacks a character of a pattern does not hold the pattern.
pub proof fn lemma_lacks_pattern(s: Seq<char>, pat: Seq<char>, k: int)
    requires
        0 <= k < pat.len(),
        lacks(s, pat[k]),
    ensures
        !contains(s, pat),
{
    lemma_find(s, pat);
    if contains(s, pat) {
        let i = find(s, pat).unwrap();
        assert(s.subrange(i, i + pat.len())[k] == s[i + k]);
    }
}

/// A text that lacks a character is left whole when that character is
/// taken out, also with the character behind it.
pub proof fn lemma_without_lacking(s: Seq<char>, c: char)
    requires
        lacks(s, c),
    ensures
        without_char(s, c) == s,
        without_char(s.push(c), c) == s,
    decreases s.len(),
{
    if s.len() > 0 {
        lemma_without_lacking(s.drop_last(), c);
        assert(s.drop_last().push(s.last()) =~= s);
    }
    assert(s.push(c).drop_last() =~= s);
}

/// A word lacks every special character.
pub proof fn lemma_word(s: Seq<char>)
    requires
        no_special(s),
    ensures
        lacks(s, ';'),
        lacks(s, '\n'),
        lacks(s, '{'),
        lacks(s, '}'),
        lacks(s, '['),
        lacks(s, ']'),
        lacks(s, '='),
        lacks(s, ','),
        lacks(s, '/'),
        lacks(s, '>'),
{
    assert forall|i: int| 0 <= i < s.len() implies !is_special(#[trigger] s[i]) by {}
}

/// Two calm texts around a character that is calm and no letter of the
/// keyword are calm together.
pub proof fn lemma_calm_joined(x: Seq<char>, c: char, y: Seq<char>)
    requires
        is_calm(x),
        is_calm(y),
        c != ';' && c != '\n' && c != '/' && c != '{' && c != '}',
        lacks(subgraph_keyword(), c),
    ensures
        is_calm(x.push(c) + y),
{
    lemma_lacks_across(x, c, y, subgraph_keyword());
    let whole = x.push(c) + y;
    assert forall|i: int| 0 <= i < whole.len() implies #[trigger] whole[i] != ';' && whole[i]
        != '\n' && whole[i] != '/' && whole[i] != '{' && whole[i] != '}' by {
        if i < x.len() {
            assert(whole[i] == x[i]);
        } else if i > x.len() {
            assert(whole[i] == y[i - x.len() - 1]);
        }
    }
}

/// One assignment of a word to a word: it is calm, lacks the brackets, `>`
/// and the comma, and reads as an assignment.
pub proof fn lemma_pair_text(key: Seq<char>, value: Seq<char>)
    requires
        is_word(key),
        is_word(value),
    ensures
        is_calm(key + "="@ + value),
        lacks(key + "="@ + value, ']'),
        lacks(key + "="@ + value, '['),
        lacks(key + "="@ + value, '>'),
        lacks(key + "="@ + value, ','),
        (key + "="@ + value).len() > 0,
        key_value(key + "="@ + value) is Ok,
{
    lemma_marks();
    lemma_keyword_letters();
    lemma_word(key);
    lemma_word(value);
    let pair = key + "="@ + value;
    assert(pair =~= key.push('=') + value);
    lemma_calm_joined(key, '=', value);
    assert(pair =~= key + (seq!['='] + value));
    lemma_lacks_both(seq!['='], value, ']');
    lemma_lacks_both(seq!['='], value, '[');
    lemma_lacks_both(seq!['='], value, '>');
    lemma_lacks_both(seq!['='], value, ',');
    lemma_lacks_both(key, seq!['='] + value, ']');
    lemma_lacks_both(key, seq!['='] + value, '[');
    lemma_lacks_both(key, seq!['='] + value, '>');
    lemma_lacks_both(key, seq!['='] + value, ',');
    lemma_find_one_is_at(key, '=', value);
}

/// The text of a list of words between its brackets: it is calm, lacks the
/// brackets and `>`, and reads as a list.
pub proof fn lemma_entries_text(entries: Entries)
    requires
        plain_entries(entries),
        entries.len() > 0,
    ensures
        is_calm(render_entries(entries)),
        lacks(render_entries(entries), ']'),
        lacks(render_entries(entries), '['),
        lacks(render_entries(entries), '>'),
        render_entries(entries).len() > 0,
        collect_segments(split(render_entries(entries), ","@)) is Ok,
    decreases entries.len(),
{
    let last = entries.last();
    let key = last.0;
    let value = last.1;
    assert(is_word(entries[entries.len() - 1].0) && is_word(entries[entries.len() - 1].1));
    let pair = key + "="@ + value;
    lemma_pair_text(key, value);
    assert(","@ == seq![',']) by {
        lemma_marks();
    }
    lemma_split_whole(pair, ',');
    if entries.len() == 1 {
        assert(render_entries(entries) == pair);
        let segments = split(pair, ","@);
        assert(segments.drop_last() =~= Seq::empty());
        assert(segments.last() == pair);
        assert(collect_segments(segments.drop_last()) is Ok);
        assert(collect_segments(segments) is Ok);
    } else {
        let before = entries.drop_last();
        assert forall|i: int| 0 <= i < before.len() implies is_word((#[trigger] before[i]).0)
            && is_word(before[i].1) by {
            assert(before[i] == entries[i]);
        }
        lemma_entries_text(before);
        let text = render_entries(before);
        let whole = render_entries(entries);
        assert(whole =~= text.push(',') + pair);
        assert(lacks(subgraph_keyword(), ',')) by {
            lemma_keyword_letters();
        }
        lemma_calm_joined(text, ',', pair);
        assert(whole =~= text + (seq![','] + pair));
        lemma_lacks_both(seq![','], pair, ']');
        lemma_lacks_both(seq![','], pair, '[');
        lemma_lacks_both(seq![','], pair, '>');
        lemma_lacks_both(text, seq![','] + pair, ']');
        lemma_lacks_both(text, seq![','] + pair, '[');
        lemma_lacks_both(text, seq![','] + pair, '>');
        assert(whole =~= text + seq![','] + pair);
        lemma_split_joined(text, pair, ',');
        let segments = split(whole, ","@);
        assert(segments =~= split(text, ","@).push(pair));
        assert(segments.drop_last() =~= split(text, ","@));
        assert(segments.last() == pair);
        assert(collect_segments(segments.drop_last()) is Ok);
        assert(collect_segments(segments) is Ok);
    }
}

/// A character between two texts, the first of which lacks it, is first
/// found where the first text ends; so the two are what stands before and
/// behind it.
pub proof fn lemma_find_one_is_at(x: Seq<char>, c: char, y: Seq<char>)
    requires
        lacks(x, c),
    ensures
        find(x + seq![c] + y, seq![c]) == Some(x.len() as int),
        split_once(x + seq![c] + y, seq![c]) == Some((x, y)),
{
    let whole = x + seq![c] + y;
    assert forall|j: int| 0 <= j < x.len() implies #[trigger] whole[j] != c by {
        assert(whole[j] == x[j]);
    }
    assert(whole[x.len() as int] == c);
    lemma_find_one_is(whole, c, x.len() as int);
    assert(whole.subrange(0, x.len() as int) =~= x);
    assert(whole.subrange(x.len() as int + 1, whole.len() as int) =~= y);
}

/// A text without `[`, followed by the text of a list of words, is parted
/// into that text and a list.
pub proof fn lemma_statement_tail(head: Seq<char>, list: Option<Entries>)
    requires
        lacks(head, '['),
        plain_list(list),
    ensures
        split_attributes(head + render_list(list)) is Ok,
        split_attributes(head + render_list(list))->Ok_0.0 == head,
{
    lemma_marks();
    let text = render_list(list);
    if text.len() == 0 {
        assert(head + text =~= head);
        lemma_find_one(head, '[');
    } else {
        let entries = list->0;
        lemma_entries_text(entries);
        let inside = render_entries(entries);
        let tail = inside + "]"@;
        assert(head + text =~= head + seq!['['] + tail);
        lemma_find_one_is_at(head, '[', tail);
        assert(tail =~= inside.push(']'));
        lemma_without_lacking(inside, ']');
    }
}

/// The text of a list of words is calm and lacks `>`.
pub proof fn lemma_list_text(list: Option<Entries>)
    requires
        plain_list(list),
    ensures
        is_calm(render_list(list)),
        lacks(render_list(list), '>'),
        render_list(list).len() > 0 ==> render_list(list)[0] == '[' && render_list(list).last()
            == ']',
{
    lemma_marks();
    lemma_keyword_letters();
    let text = render_list(list);
    if text.len() > 0 {
        let entries = list->0;
        lemma_entries_text(entries);
        let inside = render_entries(entries);
        let closed = inside.push(']') + Seq::empty();
        lemma_calm_joined(inside, ']', Seq::empty());
        let whole = Seq::<char>::empty().push('[') + closed;
        lemma_calm_joined(Seq::empty(), '[', closed);
        assert(text =~= whole);
        assert forall|i: int| 0 <= i < whole.len() implies #[trigger] whole[i] != '>' by {
            if 0 < i < whole.len() - 1 {
                assert(whole[i] == inside[i - 1]);
            }
        }
    } else {
        assert(text =~= Seq::empty());
    }
}

/// Two calm texts are calm together where the second is empty or begins
/// with no letter of the keyword.
pub proof fn lemma_calm_both(x: Seq<char>, y: Seq<char>)
    requires
        is_calm(x),
        is_calm(y),
        y.len() == 0 || lacks(subgraph_keyword(), y[0]),
    ensures
        is_calm(x + y),
{
    lemma_lacks_meeting(x, y, subgraph_keyword());
    lemma_lacks_both(x, y, ';');
    lemma_lacks_both(x, y, '\n');
    lemma_lacks_both(x, y, '/');
    lemma_lacks_both(x, y, '{');
    lemma_lacks_both(x, y, '}');
}

/// A node that reads back: its identifier is a word other than `node` and
/// `edge`, and so are the keys and values of its attributes words.
pub open spec fn plain_node(node: NodeView) -> bool {
    &&& is_word(node.identifier)
    &&& node.identifier != "node"@
    &&& node.identifier != "edge"@
    &&& plain_list(node.attributes)
}

/// An edge that reads back: its two ends are words, and so are the keys
/// and values of its attributes.
pub open spec fn plain_edge(edge: EdgeView) -> bool {
    &&& is_word(edge.node_out)
    &&& is_word(edge.node_in)
    &&& plain_list(edge.attributs)
}

/// The statement of a node without the `;` at its end.
pub open spec fn node_text(node: NodeView) -> Seq<char> {
    node.identifier + render_list(node.attributes)
}

/// The statement of an edge without the `;` at its end.
pub open spec fn edge_text(edge: EdgeView) -> Seq<char> {
    edge.node_out + " "@ + "->"@ + " "@ + edge.node_in + " "@ + render_list(edge.attributs)
}

/// A line without `/` holds no comment.
pub proof fn lemma_no_comment(line: Seq<char>)
    requires
        lacks(line, '/'),
    ensures
        line_content(line) == trim(line),
{
    lemma_marks();
    lemma_lacks_pattern(line, "//"@, 0);
}

/// The statement of a plain node is calm, and reads as a node with the
/// same identifier.
pub proof fn lemma_node_statement(node: NodeView, acc: StatementsView)
    requires
        plain_node(node),
    ensures
        is_calm(node_text(node)),
        node_text(node).len() > 0,
        !is_whitespace(node_text(node)[0]),
        line_content(node_text(node)) == node_text(node),
        add_statement(acc, node_text(node), GraphType::Digraph) is Ok,
        ({
            let after = add_statement(acc, node_text(node), GraphType::Digraph)->Ok_0;
            &&& after.edges == acc.edges
            &&& after.nodes.len() == acc.nodes.len() + 1
            &&& after.nodes.drop_last() == acc.nodes
            &&& after.nodes.last().identifier == node.identifier
        }),
{
    lemma_marks();
    lemma_keyword_letters();
    let id = node.identifier;
    let list = render_list(node.attributes);
    let text = node_text(node);
    lemma_word(id);
    lemma_list_text(node.attributes);
    lemma_calm_both(id, list);
    lemma_lacks_both(id, list, '>');
    assert(text[0] == id[0]);
    if list.len() == 0 {
        assert(text =~= id);
    } else {
        assert(text.last() == list.last());
    }
    lemma_no_comment(text);
    lemma_trim_none(text);
    lemma_lacks_pattern(text, "->"@, 1);
    if list.len() == 0 {
        lemma_lacks_pattern(text, "="@, 0);
    } else {
        lemma_find_one(text, '[');
        assert(text[id.len() as int] == list[0]);
    }
    lemma_statement_tail(id, node.attributes);
    lemma_trim_none(id);
    let read = parse_node(text)->Ok_0;
    assert(read.identifier == id);
    let after = add_statement(acc, text, GraphType::Digraph)->Ok_0;
    assert(after.nodes == acc.nodes.push(read));
    assert(after.nodes.drop_last() =~= acc.nodes);
}

/// The statement of a plain edge is calm, and what is left of it without
/// the white space around it reads as an edge with the same two ends.
pub proof fn lemma_edge_statement(edge: EdgeView, acc: StatementsView)
    requires
        plain_edge(edge),
    ensures
        is_calm(edge_text(edge)),
        edge_text(edge).len() > 0,
        !is_whitespace(edge_text(edge)[0]),
        line_content(edge_text(edge)).len() > 0,
        add_statement(acc, line_content(edge_text(edge)), GraphType::Digraph) is Ok,
        ({
            let after = add_statement(acc, line_content(edge_text(edge)), GraphType::Digraph)->Ok_0;
            &&& after.nodes == acc.nodes
            &&& after.edges.len() == acc.edges.len() + 1
            &&& after.edges.drop_last() == acc.edges
            &&& after.edges.last().node_out == edge.node_out
            &&& after.edges.last().node_in == edge.node_in
        }),
{
    lemma_marks();
    lemma_keyword_letters();
    let out = edge.node_out;
    let into = edge.node_in;
    let list = render_list(edge.attributs);
    let text = edge_text(edge);
    lemma_word(out);
    lemma_word(into);
    lemma_list_text(edge.attributs);
    // The statement is calm.
    let from_target = into.push(' ') + list;
    lemma_calm_joined(into, ' ', list);
    let from_space = Seq::<char>::empty().push(' ') + from_target;
    lemma_calm_joined(Seq::empty(), ' ', from_target);
    let from_head = Seq::<char>::empty().push('>') + from_space;
    lemma_calm_joined(Seq::empty(), '>', from_space);
    let from_token = Seq::<char>::empty().push('-') + from_head;
    lemma_calm_joined(Seq::empty(), '-', from_head);
    let from_source = out.push(' ') + from_token;
    lemma_calm_joined(out, ' ', from_token);
    assert(text =~= from_source);
    assert(text[0] == out[0]);
    // What is left of it without the white space around it.
    let left = out.push(' ');
    let head = seq![' '] + into.push(' ');
    let right = if list.len() == 0 {
        seq![' '] + into
    } else {
        head + list
    };
    let line = left + "->"@ + right;
    lemma_no_comment(text);
    lemma_trim_start_none(text);
    if list.len() == 0 {
        assert(text =~= line.push(' '));
        lemma_trim_end_more(line, ' ');
        assert(line.last() == into.last());
        lemma_trim_end_none(line);
    } else {
        assert(text =~= line);
        assert(text.last() == list.last());
        lemma_trim_end_none(text);
    }
    assert(line_content(text) == line);
    // The token is first found behind the source.
    let at = left.len() as int;
    assert(line.subrange(at, at + 2) =~= "->"@);
    assert forall|j: int| 0 <= j < at implies !occurs_at(line, "->"@, j) by {
        if occurs_at(line, "->"@, j) {
            assert(line.subrange(j, j + 2)[1] == line[j + 1]);
            if j + 1 < out.len() {
                assert(line[j + 1] == out[j + 1]);
            }
        }
    }
    lemma_find_is(line, "->"@, at);
    assert(line.subrange(0, at) =~= left);
    assert(line.subrange(at + 2, line.len() as int) =~= right);
    assert(split_once(line, "->"@) == Some((left, right)));
    // The two ends.
    lemma_trim_start_none(left);
    lemma_trim_end_more(out, ' ');
    lemma_trim_end_none(out);
    assert(trim(left) == out);
    if list.len() == 0 {
        assert(right + list =~= right);
        lemma_lacks_both(seq![' '], into, '[');
        lemma_statement_tail(right, edge.attributs);
        lemma_trim_start_more(into, ' ');
        lemma_trim_start_none(into);
        lemma_trim_end_none(into);
        assert(trim(right) == into);
    } else {
        lemma_lacks_both(seq![' '], into.push(' '), '[');
        lemma_statement_tail(head, edge.attributs);
        lemma_trim_start_more(into.push(' '), ' ');
        lemma_trim_start_none(into.push(' '));
        lemma_trim_end_more(into, ' ');
        lemma_trim_end_none(into);
        assert(trim(head) == into);
    }
    assert(TypeRelation::from_token("->"@) is Ok);
    let read = parse_edge(line, "->"@)->Ok_0;
    assert(read.node_out == out);
    assert(read.node_in == into);
    let after = add_statement(acc, line, GraphType::Digraph)->Ok_0;
    assert(after.edges == acc.edges.push(read));
    assert(after.edges.drop_last() =~= acc.edges);
}

/// The statements of the nodes as they stand in a body: each between two
/// `;`.
pub open spec fn node_chunk(nodes: Seq<NodeView>) -> Seq<char>
    decreases nodes.len(),
{
    if nodes.len() == 0 {
        Seq::empty()
    } else {
        node_chunk(nodes.drop_last()) + ";"@ + node_text(nodes.last()) + ";"@
    }
}

/// The statements of the edges as they stand in a body: each between two
/// `;`.
pub open spec fn edge_chunk(edges: Seq<EdgeView>) -> Seq<char>
    decreases edges.len(),
{
    if edges.len() == 0 {
        Seq::empty()
    } else {
        edge_chunk(edges.drop_last()) + ";"@ + edge_text(edges.last()) + ";"@
    }
}

/// The identifiers of the nodes, in order.
pub open spec fn identifiers(nodes: Seq<NodeView>) -> Seq<Seq<char>> {
    Seq::new(nodes.len(), |i: int| nodes[i].identifier)
}

/// The two ends of each edge, in order.
pub open spec fn endpoints(edges: Seq<EdgeView>) -> Seq<(Seq<char>, Seq<char>)> {
    Seq::new(edges.len(), |i: int| (edges[i].node_out, edges[i].node_in))
}

/// Every node is plain.
pub open spec fn plain_nodes(nodes: Seq<NodeView>) -> bool {
    forall|i: int| 0 <= i < nodes.len() ==> plain_node(#[trigger] nodes[i])
}

/// Every edge is plain.
pub open spec fn plain_edges(edges: Seq<EdgeView>) -> bool {
    forall|i: int| 0 <= i < edges.len() ==> plain_edge(#[trigger] edges[i])
}

/// The empty line holds nothing.
pub proof fn lemma_empty_line()
    ensures
        line_content(Seq::empty()).len() == 0,
        lacks(Seq::empty(), ';'),
        lacks(Seq::empty(), '\n'),
{
    lemma_no_comment(Seq::empty());
}

/// One more statement behind a body, between two `;`: the body is read as
/// before, and then the statement, if anything is left of it without the
/// white space around it.
pub proof fn lemma_one_more_statement(before: Seq<char>, text: Seq<char>, family: GraphType)
    requires
        lacks(text, ';'),
    ensures
        classify_pieces(split(before + ";"@ + text + ";"@, ";"@), family) == match classify_pieces(
            split(before, ";"@),
            family,
        ) {
            Err(e) => Err(e),
            Ok(acc) => if line_content(text).len() == 0 {
                Ok(acc)
            } else {
                add_statement(acc, line_content(text), family)
            },
        },
{
    lemma_marks();
    lemma_empty_line();
    let nothing = Seq::<char>::empty();
    let longer = before + seq![';'] + text;
    let whole = before + ";"@ + text + ";"@;
    assert(whole =~= longer + seq![';'] + nothing);
    lemma_split_joined(longer, nothing, ';');
    lemma_split_joined(before, text, ';');
    lemma_split_whole(nothing, ';');
    lemma_split_whole(text, ';');
    let pieces = split(whole, ";"@);
    let old_pieces = split(before, ";"@);
    assert(pieces =~= old_pieces.push(text).push(nothing));
    assert(pieces.drop_last() =~= old_pieces.push(text));
    assert(pieces.last() == nothing);
    assert(classify_pieces(pieces, family) == classify_pieces(old_pieces.push(text), family));
    assert(old_pieces.push(text).drop_last() =~= old_pieces);
    assert(old_pieces.push(text).last() == text);
}

/// The statements of plain nodes hold no keyword of nested blocks, and
/// read as nodes with the same identifiers and no edge.
pub proof fn lemma_node_chunk(nodes: Seq<NodeView>)
    requires
        plain_nodes(nodes),
    ensures
        !contains(node_chunk(nodes), subgraph_keyword()),
        classify_pieces(split(node_chunk(nodes), ";"@), GraphType::Digraph) is Ok,
        ({
            let found = classify_pieces(split(node_chunk(nodes), ";"@), GraphType::Digraph)->Ok_0;
            &&& identifiers(found.nodes) == identifiers(nodes)
            &&& found.edges.len() == 0
        }),
    decreases nodes.len(),
{
    lemma_marks();
    lemma_keyword_letters();
    lemma_empty_line();
    if nodes.len() == 0 {
        lemma_split_whole(Seq::empty(), ';');
        let pieces = split(Seq::<char>::empty(), ";"@);
        assert(pieces.drop_last() =~= Seq::empty());
        assert(classify_pieces(pieces.drop_last(), GraphType::Digraph) == Ok::<
            _,
            Failure,
        >(no_statements()));
        assert(identifiers(no_statements().nodes) =~= identifiers(nodes));
    } else {
        let before = nodes.drop_last();
        let node = nodes.last();
        assert(plain_node(nodes[nodes.len() - 1]));
        assert forall|i: int| 0 <= i < before.len() implies plain_node(#[trigger] before[i]) by {
            assert(before[i] == nodes[i]);
        }
        lemma_node_chunk(before);
        let acc = classify_pieces(split(node_chunk(before), ";"@), GraphType::Digraph)->Ok_0;
        lemma_node_statement(node, acc);
        let text = node_text(node);
        lemma_one_more_statement(node_chunk(before), text, GraphType::Digraph);
        let closed = text.push(';') + Seq::<char>::empty();
        lemma_lacks_across(text, ';', Seq::empty(), subgraph_keyword());
        lemma_lacks_across(node_chunk(before), ';', closed, subgraph_keyword());
        assert(node_chunk(nodes) =~= node_chunk(before).push(';') + closed);
        let found = add_statement(acc, text, GraphType::Digraph)->Ok_0;
        assert(identifiers(acc.nodes).len() == acc.nodes.len());
        assert(identifiers(before).len() == before.len());
        assert(identifiers(found.nodes) =~= identifiers(nodes)) by {
            assert forall|i: int| 0 <= i < nodes.len() implies identifiers(found.nodes)[i]
                == identifiers(nodes)[i] by {
                if i < nodes.len() - 1 {
                    assert(found.nodes[i] == found.nodes.drop_last()[i]);
                    assert(identifiers(acc.nodes)[i] == identifiers(before)[i]);
                }
            }
        }
    }
}

/// The statements of plain edges behind those of plain nodes hold no
/// keyword of nested blocks, and read as the same nodes and as edges with
/// the same ends.
pub proof fn lemma_edge_chunk(nodes: Seq<NodeView>, edges: Seq<EdgeView>)
    requires
        plain_nodes(nodes),
        plain_edges(edges),
    ensures
        !contains(node_chunk(nodes) + edge_chunk(edges), subgraph_keyword()),
        classify_pieces(
            split(node_chunk(nodes) + edge_chunk(edges), ";"@),
            GraphType::Digraph,
        ) is Ok,
        ({
            let found = classify_pieces(
                split(node_chunk(nodes) + edge_chunk(edges), ";"@),
                GraphType::Digraph,
            )->Ok_0;
            &&& identifiers(found.nodes) == identifiers(nodes)
            &&& endpoints(found.edges) == endpoints(edges)
        }),
    decreases edges.len(),
{
    lemma_marks();
    lemma_keyword_letters();
    if edges.len() == 0 {
        lemma_node_chunk(nodes);
        assert(node_chunk(nodes) + edge_chunk(edges) =~= node_chunk(nodes));
        let found = classify_pieces(split(node_chunk(nodes), ";"@), GraphType::Digraph)->Ok_0;
        assert(endpoints(found.edges) =~= endpoints(edges));
    } else {
        let before = edges.drop_last();
        let edge = edges.last();
        assert(plain_edge(edges[edges.len() - 1]));
        assert forall|i: int| 0 <= i < before.len() implies plain_edge(#[trigger] before[i]) by {
            assert(before[i] == edges[i]);
        }
        lemma_edge_chunk(nodes, before);
        let body = node_chunk(nodes) + edge_chunk(before);
        let acc = classify_pieces(split(body, ";"@), GraphType::Digraph)->Ok_0;
        lemma_edge_statement(edge, acc);
        let text = edge_text(edge);
        lemma_one_more_statement(body, text, GraphType::Digraph);
        let closed = text.push(';') + Seq::<char>::empty();
        lemma_lacks_across(text, ';', Seq::empty(), subgraph_keyword());
        lemma_lacks_across(body, ';', closed, subgraph_keyword());
        assert(node_chunk(nodes) + edge_chunk(edges) =~= body.push(';') + closed);
        assert(node_chunk(nodes) + edge_chunk(edges) =~= body + ";"@ + text + ";"@);
        let found = add_statement(acc, line_content(text), GraphType::Digraph)->Ok_0;
        assert(endpoints(acc.edges).len() == acc.edges.len());
        assert(endpoints(before).len() == before.len());
        assert(endpoints(found.edges) =~= endpoints(edges)) by {
            assert forall|i: int| 0 <= i < edges.len() implies endpoints(found.edges)[i]
                == endpoints(edges)[i] by {
                if i < edges.len() - 1 {
                    assert(found.edges[i] == found.edges.drop_last()[i]);
                    assert(endpoints(acc.edges)[i] == endpoints(before)[i]);
                }
            }
        }
    }
}

/// The lines of a text that hold more than a comment and white space,
/// each without them.
pub open spec fn text_lines(text: Seq<char>) -> Seq<Seq<char>> {
    kept_lines(split(text, "\n"@))
}

/// White space behind a line changes nothing of what the line holds.
pub proof fn lemma_line_content_more(line: Seq<char>, w: char)
    requires
        is_whitespace(w),
    ensures
        line_content(line.push(w)) == line_content(line),
{
    lemma_marks();
    let longer = line.push(w);
    let mark = "//"@;
    lemma_find(line, mark);
    lemma_find(longer, mark);
    assert(longer =~= line + seq![w]);
    match find(line, mark) {
        Some(p) => {
            lemma_find_in_prefix(line, seq![w], mark);
            assert(longer.subrange(0, p) =~= line.subrange(0, p));
        },
        None => {
            if find(longer, mark) is Some {
                let i = find(longer, mark).unwrap();
                if i + 2 <= line.len() {
                    assert(longer.subrange(i, i + 2) =~= line.subrange(i, i + 2));
                    assert(occurs_at(line, mark, i));
                } else {
                    assert(longer.subrange(i, i + 2)[1] == longer[i + 1]);
                }
            }
            lemma_trim_more(line, w);
        },
    }
}

/// The kept lines of two sequences of lines, one behind the other, are
/// those of the first and then those of the second.
pub proof fn lemma_kept_lines_both(a: Seq<Seq<char>>, b: Seq<Seq<char>>)
    ensures
        kept_lines(a + b) == kept_lines(a) + kept_lines(b),
    decreases b.len(),
{
    if b.len() == 0 {
        assert(a + b =~= a);
        assert(kept_lines(a) + kept_lines(b) =~= kept_lines(a));
    } else {
        lemma_kept_lines_both(a, b.drop_last());
        assert((a + b).drop_last() =~= a + b.drop_last());
        assert((a + b).last() == b.last());
        if line_content(b.last()).len() == 0 {
        } else {
            assert(kept_lines(a + b) =~= kept_lines(a) + kept_lines(b));
        }
    }
}

/// The lines of two texts with a line break between them are those of the
/// first and then those of the second.
pub proof fn lemma_lines_crlf(x: Seq<char>, y: Seq<char>)
    ensures
        text_lines(x + "\r\n"@ + y) == text_lines(x) + text_lines(y),
{
    lemma_marks();
    reveal_strlit("\r\n");
    assert("\r\n"@ =~= seq!['\r', '\n']);
    let whole = x + "\r\n"@ + y;
    assert(whole =~= x.push('\r') + seq!['\n'] + y);
    lemma_split_joined(x.push('\r'), y, '\n');
    lemma_split_longer(x, '\n', '\r');
    let lines = split(x, "\n"@);
    let longer = lines.drop_last().push(lines.last().push('\r'));
    lemma_kept_lines_both(longer, split(y, "\n"@));
    lemma_line_content_more(lines.last(), '\r');
    assert(longer.drop_last() =~= lines.drop_last());
    assert(longer.last() == lines.last().push('\r'));
    assert(kept_lines(longer) == kept_lines(lines));
}

/// A text of one line has that line alone, if anything is left of it.
pub proof fn lemma_lines_single(line: Seq<char>)
    requires
        lacks(line, '\n'),
    ensures
        text_lines(line) == if line_content(line).len() == 0 {
            Seq::<Seq<char>>::empty()
        } else {
            seq![line_content(line)]
        },
{
    lemma_marks();
    lemma_split_whole(line, '\n');
    let lines = seq![line];
    assert(lines.drop_last() =~= Seq::empty());
    assert(kept_lines(lines.drop_last()) =~= Seq::empty());
    assert(lines.last() == line);
    if line_content(line).len() != 0 {
        assert(kept_lines(lines) =~= seq![line_content(line)]);
    }
}

/// A line break behind a text adds no line.
pub proof fn lemma_lines_break(x: Seq<char>)
    ensures
        text_lines(x + "\r\n"@) == text_lines(x),
{
    lemma_empty_line();
    lemma_lines_crlf(x, Seq::empty());
    lemma_lines_single(Seq::empty());
    assert(x + "\r\n"@ + Seq::<char>::empty() =~= x + "\r\n"@);
    assert(text_lines(x) + Seq::<Seq<char>>::empty() =~= text_lines(x));
}

/// The statements of the nodes, in order.
pub open spec fn node_lines(nodes: Seq<NodeView>) -> Seq<Seq<char>> {
    Seq::new(nodes.len(), |i: int| render_node(nodes[i]))
}

/// The statements of the edges, in order.
pub open spec fn edge_lines(edges: Seq<EdgeView>) -> Seq<Seq<char>> {
    Seq::new(edges.len(), |i: int| render_edge(edges[i]))
}

/// A calm text that begins with no white space, with `;` behind it, is a
/// line of its own that is kept whole.
pub proof fn lemma_statement_line(text: Seq<char>)
    requires
        is_calm(text),
        text.len() > 0,
        !is_whitespace(text[0]),
    ensures
        text_lines(text + ";"@) == seq![text + ";"@],
{
    lemma_marks();
    let line = text + ";"@;
    lemma_lacks_both(text, ";"@, '\n');
    lemma_lacks_both(text, ";"@, '/');
    lemma_no_comment(line);
    assert(line[0] == text[0]);
    assert(line.last() == ';');
    lemma_trim_none(line);
    lemma_lines_single(line);
}

/// The lines of the statements of plain nodes, written behind any text,
/// are the lines of that text and then the statements.
pub proof fn lemma_node_lines(prefix: Seq<char>, nodes: Seq<NodeView>)
    requires
        plain_nodes(nodes),
    ensures
        text_lines(prefix + render_nodes(nodes)) == text_lines(prefix) + node_lines(nodes),
    decreases nodes.len(),
{
    if nodes.len() == 0 {
        assert(prefix + render_nodes(nodes) =~= prefix);
        assert(text_lines(prefix) + node_lines(nodes) =~= text_lines(prefix));
    } else {
        let before = nodes.drop_last();
        let node = nodes.last();
        assert(plain_node(nodes[nodes.len() - 1]));
        assert forall|i: int| 0 <= i < before.len() implies plain_node(#[trigger] before[i]) by {
            assert(before[i] == nodes[i]);
        }
        lemma_node_lines(prefix, before);
        lemma_node_statement(node, no_statements());
        lemma_statement_line(node_text(node));
        assert(render_node(node) =~= node_text(node) + ";"@);
        let longer = prefix + render_nodes(before);
        assert(prefix + render_nodes(nodes) =~= longer + "\r\n"@ + render_node(node));
        lemma_lines_crlf(longer, render_node(node));
        assert(text_lines(prefix) + node_lines(before) + seq![render_node(node)] =~= text_lines(
            prefix,
        ) + node_lines(nodes));
    }
}

/// The lines of the statements of plain edges, written behind any text,
/// are the lines of that text and then the statements.
pub proof fn lemma_edge_lines(prefix: Seq<char>, edges: Seq<EdgeView>)
    requires
        plain_edges(edges),
    ensures
        text_lines(prefix + render_edges(edges)) == text_lines(prefix) + edge_lines(edges),
    decreases edges.len(),
{
    if edges.len() == 0 {
        assert(prefix + render_edges(edges) =~= prefix);
        assert(text_lines(prefix) + edge_lines(edges) =~= text_lines(prefix));
    } else {
        let before = edges.drop_last();
        let edge = edges.last();
        assert(plain_edge(edges[edges.len() - 1]));
        assert forall|i: int| 0 <= i < before.len() implies plain_edge(#[trigger] before[i]) by {
            assert(before[i] == edges[i]);
        }
        lemma_edge_lines(prefix, before);
        lemma_edge_statement(edge, no_statements());
        lemma_statement_line(edge_text(edge));
        assert(render_edge(edge) =~= edge_text(edge) + ";"@);
        let longer = prefix + render_edges(before);
        assert(prefix + render_edges(edges) =~= longer + "\r\n"@ + render_edge(edge));
        lemma_lines_crlf(longer, render_edge(edge));
        assert(text_lines(prefix) + edge_lines(before) + seq![render_edge(edge)] =~= text_lines(
            prefix,
        ) + edge_lines(edges));
    }
}

/// Lines joined by `;`, the last of them the statements of nodes: what was
/// joined before, and then the statements as they stand in a body.
pub proof fn lemma_join_nodes(lines: Seq<Seq<char>>, nodes: Seq<NodeView>)
    requires
        lines.len() > 0,
    ensures
        join(lines + node_lines(nodes), ";"@) == join(lines, ";"@) + node_chunk(nodes),
    decreases nodes.len(),
{
    if nodes.len() == 0 {
        assert(lines + node_lines(nodes) =~= lines);
        assert(join(lines, ";"@) + node_chunk(nodes) =~= join(lines, ";"@));
    } else {
        let before = nodes.drop_last();
        lemma_join_nodes(lines, before);
        let line = render_node(nodes.last());
        assert(lines + node_lines(nodes) =~= (lines + node_lines(before)).push(line));
        lemma_join_push(lines + node_lines(before), line, ";"@);
        assert(line =~= node_text(nodes.last()) + ";"@);
        assert(join(lines, ";"@) + node_chunk(before) + ";"@ + line =~= join(lines, ";"@)
            + node_chunk(nodes));
    }
}

/// Lines joined by `;`, the last of them the statements of edges: what was
/// joined before, and then the statements as they stand in a body.
pub proof fn lemma_join_edges(lines: Seq<Seq<char>>, edges: Seq<EdgeView>)
    requires
        lines.len() > 0,
    ensures
        join(lines + edge_lines(edges), ";"@) == join(lines, ";"@) + edge_chunk(edges),
    decreases edges.len(),
{
    if edges.len() == 0 {
        assert(lines + edge_lines(edges) =~= lines);
        assert(join(lines, ";"@) + edge_chunk(edges) =~= join(lines, ";"@));
    } else {
        let before = edges.drop_last();
        lemma_join_edges(lines, before);
        let line = render_edge(edges.last());
        assert(lines + edge_lines(edges) =~= (lines + edge_lines(before)).push(line));
        lemma_join_push(lines + edge_lines(before), line, ";"@);
        assert(line =~= edge_text(edges.last()) + ";"@);
        assert(join(lines, ";"@) + edge_chunk(before) + ";"@ + line =~= join(lines, ";"@)
            + edge_chunk(edges));
    }
}

/// A graph whose text reads back: a digraph without nested graphs, with a
/// name that holds no special character, and with plain nodes and edges.
pub open spec fn reads_back(g: GraphView) -> bool {
    &&& g.family == GraphType::Digraph
    &&& g.subgraphs.len() == 0
    &&& no_special(g.name)
    &&& plain_nodes(g.nodes)
    &&& plain_edges(g.edges)
}

/// The first line of the text of a digraph, without the white space at its
/// end.
pub open spec fn header(name: Seq<char>) -> Seq<char> {
    "digraph"@ + " "@ + name + " {"@
}

/// The text of a graph as it is read: the header, the statements each
/// between two `;`, and the end of the body.
pub open spec fn normal_text(g: GraphView) -> Seq<char> {
    header(g.name) + node_chunk(g.nodes) + edge_chunk(g.edges) + ";}"@
}

/// The header is a line of its own that loses the white space at its end.
proof fn lemma_header_line(name: Seq<char>)
    requires
        no_special(name),
    ensures
        text_lines(header(name) + " "@) == seq![header(name)],
        header(name).len() > 0,
        header(name)[0] == 'd',
{
    lemma_marks();
    reveal_strlit("digraph");
    reveal_strlit(" {");
    lemma_word(name);
    let line = header(name) + " "@;
    let front = "digraph"@ + " "@;
    lemma_lacks_both(front, name, '\n');
    lemma_lacks_both(front, name, '/');
    lemma_lacks_both(front + name, " {"@, '\n');
    lemma_lacks_both(front + name, " {"@, '/');
    lemma_lacks_both(header(name), " "@, '\n');
    lemma_lacks_both(header(name), " "@, '/');
    lemma_no_comment(line);
    assert(line =~= header(name).push(' '));
    lemma_trim_more(header(name), ' ');
    assert(header(name)[0] == 'd');
    assert(header(name).last() == '{');
    lemma_trim_none(header(name));
    lemma_lines_single(line);
}

/// The lines of the text of a graph that reads back: the header, the
/// statements of the nodes, those of the edges, and the closing brace.
proof fn lemma_lines_of_graph(g: GraphView)
    requires
        reads_back(g),
    ensures
        text_lines(render_graph(g)) == seq![header(g.name)] + node_lines(g.nodes) + edge_lines(
            g.edges,
        ) + seq!["}"@],
{
    lemma_marks();
    reveal_strlit(" { \r\n");
    reveal_strlit(" {");
    reveal_strlit("\r\n");
    reveal_strlit("\r\n\r\n");
    reveal_strlit("\r\n}");
    reveal_strlit("}");
    let first = header(g.name) + " "@;
    let opened = first + "\r\n"@;
    assert(g.family.keyword_text() + " "@ + g.name + " { \r\n"@ =~= opened);
    lemma_header_line(g.name);
    lemma_lines_break(first);
    let nodes_written = opened + render_nodes(g.nodes);
    lemma_node_lines(opened, g.nodes);
    let nodes_closed = nodes_written + "\r\n"@ + "\r\n"@;
    lemma_lines_break(nodes_written);
    lemma_lines_break(nodes_written + "\r\n"@);
    assert(nodes_written + "\r\n\r\n"@ =~= nodes_closed);
    let edges_written = nodes_closed + render_edges(g.edges);
    lemma_edge_lines(nodes_closed, g.edges);
    let edges_closed = edges_written + "\r\n"@ + "\r\n"@;
    lemma_lines_break(edges_written);
    lemma_lines_break(edges_written + "\r\n"@);
    assert(edges_written + "\r\n\r\n"@ =~= edges_closed);
    assert(render_first(g, g.subgraphs.len() as int) =~= Seq::empty());
    assert(render_graph(g) =~= edges_closed + "\r\n"@ + "}"@);
    lemma_lines_crlf(edges_closed, "}"@);
    lemma_no_comment("}"@);
    lemma_trim_none("}"@);
    lemma_lines_single("}"@);
}

/// The text of a graph that reads back is made ready for reading as its
/// header, its statements and the end of its body.
proof fn lemma_normal_text(g: GraphView)
    requires
        reads_back(g),
    ensures
        normalize(render_graph(g)) == normal_text(g),
{
    lemma_marks();
    reveal_strlit("}");
    reveal_strlit(";}");
    lemma_lines_of_graph(g);
    let first = seq![header(g.name)];
    assert(first.drop_last() =~= Seq::empty());
    assert(join(first, ";"@) == header(g.name));
    lemma_join_nodes(first, g.nodes);
    let with_nodes = first + node_lines(g.nodes);
    lemma_join_edges(with_nodes, g.edges);
    let with_edges = with_nodes + edge_lines(g.edges);
    lemma_join_push(with_edges, "}"@, ";"@);
    assert(with_edges + seq!["}"@] =~= with_edges.push("}"@));
    assert(header(g.name) + node_chunk(g.nodes) + edge_chunk(g.edges) + ";"@ + "}"@ =~= normal_text(
        g,
    ));
}

/// The text of a graph that reads back, made ready for reading, stands
/// for a digraph with the same nodes and the same edges.
proof fn lemma_read_normal_text(g: GraphView)
    requires
        reads_back(g),
    ensures
        parse_graph(normal_text(g), None) is Ok,
        ({
            let h = parse_graph(normal_text(g), None)->Ok_0;
            &&& h.family == GraphType::Digraph
            &&& h.subgraphs.len() == 0
            &&& identifiers(h.nodes) == identifiers(g.nodes)
            &&& endpoints(h.edges) == endpoints(g.edges)
        }),
{
    lemma_marks();
    lemma_keyword_letters();
    lemma_empty_line();
    reveal_strlit("digraph");
    reveal_strlit(" {");
    reveal_strlit(";}");
    lemma_word(g.name);
    let text = normal_text(g);
    let chunk = node_chunk(g.nodes) + edge_chunk(g.edges);
    let head = "digraph"@ + " "@ + g.name + " "@;
    let body = chunk.push(';') + seq!['}'];
    assert(text =~= head + seq!['{'] + body);
    // The text is not empty.
    assert(text[0] == 'd');
    assert(text.last() == '}');
    lemma_trim_none(text);
    // The header ends at the first opening brace.
    lemma_lacks_both("digraph"@, " "@, '{');
    lemma_lacks_both("digraph"@ + " "@, g.name, '{');
    lemma_lacks_both("digraph"@ + " "@ + g.name, " "@, '{');
    lemma_find_one_is_at(head, '{', body);
    assert(head.subrange(0, 7) =~= "digraph"@);
    assert(graph_type_of(head, None) == Ok::<_, Failure>(
        GraphType::Digraph,
    ));
    // The body holds no nested block.
    lemma_edge_chunk(g.nodes, g.edges);
    lemma_lacks_pattern(seq!['}'], subgraph_keyword(), 0);
    lemma_lacks_across(chunk, ';', seq!['}'], subgraph_keyword());
    assert(subgraph_positions(body, 0) == Ok::<_, Failure>(
        Seq::<(int, int)>::empty(),
    ));
    assert(parse_children(body, Seq::empty(), GraphType::Digraph) == Ok::<
        _,
        Failure,
    >(Seq::<GraphView>::empty()));
    assert(remove_spans(body, Seq::empty()) == body);
    let rest = chunk.push(';');
    assert(body.drop_last() =~= rest);
    assert(strip_closing_brace(body) == rest);
    assert(extract(body, GraphType::Digraph) == Ok::<_, Failure>(
        (Seq::<GraphView>::empty(), rest),
    ));
    // The statements.
    assert(rest =~= chunk + seq![';'] + Seq::<char>::empty());
    lemma_split_joined(chunk, Seq::empty(), ';');
    lemma_split_whole(Seq::empty(), ';');
    let pieces = split(rest, ";"@);
    assert(pieces =~= split(chunk, ";"@).push(Seq::empty()));
    assert(pieces.drop_last() =~= split(chunk, ";"@));
    assert(pieces.last() == Seq::<char>::empty());
    assert(classify(rest, GraphType::Digraph) == classify_pieces(
        split(chunk, ";"@),
        GraphType::Digraph,
    ));
}

/// Reading back what was written: the text of a digraph without nested
/// graphs, whose name holds no special character and whose nodes and edges
/// are plain, stands for a digraph with the same node identifiers and the
/// same pairs of edge ends, in the same order.
pub proof fn lemma_round_trip(g: GraphView)
    requires
        reads_back(g),
    ensures
        parse_document(render_graph(g)) is Ok,
        ({
            let h = parse_document(render_graph(g))->Ok_0;
            &&& h.family == GraphType::Digraph
            &&& h.subgraphs.len() == 0
            &&& identifiers(h.nodes) == identifiers(g.nodes)
            &&& endpoints(h.edges) == endpoints(g.edges)
        }),
{
    lemma_normal_text(g);
    lemma_read_normal_text(g);
}

} // verus!
