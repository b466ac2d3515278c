//! The statements of a graph body: edges, nodes and attribute assignments.

use crate::attribut::{as_key_value, key_value};
use crate::attributs::{collect, entry_views, put, Attributs, Entries};
use crate::edge::{edge_views, parse_edge, Edge, EdgeView};
use crate::graph_type::GraphType;
use crate::node::{node_views, parse_node, Node, NodeView};
use crate::parsing_error::{Failure, ParsingError};
use crate::text::{
    chars_of, contains, contains_in, same_text, split, split_in, split_once, split_once_in,
    string_of, trim, trimmed, views,
};
use vstd::prelude::*;

verus! {

/// What the statements of one graph body declare.
#[derive(Debug)]
pub struct Statements {
    /// The nodes, in the order of their declarations.
    pub nodes: Vec<Node>,
    /// The edges, in the order of their statements.
    pub edges: Vec<Edge>,
    /// The attributes of the graph itself.
    pub attributs: Attributs,
    /// The attributes that the statement `node[..]` gives to every node.
    pub default_node_attribute: Attributs,
    /// The attributes that the statement `edge[..]` gives to every edge.
    pub default_edge_attribute: Attributs,
}

/// What `Statements` stand for.
pub struct StatementsView {
    pub nodes: Seq<NodeView>,
    pub edges: Seq<EdgeView>,
    pub attributs: Entries,
    pub default_node_attribute: Option<Entries>,
    pub default_edge_attribute: Option<Entries>,
}

impl View for Statements {
    type V = StatementsView;

    open spec fn view(&self) -> StatementsView {
        StatementsView {
            nodes: node_views(self.nodes@),
            edges: edge_views(self.edges@),
            attributs: self.attributs@.unwrap_or(Seq::empty()),
            default_node_attribute: self.default_node_attribute@,
            default_edge_attribute: self.default_edge_attribute@,
        }
    }
}

/// A line without its comment, which begins at the first `//`, and without
/// the white space around what is left.
pub open spec fn line_content(line: Seq<char>) -> Seq<char> {
    match split_once(line, "//"@) {
        Some((before, _)) => trim(before),
        None => trim(line),
    }
}

/// A body in which nothing was declared.
pub open spec fn no_statements() -> StatementsView {
    StatementsView {
        nodes: Seq::empty(),
        edges: Seq::empty(),
        attributs: Seq::empty(),
        default_node_attribute: None,
        default_edge_attribute: None,
    }
}

/// `acc` after the statement `line` of a graph of the given family. A
/// statement that holds the relation token of the family is an edge. Any
/// other that holds `[`, or no `=`, declares a node; the identifiers `node`
/// and `edge` declare none and set the default attributes instead. What is
/// left is an assignment to an attribute of the graph.
pub open spec fn add_statement(acc: StatementsView, line: Seq<char>, family: GraphType) -> Result<
    StatementsView,
    Failure,
> {
    if contains(line, family.symbol_text()) {
        match parse_edge(line, family.symbol_text()) {
            Ok(edge) => Ok(StatementsView { edges: acc.edges.push(edge), ..acc }),
            Err(e) => Err(e),
        }
    } else if contains(line, "["@) || !contains(line, "="@) {
        match parse_node(line) {
            Ok(node) => if node.identifier == "node"@ {
                Ok(StatementsView { default_node_attribute: node.attributes, ..acc })
            } else if node.identifier == "edge"@ {
                Ok(StatementsView { default_edge_attribute: node.attributes, ..acc })
            } else {
                Ok(StatementsView { nodes: acc.nodes.push(node), ..acc })
            },
            Err(e) => Err(e),
        }
    } else {
        match key_value(line) {
            Ok((key, value)) => Ok(
                StatementsView { attributs: put(acc.attributs, key, value), ..acc },
            ),
            Err(e) => Err(e),
        }
    }
}

/// What the pieces of a body declare, read from left to right. Each piece
/// is cleaned as a line is; a piece of which nothing is left is passed
/// over. The first statement that is refused gives the failure.
pub open spec fn classify_pieces(pieces: Seq<Seq<char>>, family: GraphType) -> Result<
    StatementsView,
    Failure,
>
    decreases pieces.len(),
{
    if pieces.len() == 0 {
        Ok(no_statements())
    } else {
        match classify_pieces(pieces.drop_last(), family) {
            Err(e) => Err(e),
            Ok(acc) => {
                let line = line_content(pieces.last());
                if line.len() == 0 {
                    Ok(acc)
                } else {
                    add_statement(acc, line, family)
                }
            },
        }
    }
}

/// What a body declares: its statements are the pieces between the `;`.
pub open spec fn classify(body: Seq<char>, family: GraphType) -> Result<StatementsView, Failure> {
    classify_pieces(split(body, ";"@), family)
}

/// A failure among the first `n` pieces is the failure of the whole body.
proof fn lemma_failure_stays(pieces: Seq<Seq<char>>, family: GraphType, n: int)
    requires
        0 <= n <= pieces.len(),
        classify_pieces(pieces.take(n), family) is Err,
    ensures
        classify_pieces(pieces, family) == classify_pieces(pieces.take(n), family),
    decreases pieces.len() - n,
{
    if n < pieces.len() {
        assert(pieces.take(n + 1).drop_last() =~= pieces.take(n));
        lemma_failure_stays(pieces, family, n + 1);
    } else {
        assert(pieces.take(n) =~= pieces);
    }
}

/// Removes the comment of a line and the white space around what is left.
pub fn cleaned(line: &Vec<char>) -> (r: Vec<char>)
    ensures
        r@ == line_content(line@),
{
    match split_once_in(line, &chars_of("//")) {
        Some((before, _)) => trimmed(&before),
        None => trimmed(line),
    }
}

/// Removes the comment of a line, which begins at the first `//`, and the
/// white space around what is left.
pub fn clean_line(line: &str) -> (r: String)
    ensures
        r@ == line_content(line@),
{
    string_of(&cleaned(&chars_of(line)))
}

/// Reads the statements of a body, which `;` separates, for a graph of the
/// given family.
pub fn classify_statements(body: &str, family: GraphType) -> (r: Result<Statements, ParsingError>)
    ensures
        match r {
            Ok(found) => classify(body@, family) == Ok::<_, Failure>(found@) && found.attributs@
                is Some,
            Err(e) => classify(body@, family) == Err::<StatementsView, _>(e@),
        },
{
    let pieces = split_in(&chars_of(body), &chars_of(";"));
    let symbol = family.symbol();
    let symbol_chars = chars_of(symbol.as_str());
    let mut nodes: Vec<Node> = Vec::new();
    let mut edges: Vec<Edge> = Vec::new();
    let mut pairs: Vec<(String, String)> = Vec::new();
    let mut default_node_attribute = Attributs::default();
    let mut default_edge_attribute = Attributs::default();
    let ghost all = views(pieces@);
    let ghost mut acc = no_statements();
    let mut i: usize = 0;
    proof {
        assert(all.take(0) =~= Seq::empty());
        assert(node_views(nodes@) =~= Seq::empty());
        assert(edge_views(edges@) =~= Seq::empty());
        assert(entry_views(pairs@) =~= Seq::empty());
    }
    while i < pieces.len()
        invariant
            i <= pieces.len(),
            all == views(pieces@),
            all == split(body@, ";"@),
            symbol@ == family.symbol_text(),
            symbol_chars@ == family.symbol_text(),
            classify_pieces(all.take(i as int), family) == Ok::<_, Failure>(acc),
            acc.nodes == node_views(nodes@),
            acc.edges == edge_views(edges@),
            acc.attributs == collect(entry_views(pairs@)),
            acc.default_node_attribute == default_node_attribute@,
            acc.default_edge_attribute == default_edge_attribute@,
        decreases pieces.len() - i,
    {
        proof {
            assert(all.take(i + 1).drop_last() =~= all.take(i as int));
            assert(all.take(i + 1).last() == pieces@[i as int]@);
        }
        let line = cleaned(&pieces[i]);
        if line.len() > 0 {
            let text = string_of(&line);
            if contains_in(&line, &symbol_chars) {
                match Edge::try_from((text.as_str(), symbol.as_str())) {
                    Ok(edge) => {
                        proof {
                            acc = StatementsView { edges: acc.edges.push(edge@), ..acc };
                        }
                        edges.push(edge);
                        assert(edge_views(edges@) =~= acc.edges);
                    },
                    Err(e) => {
                        proof {
                            lemma_failure_stays(all, family, i + 1);
                        }
                        return Err(e);
                    },
                }
            } else if contains_in(&line, &chars_of("[")) || !contains_in(&line, &chars_of("=")) {
                match Node::try_from(&text) {
                    Ok(node) => {
                        if same_text(node.identifier.as_str(), "node") {
                            proof {
                                acc = StatementsView {
                                    default_node_attribute: node@.attributes,
                                    ..acc
                                };
                            }
                            default_node_attribute = node.attributes;
                        } else if same_text(node.identifier.as_str(), "edge") {
                            proof {
                                acc = StatementsView {
                                    default_edge_attribute: node@.attributes,
                                    ..acc
                                };
                            }
                            default_edge_attribute = node.attributes;
                        } else {
                            proof {
                                acc = StatementsView { nodes: acc.nodes.push(node@), ..acc };
                            }
                            nodes.push(node);
                            assert(node_views(nodes@) =~= acc.nodes);
                        }
                    },
                    Err(e) => {
                        proof {
                            lemma_failure_stays(all, family, i + 1);
                        }
                        return Err(e);
                    },
                }
            } else {
                match as_key_value(text.as_str()) {
                    Ok((key, value)) => {
                        proof {
                            acc = StatementsView {
                                attributs: put(acc.attributs, key@, value@),
                                ..acc
                            };
                            let ghost before = entry_views(pairs@);
                            assert(before.push((key@, value@)).drop_last() =~= before);
                        }
                        let ghost before = entry_views(pairs@);
                        pairs.push((key, value));
                        assert(entry_views(pairs@) =~= before.push((key@, value@)));
                    },
                    Err(e) => {
                        proof {
                            lemma_failure_stays(all, family, i + 1);
                        }
                        return Err(e);
                    },
                }
            }
        }
        i += 1;
    }
    assert(all.take(i as int) =~= all);
    Ok(
        Statements {
            nodes,
            edges,
            attributs: Attributs::from(pairs),
            default_node_attribute,
            default_edge_attribute,
        },
    )
}

} // verus!
