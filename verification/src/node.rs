//! Nodes: an identifier and its attributes.

use crate::attributs::{render_list, split_attributes, split_attributes_of, Attributs, Entries};
use crate::parsing_error::{Failure, ParsingError};
use crate::text::{chars_of, string_of, trim, trimmed};
use vstd::prelude::*;

verus! {

/// A node of a graph.
#[derive(PartialEq, Eq, Debug, Default)]
pub struct Node {
    pub identifier: String,
    pub attributes: Attributs,
}

/// What a `Node` stands for.
pub struct NodeView {
    pub identifier: Seq<char>,
    pub attributes: Option<Entries>,
}

/// The node that a statement declares: the identifier is what stands before
/// the first `[`, without the white space around it; the attributes are the
/// list in the bracket.
pub open spec fn parse_node(text: Seq<char>) -> Result<NodeView, Failure> {
    match split_attributes(text) {
        Ok((head, attributes)) => Ok(NodeView { identifier: trim(head), attributes }),
        Err(e) => Err(e),
    }
}

/// A node as a statement: its identifier, its attribute list and `;`.
pub open spec fn render_node(node: NodeView) -> Seq<char> {
    node.identifier + render_list(node.attributes) + ";"@
}

/// The views of the nodes of `v`, in order.
pub open spec fn node_views(v: Seq<Node>) -> Seq<NodeView> {
    Seq::new(v.len(), |i: int| v[i]@)
}

/// Adds copies of the nodes of `from` to the end of `into`.
pub fn extend_nodes(into: &mut Vec<Node>, from: &Vec<Node>)
    ensures
        node_views(final(into)@) == node_views(old(into)@) + node_views(from@),
{
    let ghost before = node_views(into@);
    let mut i: usize = 0;
    assert(node_views(from@).take(0) =~= Seq::empty());
    while i < from.len()
        invariant
            i <= from.len(),
            node_views(into@) == before + node_views(from@).take(i as int),
        decreases from.len() - i,
    {
        let ghost so_far = node_views(into@);
        let node = from[i].clone();
        into.push(node);
        assert(node_views(into@) =~= so_far.push(node@));
        assert(node_views(from@).take(i + 1) =~= node_views(from@).take(i as int).push(node@));
        i += 1;
    }
    assert(node_views(from@).take(i as int) =~= node_views(from@));
}

impl View for Node {
    type V = NodeView;

    open spec fn view(&self) -> NodeView {
        NodeView { identifier: self.identifier@, attributes: self.attributes@ }
    }
}

impl Clone for Node {
    fn clone(&self) -> (r: Node)
        ensures
            r@ == self@,
    {
        Node { identifier: self.identifier.clone(), attributes: self.attributes.clone() }
    }
}

impl Node {
    /// The node with the given identifier and attributes.
    pub fn new(identifier: &str, attributes: Attributs) -> (r: Node)
        ensures
            r@ == (NodeView { identifier: identifier@, attributes: attributes@ }),
    {
        Node { identifier: String::from_str(identifier), attributes }
    }

    /// Reads a node declaration `identifier` or `identifier[key=value,..]`.
    pub fn try_from(value: &String) -> (r: Result<Node, ParsingError>)
        ensures
            match r {
                Ok(node) => parse_node(value@) == Ok::<_, Failure>(node@),
                Err(e) => parse_node(value@) == Err::<NodeView, _>(e@),
            },
    {
        let text = chars_of(value.as_str());
        match split_attributes_of(&text) {
            Ok((head, attributes)) => Ok(
                Node { identifier: string_of(&trimmed(&head)), attributes },
            ),
            Err(e) => Err(e),
        }
    }

    /// The node as a statement.
    pub fn to_string(&self) -> (r: String)
        ensures
            r@ == render_node(self@),
    {
        let mut content = self.identifier.clone();
        let list = self.attributes.to_string();
        content.append(list.as_str());
        content.append(";");
        content
    }
}

} // verus!
