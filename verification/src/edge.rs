//! Edges: two node identifiers, the relation between them and attributes.

use crate::attributs::{render_list, split_attributes, split_attributes_of, Attributs, Entries};
use crate::parsing_error::{Failure, ParsingError};
use crate::text::{chars_of, split_once, split_once_in, string_of, trim, trimmed};
use crate::type_relation::TypeRelation;
use vstd::prelude::*;

verus! {

/// An edge of a graph. The two ends are named, not held: nothing says that
/// a node with either identifier was declared.
#[derive(PartialEq, Eq, Debug)]
pub struct Edge {
    pub node_out: String,
    pub node_in: String,
    pub relation: TypeRelation,
    pub attributs: Attributs,
}

/// What an `Edge` stands for.
pub struct EdgeView {
    pub node_out: Seq<char>,
    pub node_in: Seq<char>,
    pub relation: TypeRelation,
    pub attributs: Option<Entries>,
}

/// The edge that a statement states with the relation token `token`. The
/// statement is parted at the first occurrence of the token: the source is
/// what stands before it; the target is what follows it up to the first
/// `[`; the attributes are the list in the bracket. Source and target lose
/// the white space around them. A statement without the token is refused,
/// and so is a token that names no relation.
pub open spec fn parse_edge(text: Seq<char>, token: Seq<char>) -> Result<EdgeView, Failure> {
    match split_once(text, token) {
        None => Err(Failure::MalformedEdge(text)),
        Some((left, right)) => match TypeRelation::from_token(token) {
            Err(e) => Err(e),
            Ok(relation) => match split_attributes(right) {
                Err(e) => Err(e),
                Ok((target, attributs)) => Ok(
                    EdgeView { node_out: trim(left), node_in: trim(target), relation, attributs },
                ),
            },
        },
    }
}

/// An edge as a statement. The token written is always `->`, whatever the
/// relation of the edge: the text of an edge without direction reads back
/// as an edge only inside a digraph.
pub open spec fn render_edge(edge: EdgeView) -> Seq<char> {
    edge.node_out + " "@ + "->"@ + " "@ + edge.node_in + " "@ + render_list(edge.attributs) + ";"@
}

/// The views of the edges of `v`, in order.
pub open spec fn edge_views(v: Seq<Edge>) -> Seq<EdgeView> {
    Seq::new(v.len(), |i: int| v[i]@)
}

/// Adds copies of the edges of `from` to the end of `into`.
pub fn extend_edges(into: &mut Vec<Edge>, from: &Vec<Edge>)
    ensures
        edge_views(final(into)@) == edge_views(old(into)@) + edge_views(from@),
{
    let ghost before = edge_views(into@);
    let mut i: usize = 0;
    assert(edge_views(from@).take(0) =~= Seq::empty());
    while i < from.len()
        invariant
            i <= from.len(),
            edge_views(into@) == before + edge_views(from@).take(i as int),
        decreases from.len() - i,
    {
        let ghost so_far = edge_views(into@);
        let edge = from[i].clone();
        into.push(edge);
        assert(edge_views(into@) =~= so_far.push(edge@));
        assert(edge_views(from@).take(i + 1) =~= edge_views(from@).take(i as int).push(edge@));
        i += 1;
    }
    assert(edge_views(from@).take(i as int) =~= edge_views(from@));
}

impl View for Edge {
    type V = EdgeView;

    open spec fn view(&self) -> EdgeView {
        EdgeView {
            node_out: self.node_out@,
            node_in: self.node_in@,
            relation: self.relation,
            attributs: self.attributs@,
        }
    }
}

impl Clone for Edge {
    fn clone(&self) -> (r: Edge)
        ensures
            r@ == self@,
    {
        Edge {
            node_out: self.node_out.clone(),
            node_in: self.node_in.clone(),
            relation: self.relation,
            attributs: self.attributs.clone(),
        }
    }
}

impl Edge {
    /// Reads an edge from a statement and the relation token of the graph
    /// that holds it: `source token target` or
    /// `source token target[key=value,..]`.
    pub fn try_from(value: (&str, &str)) -> (r: Result<Edge, ParsingError>)
        ensures
            match r {
                Ok(edge) => parse_edge(value.0@, value.1@) == Ok::<_, Failure>(edge@),
                Err(e) => parse_edge(value.0@, value.1@) == Err::<EdgeView, _>(e@),
            },
    {
        let text = chars_of(value.0);
        let token = chars_of(value.1);
        match split_once_in(&text, &token) {
            None => Err(ParsingError::MalformedEdge(String::from_str(value.0))),
            Some((left, right)) => match TypeRelation::try_from(value.1) {
                Err(e) => Err(e),
                Ok(relation) => match split_attributes_of(&right) {
                    Err(e) => Err(e),
                    Ok((target, attributs)) => Ok(
                        Edge {
                            node_out: string_of(&trimmed(&left)),
                            node_in: string_of(&trimmed(&target)),
                            relation,
                            attributs,
                        },
                    ),
                },
            },
        }
    }

    /// The edge as a statement, with the token `->`.
    pub fn to_string(&self) -> (r: String)
        ensures
            r@ == render_edge(self@),
    {
        let mut content = self.node_out.clone();
        content.append(" ");
        content.append("->");
        content.append(" ");
        content.append(self.node_in.as_str());
        content.append(" ");
        let list = self.attributs.to_string();
        content.append(list.as_str());
        content.append(";");
        content
    }
}

} // verus!
