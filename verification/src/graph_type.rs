//! The two families of graph and the edge token each of them uses.

use crate::parsing_error::{Failure, ParsingError};
use crate::text::same_text;
use vstd::prelude::*;

verus! {

/// Whether the edges of a graph have a direction.
#[derive(PartialEq, Eq, Clone, Copy, Debug, Structural)]
pub enum GraphType {
    Graph,
    Digraph,
}

impl GraphType {
    /// The token that stands between the two ends of an edge: `--` in a
    /// graph, `->` in a digraph.
    pub open spec fn symbol_text(self) -> Seq<char> {
        match self {
            GraphType::Graph => "--"@,
            GraphType::Digraph => "->"@,
        }
    }

    /// The keyword that opens a graph of this family.
    pub open spec fn keyword_text(self) -> Seq<char> {
        match self {
            GraphType::Graph => "graph"@,
            GraphType::Digraph => "digraph"@,
        }
    }

    /// The family that a keyword names, and the failure for any other word.
    pub open spec fn from_keyword(word: Seq<char>) -> Result<GraphType, Failure> {
        if word == "digraph"@ {
            Ok(GraphType::Digraph)
        } else if word == "graph"@ {
            Ok(GraphType::Graph)
        } else {
            Err(Failure::UnknownGraphKeyword(word))
        }
    }

    /// The token that stands between the two ends of an edge.
    pub fn symbol(&self) -> (r: String)
        ensures
            r@ == self.symbol_text(),
    {
        match self {
            GraphType::Graph => String::from_str("--"),
            GraphType::Digraph => String::from_str("->"),
        }
    }

    /// The keyword that opens a graph of this family.
    pub fn to_string(&self) -> (r: String)
        ensures
            r@ == self.keyword_text(),
    {
        match self {
            GraphType::Graph => String::from_str("graph"),
            GraphType::Digraph => String::from_str("digraph"),
        }
    }

    /// Reads a family from its keyword: `digraph` or `graph`, and nothing
    /// else.
    pub fn try_from(value: &str) -> (r: Result<GraphType, ParsingError>)
        ensures
            match r {
                Ok(t) => GraphType::from_keyword(value@) == Ok::<GraphType, Failure>(t),
                Err(e) => GraphType::from_keyword(value@) == Err::<GraphType, Failure>(e@),
            },
    {
        if same_text(value, "digraph") {
            Ok(GraphType::Digraph)
        } else if same_text(value, "graph") {
            Ok(GraphType::Graph)
        } else {
            Err(ParsingError::UnknownGraphKeyword(String::from_str(value)))
        }
    }
}

} // verus!
