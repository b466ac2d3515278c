//! The relation that an edge states between its two ends.

use crate::parsing_error::{Failure, ParsingError};
use crate::text::same_text;
use vstd::prelude::*;

verus! {

/// Whether an edge leads from one end to the other, or joins the two.
#[derive(PartialEq, Eq, Clone, Copy, Debug, Structural)]
pub enum TypeRelation {
    Oriente,
    NonOriente,
}

impl TypeRelation {
    /// The token of the relation: `->` with a direction, `--` without.
    pub open spec fn token_text(self) -> Seq<char> {
        match self {
            TypeRelation::Oriente => "->"@,
            TypeRelation::NonOriente => "--"@,
        }
    }

    /// The relation that a token names, and the failure for any other text.
    pub open spec fn from_token(token: Seq<char>) -> Result<TypeRelation, Failure> {
        if token == "->"@ {
            Ok(TypeRelation::Oriente)
        } else if token == "--"@ {
            Ok(TypeRelation::NonOriente)
        } else {
            Err(Failure::MalformedEdge(token))
        }
    }

    /// The token of the relation.
    pub fn to_string(&self) -> (r: String)
        ensures
            r@ == self.token_text(),
    {
        match self {
            TypeRelation::Oriente => String::from_str("->"),
            TypeRelation::NonOriente => String::from_str("--"),
        }
    }

    /// Reads a relation from its token: `->` or `--`, and nothing else.
    pub fn try_from(value: &str) -> (r: Result<TypeRelation, ParsingError>)
        ensures
            match r {
                Ok(t) => TypeRelation::from_token(value@) == Ok::<TypeRelation, Failure>(t),
                Err(e) => TypeRelation::from_token(value@) == Err::<TypeRelation, Failure>(e@),
            },
    {
        if same_text(value, "->") {
            Ok(TypeRelation::Oriente)
        } else if same_text(value, "--") {
            Ok(TypeRelation::NonOriente)
        } else {
            Err(ParsingError::MalformedEdge(String::from_str(value)))
        }
    }
}

} // verus!
