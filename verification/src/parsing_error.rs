//! The ways in which a text can fail to be a graph.

use vstd::prelude::*;

verus! {

/// Why a text was refused. Where a fragment of the text is to blame, the
/// error carries it.
#[derive(Debug)]
pub enum ParsingError {
    /// The header is not followed by an opening brace.
    NoBodyFound,
    /// The header begins with none of `digraph`, `graph` and `subgraph`;
    /// carries the header.
    UnknownGraphKeyword(String),
    /// A `subgraph` block stands where no graph encloses it.
    MissingParentType,
    /// A closing brace comes before any opening one.
    UnbalancedBraces,
    /// The text ends before the first opening brace is closed, or holds none.
    UnterminatedBlock,
    /// An edge statement without its relation token, or with a token that is
    /// no relation; carries the statement or the token.
    MalformedEdge(String),
    /// A segment of an attribute list without `=`; carries the segment.
    MalformedAttribute(String),
    /// A file could not be read or written; carries its path.
    IoFailure(String),
}

/// What a `ParsingError` stands for, with texts as sequences of characters.
pub enum Failure {
    NoBodyFound,
    UnknownGraphKeyword(Seq<char>),
    MissingParentType,
    UnbalancedBraces,
    UnterminatedBlock,
    MalformedEdge(Seq<char>),
    MalformedAttribute(Seq<char>),
    IoFailure(Seq<char>),
}

impl View for ParsingError {
    type V = Failure;

    open spec fn view(&self) -> Failure {
        match self {
            ParsingError::NoBodyFound => Failure::NoBodyFound,
            ParsingError::UnknownGraphKeyword(s) => Failure::UnknownGraphKeyword(s@),
            ParsingError::MissingParentType => Failure::MissingParentType,
            ParsingError::UnbalancedBraces => Failure::UnbalancedBraces,
            ParsingError::UnterminatedBlock => Failure::UnterminatedBlock,
            ParsingError::MalformedEdge(s) => Failure::MalformedEdge(s@),
            ParsingError::MalformedAttribute(s) => Failure::MalformedAttribute(s@),
            ParsingError::IoFailure(s) => Failure::IoFailure(s@),
        }
    }
}

/// The words that every message begins with.
pub open spec fn message_prefix() -> Seq<char> {
    "An error occured: "@
}

/// The message that describes a failure.
pub open spec fn message(f: Failure) -> Seq<char> {
    message_prefix() + match f {
        Failure::NoBodyFound => "No body found"@,
        Failure::UnknownGraphKeyword(s) => "No graph type detected: "@ + s,
        Failure::MissingParentType => "Should have a parent"@,
        Failure::UnbalancedBraces => "Too many }"@,
        Failure::UnterminatedBlock => "Missing ending }"@,
        Failure::MalformedEdge(s) => "Could not parse Edge: "@ + s,
        Failure::MalformedAttribute(s) => "Could not parse Attribute: "@ + s,
        Failure::IoFailure(s) => "Could not access file: "@ + s,
    }
}

impl ParsingError {
    /// The message that describes this error.
    pub fn to_string(&self) -> (r: String)
        ensures
            r@ == message(self@),
    {
        let head = String::from_str("An error occured: ");
        match self {
            ParsingError::NoBodyFound => head.concat("No body found"),
            ParsingError::UnknownGraphKeyword(s) => head.concat("No graph type detected: ").concat(
                s.as_str(),
            ),
            ParsingError::MissingParentType => head.concat("Should have a parent"),
            ParsingError::UnbalancedBraces => head.concat("Too many }"),
            ParsingError::UnterminatedBlock => head.concat("Missing ending }"),
            ParsingError::MalformedEdge(s) => head.concat("Could not parse Edge: ").concat(
                s.as_str(),
            ),
            ParsingError::MalformedAttribute(s) => head.concat(
                "Could not parse Attribute: ",
            ).concat(s.as_str()),
            ParsingError::IoFailure(s) => head.concat("Could not access file: ").concat(
                s.as_str(),
            ),
        }
    }
}

} // verus!
