//! One attribute: a key and its value.

use crate::parsing_error::{Failure, ParsingError};
use crate::text::{chars_of, split_once, split_once_in, string_of, trim, trimmed};
use vstd::prelude::*;

verus! {

/// A key and the value given to it.
#[derive(PartialEq, Eq, Debug, Clone)]
pub struct Attribut {
    pub key: String,
    pub value: String,
}

/// The key and the value of the assignment `text`: what stands before and
/// after its first `=`, each without the white space around it. A text
/// without `=` is refused, and the failure carries it.
pub open spec fn key_value(text: Seq<char>) -> Result<(Seq<char>, Seq<char>), Failure> {
    match split_once(text, "="@) {
        Some((key, value)) => Ok((trim(key), trim(value))),
        None => Err(Failure::MalformedAttribute(text)),
    }
}

/// Reads a key and a value from an assignment `key=value`.
pub fn as_key_value(value: &str) -> (r: Result<(String, String), ParsingError>)
    ensures
        match r {
            Ok((k, v)) => key_value(value@) == Ok::<_, Failure>((k@, v@)),
            Err(e) => key_value(value@) == Err::<(Seq<char>, Seq<char>), _>(e@),
        },
{
    let text = chars_of(value);
    let equals = chars_of("=");
    match split_once_in(&text, &equals) {
        Some((left, right)) => Ok((string_of(&trimmed(&left)), string_of(&trimmed(&right)))),
        None => Err(ParsingError::MalformedAttribute(String::from_str(value))),
    }
}

impl Attribut {
    /// The key and the value as a pair of character sequences.
    pub open spec fn pair(&self) -> (Seq<char>, Seq<char>) {
        (self.key@, self.value@)
    }

    /// Reads an attribute from an assignment `key=value`.
    pub fn try_from(value: &str) -> (r: Result<Attribut, ParsingError>)
        ensures
            match r {
                Ok(a) => key_value(value@) == Ok::<_, Failure>(a.pair()),
                Err(e) => key_value(value@) == Err::<(Seq<char>, Seq<char>), _>(e@),
            },
    {
        match as_key_value(value) {
            Ok((key, value)) => Ok(Attribut { key, value }),
            Err(e) => Err(e),
        }
    }

    /// The attribute as `key:value`.
    pub fn to_string(&self) -> (r: String)
        ensures
            r@ == self.key@ + ":"@ + self.value@,
    {
        let mut r = String::from_str(self.key.as_str());
        r.append(":");
        r.append(self.value.as_str());
        r
    }
}

} // verus!
