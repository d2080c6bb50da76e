//! The bit-packed scalar values of the format.

use vstd::prelude::*;
use vstd::string::*;

pub mod action;
pub mod board;
pub mod card;
pub mod version;

verus! {

/// How a read from an in-memory byte source can fail.
#[derive(Debug, Clone, Copy, PartialEq, Eq, Structural)]
pub enum ErrorKind {
    /// The source ran out before the value was complete.
    UnexpectedEof,
}

impl ErrorKind {
    /// The name of the kind.
    pub open spec fn name(&self) -> Seq<char> {
        match *self {
            ErrorKind::UnexpectedEof => "UnexpectedEof"@,
        }
    }

    /// What an error of this kind says.
    pub open spec fn message(&self) -> Seq<char> {
        "IO error during serialization/deserialization: "@ + self.name()
    }

    /// The error as a sentence.
    pub fn to_string(&self) -> (r: String)
        ensures
            r@ == self.message(),
    {
        let mut r = String::from_str("IO error during serialization/deserialization: ");
        match *self {
            ErrorKind::UnexpectedEof => r.append("UnexpectedEof"),
        }
        r
    }
}

} // verus!
