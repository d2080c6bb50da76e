//! What an encoding of a session offers: to be made from one, and to give
//! one back.

use crate::model::Session;
use vstd::prelude::*;

verus! {

/// An encoding that can be made from a session.
pub trait FromSession: Sized {
    fn from_session(session: &Session) -> Self;
}

/// An encoding that holds a session and can give it back.
pub trait ToSession {
    fn to_session(&self) -> Session;
}

} // verus!
