//! The encodings of a session.

pub mod heir_bin;
