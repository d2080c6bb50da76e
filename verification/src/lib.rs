//! A compact, versioned binary encoding for poker table session history.
//!
//! `types` holds the bit-packed scalars, `model` the document tree built from
//! them, `wire` the fixed-width integer layout, and `formats` the codec that
//! turns a whole session into bytes and back. `convert` is what other
//! encodings of a session implement, `sample` a session to try one on, and
//! `text` writes the numbers in the messages of the errors.

pub mod convert;
pub mod formats;
pub mod model;
pub mod sample;
pub mod text;
pub mod types;
pub mod wire;
