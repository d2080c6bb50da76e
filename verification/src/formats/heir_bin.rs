//! The binary format: a header, then each table with its seating and its
//! events, every integer little-endian and of fixed width.
//!
//! ```text
//! Header:   "HEIR" | format version (1) | session id (4) | table count (1)
//! Table:    table id (4) | location, UTF-8, ended by a zero byte
//!           table size (1) | player count (1) | players: id (4), stack (4)
//!           event count (4) | events: tag (1), then the body
//! Hand (0): hand id (4) | button (1)
//!           pair count (1) | pairs: one byte per card
//!           action count (1) | actions: kind (1), bet size (4)
//!           timestamp (8) | board (4)
//! StackUpdate (1): seat (1) | stack (4)
//! SeatUpdate (2):  seat (1) | 0, or 1 and then id (4), stack (4)
//! ```
//!
//! `layout` says which bytes a session becomes, `grammar` which session a
//! run of bytes spells, and `encode` and `decode` do the work. `laws` shows
//! that what was written reads back, and `exact` that nothing else reads.

pub mod decode;
pub mod encode;
pub mod exact;
pub mod grammar;
pub mod laws;
pub mod layout;
