//! Link-graph indexing for collaboratively authored notes.
//!
//! Notes are immutable, content-addressed records. Discovery goes through
//! anchors keyed by strings, and references between notes are kept as pairs of
//! tagged edges (`links_to` from the referencing note, `linked_from` back to it).
//! The host store is reached from outside this library: the functions here take
//! what was read from the store as plain values and say which edges to write.

pub mod tag;
pub mod extract;
pub mod model;
pub mod title_map;
pub mod backlinks;
pub mod sync;
pub mod lifecycle;
pub mod laws;
pub mod listing;
