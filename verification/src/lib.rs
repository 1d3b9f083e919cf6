//! A small file-catalog library: it compiles wildcard patterns into anchored
//! regular expressions, aggregates directory sizes, keeps a deduplicated
//! catalog of scanned filesystem entries, and ranks catalog entries by a
//! similarity score.
//!
//! Filesystem walking, durable storage, and the floating-point similarity
//! arithmetic live outside the library; the library works on the plain values
//! they produce.

pub mod glob;
pub mod rank;
pub mod size;
pub mod store;
