//! A small parallel content-search library: scan file contents line by line
//! for pattern matches and aggregate per-file, per-line match locations.
//!
//! The crate holds the verified core of the search pipeline: the data model
//! for matches, the per-file scan (size and binary filters, line splitting,
//! match collection), the argument grammar, and the text styling helpers.
//! File and directory I/O, thread plumbing and terminal drawing live in the
//! surrounding application, which feeds this library plain values.

pub mod args;
pub mod painter;
pub mod pattern;
pub mod printer;
pub mod schemas;
pub mod text;
pub mod worker;
