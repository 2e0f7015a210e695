//! A zero-copy cursor over a borrowed byte region.
//!
//! `reader::BufferReader` wraps a caller-owned byte slice and a read
//! position, and hands out bounds-checked sub-slices of the region without
//! copying. `plain::PlainData` gives typed, little-endian access to the
//! bytes for plain integer types. `laws` states the properties that relate
//! the operations to one another.

pub mod laws;
pub mod plain;
pub mod reader;
