//! The sorted string table: blocks of delta-encoded keys next to their values.

pub mod block_reader;
pub mod compression;
pub mod delta;
pub mod roundtrip;
pub mod value;
pub mod vint;
pub mod writing;
