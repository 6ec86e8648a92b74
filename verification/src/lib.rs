//! Verified codecs for the block-oriented file formats of a search index: the
//! sorted string table that stores delta-encoded keys next to their values, and
//! the columnar file that is laid out around such a table.

pub mod columnar;
pub mod common;
pub mod laws;
pub mod sstable;
