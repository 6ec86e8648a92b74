//! Building blocks shared by the sstable and the columnar formats.

pub mod counting_writer;
pub mod decimal;
pub mod error;
pub mod file_slice;
pub mod le;
pub mod non_zero;
pub mod owned_bytes;
pub mod utf8;
pub mod vint;
