//! What callers can rely on, stated on calls alone: each law speaks of what functions
//! were given and what they returned.

pub mod blocks;
pub mod bytes;
pub mod columns;
pub mod listings;
pub mod numbers;
pub mod opening;
pub mod reading;
pub mod statistics;
pub mod streams;
pub mod values;
