//! A minimal columnar container: typed, null-aware, append-only arrays, each
//! built by a matching builder and read back slot by slot.

pub mod array;
pub mod bitmap;
