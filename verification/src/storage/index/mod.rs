//! Index structures: MinMax, Bloom filters, inverted index.

pub mod bloom;
pub mod inverted;
pub mod minmax;
