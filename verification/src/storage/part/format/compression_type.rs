//! Compression identifiers for column blocks.
use vstd::prelude::*;

verus! {

pub const NONE: u8 = 0;
pub const LZ4: u8 = 1;
pub const ZSTD: u8 = 2;

} // verus!
