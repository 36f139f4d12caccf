//! Encoding identifiers for column blocks.
use vstd::prelude::*;

verus! {

pub const RAW: u8 = 0;
pub const DELTA_I64: u8 = 1;
pub const DELTA_DELTA_I64: u8 = 2;
pub const GORILLA_DELTA: u8 = 3;
pub const DICTIONARY: u8 = 4;

} // verus!
