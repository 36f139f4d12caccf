//! Column type identifiers (match the ColumnType enum of the schema).
use vstd::prelude::*;

verus! {

pub const TIMESTAMP: u8 = 0;
pub const TAG_STR: u8 = 1;
pub const FIELD_FLOAT: u8 = 2;
pub const FIELD_INT: u8 = 3;
pub const FIELD_BOOL: u8 = 4;
pub const FIELD_STR: u8 = 5;

} // verus!
