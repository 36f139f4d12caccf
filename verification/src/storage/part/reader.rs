//! Part reader: the index sections of an `.rpart` file image.
//!
//! The query planner prunes Parts with these sections before any column
//! is read; the caller reads the file and hands over its bytes.
use vstd::prelude::*;
use vstd::slice::{slice_subrange, slice_to_vec};

use crate::common::error::RutSeriError;
use crate::storage::index::bloom::{filter_view, parse_set, BloomFilter, BloomFilterSet};
use crate::storage::index::minmax::{parsed_entry, MinMaxIndex, MINMAX_ENTRY_SIZE};

use super::format::{
    header_fields_match, header_is_current, magic_bytes, parsed_footer, to_array, FileHeader,
    Footer, FILE_HEADER_SIZE, FOOTER_SIZE,
};

verus! {

/// The smallest Part file: a header and a footer.
pub const MIN_PART_FILE_SIZE: usize = 96;

/// The footer bytes of a file image.
pub open spec fn footer_of(file: Seq<u8>) -> Seq<u8> {
    file.subrange(file.len() - 32, file.len() as int)
}

/// Whether a file image has a current header and a footer whose magic is
/// right.
pub open spec fn frame_ok(file: Seq<u8>) -> bool {
    &&& file.len() >= MIN_PART_FILE_SIZE
    &&& header_is_current(file.subrange(0, 64))
    &&& footer_of(file).subrange(0, 4) == magic_bytes()
}

/// The MinMax section of a well-framed file image: from the MinMax offset
/// to the dictionary pages, which must lie before the footer.
pub open spec fn minmax_section_ok(file: Seq<u8>) -> bool {
    let f = parsed_footer(footer_of(file));
    &&& f.minmax_index_offset <= f.dict_pages_offset
    &&& f.dict_pages_offset <= file.len() - 32
}

/// The Bloom section of a well-framed file image (when present): from the
/// Bloom offset to the footer.
pub open spec fn bloom_section_ok(file: Seq<u8>) -> bool {
    parsed_footer(footer_of(file)).bloom_offset <= file.len() - 32
}

/// Reads index sections of `.rpart` file images.
pub struct PartReader;

impl PartReader {
    /// Read the MinMax index of a Part file (no column I/O).
    ///
    /// `file` is the whole file. The header gives the column count, the
    /// footer gives the section's bounds. Fails with `UnsupportedVersion`
    /// for a header of another version, and with `InvalidPartFile` for any
    /// other malformed file.
    pub fn read_minmax(file: &[u8]) -> (r: Result<MinMaxIndex, RutSeriError>)
        ensures
            match r {
                Ok(idx) => {
                    let f = parsed_footer(footer_of(file@));
                    let section = file@.subrange(f.minmax_index_offset as int, f.dict_pages_offset as int);
                    &&& frame_ok(file@)
                    &&& minmax_section_ok(file@)
                    &&& exists|h: FileHeader| #[trigger] header_fields_match(h, file@.subrange(0, 64))
                        && idx.entries@.len() == h.num_columns
                        && section.len() >= MINMAX_ENTRY_SIZE * h.num_columns
                        && forall|i: int| 0 <= i < h.num_columns ==> {
                            let e = #[trigger] idx.entries@[i];
                            (e.col_idx, e.min_val, e.max_val) == parsed_entry(section, i)
                        }
                },
                Err(e) => {
                    &&& !frame_ok(file@) || !minmax_section_ok(file@) || exists|h: FileHeader|
                        #[trigger] header_fields_match(h, file@.subrange(0, 64))
                        && file@.subrange(
                            parsed_footer(footer_of(file@)).minmax_index_offset as int,
                            parsed_footer(footer_of(file@)).dict_pages_offset as int,
                        ).len() < MINMAX_ENTRY_SIZE * h.num_columns
                    &&& e is InvalidPartFile || e is UnsupportedVersion
                },
            },
    {
        let len = file.len();
        if len < MIN_PART_FILE_SIZE {
            return Err(RutSeriError::InvalidPartFile("file is too short for a Part".to_owned()));
        }
        let head: [u8; FILE_HEADER_SIZE] = to_array(&slice_to_vec(slice_subrange(file, 0, 64)));
        let header = match FileHeader::from_bytes(&head) {
            Ok(h) => h,
            Err(e) => {
                return Err(e);
            },
        };
        let tail: [u8; FOOTER_SIZE] = to_array(&slice_to_vec(slice_subrange(file, len - 32, len)));
        let footer = match Footer::from_bytes(&tail) {
            Ok(f) => f,
            Err(e) => {
                return Err(e);
            },
        };
        if footer.minmax_index_offset > footer.dict_pages_offset || footer.dict_pages_offset > (len - 32) as u64 {
            return Err(RutSeriError::InvalidPartFile("MinMax section bounds are out of range".to_owned()));
        }
        let section = slice_subrange(file, footer.minmax_index_offset as usize, footer.dict_pages_offset as usize);
        let r = MinMaxIndex::from_bytes(section, header.num_columns);
        proof {
            assert(header_fields_match(header, file@.subrange(0, 64)));
        }
        r
    }

    /// Read the Bloom filters of a Part file.
    ///
    /// Returns `None` if the Part has no Bloom section (its footer's Bloom
    /// offset is 0). Fails with `UnsupportedVersion` for a header of
    /// another version, and with `InvalidPartFile` for any other malformed
    /// file.
    pub fn read_bloom(file: &[u8]) -> (r: Result<Option<BloomFilterSet>, RutSeriError>)
        ensures
            match r {
                Ok(None) => frame_ok(file@) && parsed_footer(footer_of(file@)).bloom_offset == 0,
                Ok(Some(s)) => {
                    let f = parsed_footer(footer_of(file@));
                    &&& frame_ok(file@)
                    &&& f.bloom_offset != 0
                    &&& bloom_section_ok(file@)
                    &&& parse_set(file@.subrange(f.bloom_offset as int, file@.len() - 32)) == Some(
                        s.filters@.map_values(|f: BloomFilter| filter_view(f)),
                    )
                },
                Err(e) => {
                    &&& !frame_ok(file@) || (parsed_footer(footer_of(file@)).bloom_offset != 0 && (
                    !bloom_section_ok(file@) || parse_set(
                        file@.subrange(parsed_footer(footer_of(file@)).bloom_offset as int, file@.len() - 32),
                    ) is None))
                    &&& e is InvalidPartFile || e is UnsupportedVersion
                },
            },
    {
        let len = file.len();
        if len < MIN_PART_FILE_SIZE {
            return Err(RutSeriError::InvalidPartFile("file is too short for a Part".to_owned()));
        }
        let head: [u8; FILE_HEADER_SIZE] = to_array(&slice_to_vec(slice_subrange(file, 0, 64)));
        match FileHeader::from_bytes(&head) {
            Ok(_) => {},
            Err(e) => {
                return Err(e);
            },
        }
        let tail: [u8; FOOTER_SIZE] = to_array(&slice_to_vec(slice_subrange(file, len - 32, len)));
        let footer = match Footer::from_bytes(&tail) {
            Ok(f) => f,
            Err(e) => {
                return Err(e);
            },
        };
        if footer.bloom_offset == 0 {
            return Ok(None);
        }
        if footer.bloom_offset > (len - 32) as u64 {
            return Err(RutSeriError::InvalidPartFile("Bloom section offset is out of range".to_owned()));
        }
        let section = slice_subrange(file, footer.bloom_offset as usize, len - 32);
        match BloomFilterSet::from_bytes(section) {
            Ok(s) => Ok(Some(s)),
            Err(e) => Err(e),
        }
    }
}

} // verus!
