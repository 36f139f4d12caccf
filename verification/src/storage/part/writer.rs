//! Part writer: lays out an immutable `.rpart` file.
//!
//! The file is the header, the column blocks, the MinMax index, the
//! dictionary pages, the Bloom section (when present) and the footer,
//! whose offsets locate the index sections and whose CRC covers every
//! byte before it. Encoding the columns, writing the bytes to a temporary
//! file, syncing it and renaming it into place are the caller's part.
use vstd::bytes::*;
use vstd::prelude::*;

use crate::storage::index::bloom::{filter_view, lemma_filter_set_roundtrip, parse_set, set_bytes, BloomFilter, BloomFilterSet};
use crate::storage::index::minmax::{entry_bytes, lemma_minmax_roundtrip, parsed_entry, MinMaxIndex, MINMAX_ENTRY_SIZE};
use crate::storage::wal::entry::{crc32, crc32_of};
use vstd::utf8::encode_utf8;

use super::format::{
    footer_bytes, header_bytes, header_fields_match, header_is_current, lemma_footer_roundtrip, lemma_header_roundtrip,
    magic_bytes, parsed_footer, FileHeader, Footer, FORMAT_VERSION,
};
use super::reader::{bloom_section_ok, footer_of, frame_ok, minmax_section_ok};
use crate::common::hash::push_all;

verus! {

/// Writes `.rpart` files.
#[derive(Debug, Clone, Copy)]
pub struct PartWriter;

/// The bytes of the Bloom section: the serialized filter set, or nothing.
pub open spec fn bloom_section(bloom: Option<BloomFilterSet>) -> Seq<u8> {
    match bloom {
        Some(s) => set_bytes(s.filters@),
        None => Seq::empty(),
    }
}

/// Whether `img` is the Part file laid out from these sections: the
/// header's 64 bytes, the column blocks, one 18-byte entry per MinMax
/// entry, the dictionary pages, the Bloom section, and a footer holding the
/// MinMax, Bloom (0 when absent) and dictionary offsets and the CRC-32 of
/// every byte before the CRC.
pub open spec fn is_part_image(
    img: Seq<u8>,
    header: FileHeader,
    columns: Seq<u8>,
    minmax: MinMaxIndex,
    dict: Seq<u8>,
    bloom: Option<BloomFilterSet>,
) -> bool {
    let n = minmax.entries@.len();
    let mo: int = 64 + columns.len() as int;
    let dofs: int = mo + MINMAX_ENTRY_SIZE * n;
    let bo: int = dofs + dict.len() as int;
    let end: int = img.len() - 32;
    &&& img.len() == bo + bloom_section(bloom).len() + 32
    &&& img.subrange(0, 64) == header_bytes(header)
    &&& img.subrange(64, mo) == columns
    &&& forall|i: int|
        0 <= i < n ==> img.subrange(mo + MINMAX_ENTRY_SIZE * i, mo + MINMAX_ENTRY_SIZE * i + MINMAX_ENTRY_SIZE)
            == entry_bytes(
            #[trigger] minmax.entries@[i].col_idx,
            minmax.entries@[i].min_val,
            minmax.entries@[i].max_val,
        )
    &&& img.subrange(dofs, bo) == dict
    &&& img.subrange(bo, end) == bloom_section(bloom)
    &&& img.subrange(end, img.len() as int) == footer_bytes(
        Footer {
            minmax_index_offset: mo as u64,
            bloom_offset: if bloom is Some { bo as u64 } else { 0 },
            dict_pages_offset: dofs as u64,
            file_crc32: crc32_of(img.subrange(0, img.len() - 4)),
        },
    )
}

/// Appends a u64 in little-endian order.
fn push_u64(out: &mut Vec<u8>, x: u64)
    ensures
        final(out)@ == old(out)@ + spec_u64_to_le_bytes(x),
{
    let b = u64_to_le_bytes(x);
    push_all(out, b.as_slice());
}

impl PartWriter {
    /// Lays out a Part file from its sections: the header, the encoded
    /// column blocks, the MinMax index, the dictionary pages and the Bloom
    /// filters (if any); the footer records where each index section
    /// starts (Bloom offset 0 when there are no filters) and the CRC-32 of
    /// every byte before the CRC.
    pub fn assemble(
        header: &FileHeader,
        columns: &[u8],
        minmax: &MinMaxIndex,
        dict_pages: &[u8],
        bloom: &Option<BloomFilterSet>,
    ) -> (r: Vec<u8>)
        ensures
            is_part_image(r@, *header, columns@, *minmax, dict_pages@, *bloom),
    {
        let hb = header.to_bytes();
        let mut out: Vec<u8> = Vec::new();
        push_all(&mut out, hb.as_slice());
        push_all(&mut out, columns);
        let mo = out.len();
        let mm = minmax.to_bytes();
        push_all(&mut out, mm.as_slice());
        let dofs = out.len();
        push_all(&mut out, dict_pages);
        let bo = out.len();
        let bloom_offset: u64 = match bloom {
            Some(set) => {
                let bb = set.to_bytes();
                push_all(&mut out, bb.as_slice());
                bo as u64
            },
            None => 0,
        };
        let ghost body = out@;
        out.push(82u8);
        out.push(80u8);
        out.push(82u8);
        out.push(84u8);
        proof {
            assert(out@ =~= body + magic_bytes());
        }
        push_u64(&mut out, mo as u64);
        push_u64(&mut out, bloom_offset);
        push_u64(&mut out, dofs as u64);
        let crc = crc32(out.as_slice());
        let ghost covered = out@;
        let cb = u32_to_le_bytes(crc);
        push_all(&mut out, cb.as_slice());
        proof {
            lemma_auto_spec_u64_to_from_le_bytes();
            lemma_auto_spec_u32_to_from_le_bytes();
            assert(out@ =~= body + (magic_bytes() + spec_u64_to_le_bytes(mo as u64) + spec_u64_to_le_bytes(
                bloom_offset,
            ) + spec_u64_to_le_bytes(dofs as u64) + spec_u32_to_le_bytes(crc)));
            let n = minmax.entries@.len();
            let img = out@;
            let f = Footer {
                minmax_index_offset: mo as u64,
                bloom_offset: bloom_offset,
                dict_pages_offset: dofs as u64,
                file_crc32: crc,
            };
            assert(img.subrange(0, img.len() - 4) =~= covered);
            assert(img.subrange(img.len() - 32, img.len() as int) =~= footer_bytes(f));
            assert(img.subrange(0, 64) =~= header_bytes(*header));
            assert(img.subrange(64, mo as int) =~= columns@);
            assert(img.subrange(mo as int, dofs as int) =~= mm@);
            assert forall|i: int| 0 <= i < n implies img.subrange(
                mo + MINMAX_ENTRY_SIZE * i,
                mo + MINMAX_ENTRY_SIZE * i + MINMAX_ENTRY_SIZE,
            ) == entry_bytes(
                #[trigger] minmax.entries@[i].col_idx,
                minmax.entries@[i].min_val,
                minmax.entries@[i].max_val,
            ) by {
                assert(img.subrange(mo + MINMAX_ENTRY_SIZE * i, mo + MINMAX_ENTRY_SIZE * i + MINMAX_ENTRY_SIZE)
                    =~= mm@.subrange(MINMAX_ENTRY_SIZE * i, MINMAX_ENTRY_SIZE * i + MINMAX_ENTRY_SIZE));
            }
            assert(img.subrange(dofs as int, bo as int) =~= dict_pages@);
            assert(img.subrange(bo as int, img.len() - 32) =~= bloom_section(*bloom));
        }
        out
    }
}

/// What the writer lays out, the reader finds: a Part image of the current
/// version whose header counts the MinMax entries is well framed, its
/// MinMax section holds each entry's column index and range in order, and
/// its Bloom section, when there is one, parses back to the same filters
/// (names, hash counts and bits); without filters the Bloom offset is 0.
pub proof fn lemma_part_image_reads_back(
    img: Seq<u8>,
    header: FileHeader,
    columns: Seq<u8>,
    minmax: MinMaxIndex,
    dict: Seq<u8>,
    bloom: Option<BloomFilterSet>,
)
    requires
        is_part_image(img, header, columns, minmax, dict, bloom),
        img.len() <= u64::MAX,
        header.version == FORMAT_VERSION,
        header.num_columns == minmax.entries@.len(),
        bloom matches Some(s) ==> {
            &&& s.filters@.len() <= u64::MAX
            &&& forall|i: int| 0 <= i < s.filters@.len() ==> (#[trigger] s.filters@[i]).wf()
            &&& forall|i: int|
                0 <= i < s.filters@.len() ==> encode_utf8((#[trigger] s.filters@[i]).column_name()).len()
                    <= u64::MAX
        },
    ensures
        frame_ok(img),
        minmax_section_ok(img),
        forall|h: FileHeader| #[trigger] header_fields_match(h, img.subrange(0, 64)) ==> h.num_columns
            == minmax.entries@.len(),
        ({
            let f = parsed_footer(footer_of(img));
            let section = img.subrange(f.minmax_index_offset as int, f.dict_pages_offset as int);
            &&& section.len() == MINMAX_ENTRY_SIZE * minmax.entries@.len()
            &&& forall|i: int|
                0 <= i < minmax.entries@.len() ==> parsed_entry(section, i) == (
                    #[trigger] minmax.entries@[i].col_idx,
                    minmax.entries@[i].min_val,
                    minmax.entries@[i].max_val,
                )
        }),
        bloom is None ==> parsed_footer(footer_of(img)).bloom_offset == 0,
        bloom matches Some(s) ==> {
            let f = parsed_footer(footer_of(img));
            &&& f.bloom_offset != 0
            &&& bloom_section_ok(img)
            &&& parse_set(img.subrange(f.bloom_offset as int, img.len() - 32)) == Some(
                s.filters@.map_values(|b: BloomFilter| filter_view(b)),
            )
        },
{
    let n = minmax.entries@.len();
    let mo: int = 64 + columns.len() as int;
    let dofs: int = mo + MINMAX_ENTRY_SIZE * n;
    let bo: int = dofs + dict.len() as int;
    let f = Footer {
        minmax_index_offset: mo as u64,
        bloom_offset: if bloom is Some { bo as u64 } else { 0 },
        dict_pages_offset: dofs as u64,
        file_crc32: crc32_of(img.subrange(0, img.len() - 4)),
    };
    lemma_footer_roundtrip(f);
    lemma_auto_spec_u64_to_from_le_bytes();
    assert(footer_of(img) == footer_bytes(f));
    assert(parsed_footer(footer_of(img)) == f);
    assert(footer_of(img).subrange(0, 4) == magic_bytes());
    assert forall|h: FileHeader| #[trigger] header_fields_match(h, img.subrange(0, 64)) implies h.num_columns
        == minmax.entries@.len() by {
        lemma_header_roundtrip(header, h);
    }
    lemma_header_roundtrip_current(header);
    let section = img.subrange(mo as int, dofs as int);
    assert forall|i: int| 0 <= i < n implies section.subrange(
        MINMAX_ENTRY_SIZE * i,
        MINMAX_ENTRY_SIZE * i + MINMAX_ENTRY_SIZE,
    ) == entry_bytes(#[trigger] minmax.entries@[i].col_idx, minmax.entries@[i].min_val, minmax.entries@[i].max_val) by {
        assert(section.subrange(MINMAX_ENTRY_SIZE * i, MINMAX_ENTRY_SIZE * i + MINMAX_ENTRY_SIZE) =~= img.subrange(
            mo + MINMAX_ENTRY_SIZE * i,
            mo + MINMAX_ENTRY_SIZE * i + MINMAX_ENTRY_SIZE,
        ));
    }
    lemma_minmax_roundtrip(minmax.entries@, section);
    if let Some(s) = bloom {
        lemma_filter_set_roundtrip(s.filters@);
    }
}

/// A header of the current version lays out as a current header.
proof fn lemma_header_roundtrip_current(h: FileHeader)
    requires
        h.version == FORMAT_VERSION,
    ensures
        header_is_current(header_bytes(h)),
        header_bytes(h).len() == 64,
{
    let b = header_bytes(h);
    let g = FileHeader {
        version: spec_u16_from_le_bytes(b.subrange(4, 6)),
        flags: spec_u16_from_le_bytes(b.subrange(6, 8)),
        num_columns: spec_u32_from_le_bytes(b.subrange(8, 12)),
        num_rows: spec_u64_from_le_bytes(b.subrange(12, 20)),
        min_timestamp: spec_u64_from_le_bytes(b.subrange(20, 28)) as i64,
        max_timestamp: spec_u64_from_le_bytes(b.subrange(28, 36)) as i64,
        part_id: spec_u128_from_le_bytes(b.subrange(36, 52)),
        created_at: spec_u64_from_le_bytes(b.subrange(52, 60)) as i64,
    };
    lemma_header_roundtrip(h, g);
}

} // verus!
