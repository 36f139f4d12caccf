//! `.rpart` file format constants and fixed-size structures.
//!
//! Overall file structure:
//! ```text
//! [FileHeader (64B)] [ColBlock 0] [ColBlock 1..N] [MinMax Index]
//! [Dictionary Pages] [Bloom Filters] [Footer (32B)]
//! ```
//! Integers are little-endian.
use vstd::bytes::*;
use vstd::prelude::*;
use vstd::slice::slice_subrange;

use crate::common::error::RutSeriError;
use crate::common::types::PartId;

pub mod col_type;
pub mod compression_type;
pub mod encoding_type;

verus! {

/// Magic bytes `RPRT` at the start and in the footer of every `.rpart` file.
pub const PART_MAGIC: [u8; 4] = [82u8, 80u8, 82u8, 84u8];

/// Current format version.
pub const FORMAT_VERSION: u16 = 1;

/// File header size in bytes.
pub const FILE_HEADER_SIZE: usize = 64;

/// Footer size in bytes (always at EOF - 32).
pub const FOOTER_SIZE: usize = 32;

/// Flag: bloom filter section is present.
pub const FLAG_BLOOM_PRESENT: u16 = 0x01;

/// The magic bytes as a sequence.
pub open spec fn magic_bytes() -> Seq<u8> {
    seq![82u8, 80u8, 82u8, 84u8]
}

/// The 64-byte file header at the start of every `.rpart` file.
#[derive(Debug, Clone)]
pub struct FileHeader {
    /// Format version (currently 1).
    pub version: u16,
    /// Bitfield flags (e.g., `FLAG_BLOOM_PRESENT`).
    pub flags: u16,
    /// Total number of columns (timestamp + tags + fields).
    pub num_columns: u32,
    /// Total number of rows.
    pub num_rows: u64,
    /// Minimum timestamp in the file (nanoseconds).
    pub min_timestamp: i64,
    /// Maximum timestamp in the file (nanoseconds).
    pub max_timestamp: i64,
    /// Part UUID.
    pub part_id: PartId,
    /// Creation time (Unix seconds).
    pub created_at: i64,
}

/// Per-column metadata within the file.
#[derive(Debug, Clone)]
pub struct ColumnHeader {
    /// Column name.
    pub name: String,
    /// Column type (see `col_type`).
    pub col_type: u8,
    /// Encoding type (see `encoding_type`).
    pub encoding: u8,
    /// Compression type (see `compression_type`).
    pub compression: u8,
    /// Byte offset of compressed data from file start.
    pub data_offset: u64,
    /// Compressed byte length.
    pub data_len: u32,
    /// Uncompressed byte length.
    pub uncompressed_len: u32,
    /// Offset of null bitmap (0 if no nulls).
    pub null_bitmap_offset: u64,
    /// Length of null bitmap.
    pub null_bitmap_len: u32,
}

/// The 32-byte footer at EOF - 32.
#[derive(Debug, Clone, Copy, PartialEq, Eq, Structural)]
pub struct Footer {
    /// Byte offset of the MinMax Index section.
    pub minmax_index_offset: u64,
    /// Byte offset of the Bloom Filter section (0 if absent).
    pub bloom_offset: u64,
    /// Byte offset of the Dictionary Pages section.
    pub dict_pages_offset: u64,
    /// CRC32 of all bytes in the file except the last 4.
    pub file_crc32: u32,
}

/// The 32 bytes of a footer: magic (4) + minmax offset (8) + bloom
/// offset (8) + dictionary offset (8) + file CRC32 (4).
pub open spec fn footer_bytes(f: Footer) -> Seq<u8> {
    magic_bytes() + spec_u64_to_le_bytes(f.minmax_index_offset) + spec_u64_to_le_bytes(
        f.bloom_offset,
    ) + spec_u64_to_le_bytes(f.dict_pages_offset) + spec_u32_to_le_bytes(f.file_crc32)
}

/// The footer that 32 bytes hold, field by field.
pub open spec fn parsed_footer(b: Seq<u8>) -> Footer {
    Footer {
        minmax_index_offset: spec_u64_from_le_bytes(b.subrange(4, 12)),
        bloom_offset: spec_u64_from_le_bytes(b.subrange(12, 20)),
        dict_pages_offset: spec_u64_from_le_bytes(b.subrange(20, 28)),
        file_crc32: spec_u32_from_le_bytes(b.subrange(28, 32)),
    }
}

/// The 64 bytes of a header: magic (4) + version (2) + flags (2) +
/// num_columns (4) + num_rows (8) + min_ts (8) + max_ts (8) + part id (16,
/// its 128-bit value little-endian) + created_at (8) + reserved zeros (4).
pub open spec fn header_bytes(h: FileHeader) -> Seq<u8> {
    magic_bytes() + spec_u16_to_le_bytes(h.version) + spec_u16_to_le_bytes(h.flags)
        + spec_u32_to_le_bytes(h.num_columns) + spec_u64_to_le_bytes(h.num_rows)
        + spec_u64_to_le_bytes(h.min_timestamp as u64) + spec_u64_to_le_bytes(
        h.max_timestamp as u64,
    ) + spec_u128_to_le_bytes(h.part_id) + spec_u64_to_le_bytes(h.created_at as u64)
        + seq![0u8, 0u8, 0u8, 0u8]
}

/// Whether `b` is a header of the current version: it starts with the
/// magic and carries `FORMAT_VERSION`.
pub open spec fn header_is_current(b: Seq<u8>) -> bool {
    &&& b.subrange(0, 4) == magic_bytes()
    &&& spec_u16_from_le_bytes(b.subrange(4, 6)) == FORMAT_VERSION
}

/// The header fields that 64 bytes hold (all but the part id).
pub open spec fn header_fields_match(h: FileHeader, b: Seq<u8>) -> bool {
    &&& h.version == spec_u16_from_le_bytes(b.subrange(4, 6))
    &&& h.flags == spec_u16_from_le_bytes(b.subrange(6, 8))
    &&& h.num_columns == spec_u32_from_le_bytes(b.subrange(8, 12))
    &&& h.num_rows == spec_u64_from_le_bytes(b.subrange(12, 20))
    &&& h.min_timestamp == spec_u64_from_le_bytes(b.subrange(20, 28)) as i64
    &&& h.max_timestamp == spec_u64_from_le_bytes(b.subrange(28, 36)) as i64
    &&& h.part_id == spec_u128_from_le_bytes(b.subrange(36, 52))
    &&& h.created_at == spec_u64_from_le_bytes(b.subrange(52, 60)) as i64
}

/// Copies exactly `N` bytes into an array.
pub(crate) fn to_array<const N: usize>(v: &Vec<u8>) -> (r: [u8; N])
    requires
        v@.len() == N,
    ensures
        r@ == v@,
{
    let mut out = [0u8; N];
    let mut i: usize = 0;
    while i < N
        invariant
            v@.len() == N,
            0 <= i <= N,
            out@.len() == N,
            forall|j: int| 0 <= j < i ==> out@[j] == v@[j],
        decreases N - i,
    {
        out[i] = v[i];
        i = i + 1;
    }
    assert(out@ =~= v@);
    out
}

/// Appends the magic bytes.
fn push_magic(out: &mut Vec<u8>)
    ensures
        final(out)@ == old(out)@ + magic_bytes(),
{
    out.push(82u8);
    out.push(80u8);
    out.push(82u8);
    out.push(84u8);
    assert(out@ =~= old(out)@ + magic_bytes());
}

/// Whether the first four bytes are the magic.
fn has_magic(b: &[u8]) -> (r: bool)
    requires
        b@.len() >= 4,
    ensures
        r == (b@.subrange(0, 4) == magic_bytes()),
{
    let r = b[0] == 82u8 && b[1] == 80u8 && b[2] == 82u8 && b[3] == 84u8;
    proof {
        if r {
            assert(b@.subrange(0, 4) =~= magic_bytes());
        } else if b@.subrange(0, 4) == magic_bytes() {
            assert(b@.subrange(0, 4)[0] == b@[0]);
            assert(b@.subrange(0, 4)[1] == b@[1]);
            assert(b@.subrange(0, 4)[2] == b@[2]);
            assert(b@.subrange(0, 4)[3] == b@[3]);
        }
    }
    r
}

impl FileHeader {
    /// Serialize the header to its 64 bytes.
    pub fn to_bytes(&self) -> (r: [u8; FILE_HEADER_SIZE])
        ensures
            r@ == header_bytes(*self),
    {
        let mut v: Vec<u8> = Vec::new();
        push_magic(&mut v);
        let mut a = u16_to_le_bytes(self.version);
        let mut b = u16_to_le_bytes(self.flags);
        let mut c = u32_to_le_bytes(self.num_columns);
        let mut d = u64_to_le_bytes(self.num_rows);
        let mut e = u64_to_le_bytes(self.min_timestamp as u64);
        let mut f = u64_to_le_bytes(self.max_timestamp as u64);
        let mut g = u128_to_le_bytes(self.part_id);
        let mut h = u64_to_le_bytes(self.created_at as u64);
        proof {
            lemma_auto_spec_u16_to_from_le_bytes();
            lemma_auto_spec_u32_to_from_le_bytes();
            lemma_auto_spec_u64_to_from_le_bytes();
            lemma_auto_spec_u128_to_from_le_bytes();
        }
        v.append(&mut a);
        v.append(&mut b);
        v.append(&mut c);
        v.append(&mut d);
        v.append(&mut e);
        v.append(&mut f);
        v.append(&mut g);
        v.append(&mut h);
        v.push(0u8);
        v.push(0u8);
        v.push(0u8);
        v.push(0u8);
        assert(v@ =~= header_bytes(*self));
        to_array(&v)
    }

    /// Deserialize from its 64 bytes.
    ///
    /// Fails with `InvalidPartFile` when the magic is missing, and with
    /// `UnsupportedVersion` when the version is not `FORMAT_VERSION`.
    pub fn from_bytes(buf: &[u8; FILE_HEADER_SIZE]) -> (r: Result<FileHeader, RutSeriError>)
        ensures
            match r {
                Ok(h) => header_is_current(buf@) && header_fields_match(h, buf@),
                Err(e) => {
                    &&& !header_is_current(buf@)
                    &&& buf@.subrange(0, 4) != magic_bytes() ==> e is InvalidPartFile
                    &&& buf@.subrange(0, 4) == magic_bytes() ==> e == RutSeriError::UnsupportedVersion(
                        spec_u16_from_le_bytes(buf@.subrange(4, 6)),
                    )
                },
            },
    {
        let b = buf.as_slice();
        if !has_magic(b) {
            return Err(RutSeriError::InvalidPartFile("header magic mismatch".to_owned()));
        }
        let version = u16_from_le_bytes(slice_subrange(b, 4, 6));
        if version != FORMAT_VERSION {
            return Err(RutSeriError::UnsupportedVersion(version));
        }
        let id = u128_from_le_bytes(slice_subrange(b, 36, 52));
        Ok(FileHeader {
            version,
            flags: u16_from_le_bytes(slice_subrange(b, 6, 8)),
            num_columns: u32_from_le_bytes(slice_subrange(b, 8, 12)),
            num_rows: u64_from_le_bytes(slice_subrange(b, 12, 20)),
            min_timestamp: u64_from_le_bytes(slice_subrange(b, 20, 28)) as i64,
            max_timestamp: u64_from_le_bytes(slice_subrange(b, 28, 36)) as i64,
            part_id: id,
            created_at: u64_from_le_bytes(slice_subrange(b, 52, 60)) as i64,
        })
    }
}

/// Reading back a serialized header of the current version gives every
/// field back (the part id by its 128-bit value).
pub proof fn lemma_header_roundtrip(h: FileHeader, g: FileHeader)
    requires
        h.version == FORMAT_VERSION,
        header_fields_match(g, header_bytes(h)),
    ensures
        header_bytes(h).len() == FILE_HEADER_SIZE,
        header_is_current(header_bytes(h)),
        g.version == h.version,
        g.flags == h.flags,
        g.num_columns == h.num_columns,
        g.num_rows == h.num_rows,
        g.min_timestamp == h.min_timestamp,
        g.max_timestamp == h.max_timestamp,
        g.part_id == h.part_id,
        g.created_at == h.created_at,
{
    lemma_auto_spec_u16_to_from_le_bytes();
    lemma_auto_spec_u32_to_from_le_bytes();
    lemma_auto_spec_u64_to_from_le_bytes();
    lemma_auto_spec_u128_to_from_le_bytes();
    let b = header_bytes(h);
    assert(b.subrange(0, 4) =~= magic_bytes());
    assert(b.subrange(4, 6) =~= spec_u16_to_le_bytes(h.version));
    assert(b.subrange(6, 8) =~= spec_u16_to_le_bytes(h.flags));
    assert(b.subrange(8, 12) =~= spec_u32_to_le_bytes(h.num_columns));
    assert(b.subrange(12, 20) =~= spec_u64_to_le_bytes(h.num_rows));
    assert(b.subrange(20, 28) =~= spec_u64_to_le_bytes(h.min_timestamp as u64));
    assert(b.subrange(28, 36) =~= spec_u64_to_le_bytes(h.max_timestamp as u64));
    assert(b.subrange(36, 52) =~= spec_u128_to_le_bytes(h.part_id));
    assert(b.subrange(52, 60) =~= spec_u64_to_le_bytes(h.created_at as u64));
    lemma_i64_u64_roundtrip(h.min_timestamp);
    lemma_i64_u64_roundtrip(h.max_timestamp);
    lemma_i64_u64_roundtrip(h.created_at);
}

/// An i64 read back from its u64 bit pattern is the same i64.
pub proof fn lemma_i64_u64_roundtrip(x: i64)
    ensures
        (x as u64) as i64 == x,
{
    assert((x as u64) as i64 == x) by (bit_vector);
}

impl Footer {
    /// Serialize the footer to its 32 bytes.
    pub fn to_bytes(&self) -> (r: [u8; FOOTER_SIZE])
        ensures
            r@ == footer_bytes(*self),
    {
        let mut v: Vec<u8> = Vec::new();
        push_magic(&mut v);
        let mut a = u64_to_le_bytes(self.minmax_index_offset);
        let mut b = u64_to_le_bytes(self.bloom_offset);
        let mut c = u64_to_le_bytes(self.dict_pages_offset);
        let mut d = u32_to_le_bytes(self.file_crc32);
        proof {
            lemma_auto_spec_u64_to_from_le_bytes();
            lemma_auto_spec_u32_to_from_le_bytes();
        }
        v.append(&mut a);
        v.append(&mut b);
        v.append(&mut c);
        v.append(&mut d);
        assert(v@ =~= footer_bytes(*self));
        to_array(&v)
    }

    /// Deserialize from its 32 bytes; fails with `InvalidPartFile` when the
    /// magic is missing.
    pub fn from_bytes(buf: &[u8; FOOTER_SIZE]) -> (r: Result<Footer, RutSeriError>)
        ensures
            match r {
                Ok(f) => buf@.subrange(0, 4) == magic_bytes() && f == parsed_footer(buf@),
                Err(e) => buf@.subrange(0, 4) != magic_bytes() && e is InvalidPartFile,
            },
    {
        let b = buf.as_slice();
        if !has_magic(b) {
            return Err(RutSeriError::InvalidPartFile("footer magic mismatch".to_owned()));
        }
        Ok(Footer {
            minmax_index_offset: u64_from_le_bytes(slice_subrange(b, 4, 12)),
            bloom_offset: u64_from_le_bytes(slice_subrange(b, 12, 20)),
            dict_pages_offset: u64_from_le_bytes(slice_subrange(b, 20, 28)),
            file_crc32: u32_from_le_bytes(slice_subrange(b, 28, 32)),
        })
    }
}

/// Reading back a serialized footer gives the same footer.
pub proof fn lemma_footer_roundtrip(f: Footer)
    ensures
        footer_bytes(f).len() == FOOTER_SIZE,
        footer_bytes(f).subrange(0, 4) == magic_bytes(),
        parsed_footer(footer_bytes(f)) == f,
{
    lemma_auto_spec_u64_to_from_le_bytes();
    lemma_auto_spec_u32_to_from_le_bytes();
    let b = footer_bytes(f);
    assert(b.subrange(0, 4) =~= magic_bytes());
    assert(b.subrange(4, 12) =~= spec_u64_to_le_bytes(f.minmax_index_offset));
    assert(b.subrange(12, 20) =~= spec_u64_to_le_bytes(f.bloom_offset));
    assert(b.subrange(20, 28) =~= spec_u64_to_le_bytes(f.dict_pages_offset));
    assert(b.subrange(28, 32) =~= spec_u32_to_le_bytes(f.file_crc32));
}

} // verus!
