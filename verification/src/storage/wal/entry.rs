//! WAL entry types and record framing.
//!
//! Physical record layout (per entry, integers little-endian):
//! ```text
//! | Magic (4B) | Seq (8B) | Len (4B) | Payload (variable) | CRC32 (4B) |
//! ```
//! The CRC32 (IEEE, reflected) covers `[Seq ‖ Len ‖ Payload]`. The payload
//! is the serialized `WalEntry`; serialization itself is the caller's.
use vstd::bytes::*;
use vstd::prelude::*;
use vstd::slice::{slice_subrange, slice_to_vec};

use crate::common::error::RutSeriError;
use crate::common::hash::push_all;
use crate::common::types::Row;

verus! {

/// Magic bytes `RWAL` at the start of every WAL record.
pub const WAL_MAGIC: [u8; 4] = [82u8, 87u8, 65u8, 76u8];

/// Fixed overhead per WAL record: magic(4) + seq(8) + len(4) + crc(4).
pub const WAL_RECORD_OVERHEAD: usize = 20;

/// The reflected CRC-32 (IEEE) polynomial.
pub const CRC32_POLY: u32 = 0xEDB8_8320;

/// A logical WAL entry: the payload inside a WAL record.
#[derive(Debug, Clone)]
pub enum WalEntry {
    /// A batch of rows to insert into a table.
    Write { table: String, rows: Vec<Row> },
    /// Checkpoint marker: all entries up to `seq` are flushed to Part files.
    Checkpoint {
        /// The sequence number up to which data is flushed.
        seq: u64,
        /// The catalog version at the time of checkpoint.
        catalog_ver: u64,
    },
}

/// A framed WAL record as it appears on disk.
#[derive(Debug)]
pub struct WalRecord {
    /// Monotonically increasing sequence number (per shard).
    pub seq: u64,
    /// The logical entry payload.
    pub entry: WalEntry,
}

/// The magic bytes as a sequence.
pub open spec fn wal_magic() -> Seq<u8> {
    seq![82u8, 87u8, 65u8, 76u8]
}

/// One shift of the bitwise CRC register.
pub open spec fn crc_shift(c: u32) -> u32 {
    if c & 1 == 1 {
        (c >> 1u32) ^ CRC32_POLY
    } else {
        c >> 1u32
    }
}

/// `n` shifts of the CRC register.
pub open spec fn crc_shifts(c: u32, n: nat) -> u32
    decreases n,
{
    if n == 0 {
        c
    } else {
        crc_shift(crc_shifts(c, (n - 1) as nat))
    }
}

/// The CRC register after taking in one byte.
pub open spec fn crc_byte(c: u32, b: u8) -> u32 {
    crc_shifts(c ^ (b as u32), 8)
}

/// The CRC register after taking in `data`, starting from all ones.
pub open spec fn crc_register(data: Seq<u8>) -> u32
    decreases data.len(),
{
    if data.len() == 0 {
        0xFFFF_FFFFu32
    } else {
        crc_byte(crc_register(data.drop_last()), data.last())
    }
}

/// The CRC-32 (IEEE) of `data`.
pub open spec fn crc32_of(data: Seq<u8>) -> u32 {
    crc_register(data) ^ 0xFFFF_FFFFu32
}

/// The CRC register after one byte.
fn crc_update_byte(c: u32, b: u8) -> (r: u32)
    ensures
        r == crc_byte(c, b),
{
    let mut x = c ^ (b as u32);
    let mut k: u32 = 0;
    while k < 8
        invariant
            0 <= k <= 8,
            x == crc_shifts(c ^ (b as u32), k as nat),
        decreases 8 - k,
    {
        if x & 1 == 1 {
            x = (x >> 1u32) ^ CRC32_POLY;
        } else {
            x = x >> 1u32;
        }
        k = k + 1;
    }
    x
}

/// CRC-32 (IEEE) of `data`.
pub fn crc32(data: &[u8]) -> (r: u32)
    ensures
        r == crc32_of(data@),
{
    let n = data.len();
    let mut c: u32 = 0xFFFF_FFFF;
    let mut i: usize = 0;
    while i < n
        invariant
            n == data@.len(),
            0 <= i <= n,
            c == crc_register(data@.subrange(0, i as int)),
        decreases n - i,
    {
        proof {
            assert(data@.subrange(0, i + 1).drop_last() == data@.subrange(0, i as int));
        }
        c = crc_update_byte(c, data[i]);
        i = i + 1;
    }
    proof {
        assert(data@.subrange(0, n as int) == data@);
    }
    c ^ 0xFFFF_FFFF
}

/// The bytes the CRC of a record covers: seq, length, payload.
pub open spec fn covered_bytes(seq: u64, payload: Seq<u8>) -> Seq<u8> {
    spec_u64_to_le_bytes(seq) + spec_u32_to_le_bytes(payload.len() as u32) + payload
}

/// The bytes of a framed record.
pub open spec fn frame_bytes(seq: u64, payload: Seq<u8>) -> Seq<u8> {
    wal_magic() + covered_bytes(seq, payload) + spec_u32_to_le_bytes(crc32_of(covered_bytes(seq, payload)))
}

/// What a buffer that starts with a record holds: `None` if it is too
/// short or lacks the magic; otherwise the seq, the payload, the stored
/// CRC, the CRC of the covered bytes, and the record's length.
pub open spec fn frame_at(buf: Seq<u8>) -> Option<(u64, Seq<u8>, u32, u32, int)> {
    if buf.len() < WAL_RECORD_OVERHEAD || buf.subrange(0, 4) != wal_magic() {
        None
    } else {
        let len = spec_u32_from_le_bytes(buf.subrange(12, 16)) as int;
        if buf.len() < WAL_RECORD_OVERHEAD + len {
            None
        } else {
            Some(
                (
                    spec_u64_from_le_bytes(buf.subrange(4, 12)),
                    buf.subrange(16, 16 + len),
                    spec_u32_from_le_bytes(buf.subrange(16 + len, 20 + len)),
                    crc32_of(buf.subrange(4, 16 + len)),
                    20 + len,
                ),
            )
        }
    }
}

/// Frame a serialized entry as a WAL record:
/// `RWAL` | seq | len | payload | crc32.
pub fn encode_frame(seq: u64, payload: &[u8]) -> (r: Vec<u8>)
    requires
        payload@.len() <= u32::MAX,
    ensures
        r@ == frame_bytes(seq, payload@),
{
    let mut covered = u64_to_le_bytes(seq);
    let mut len_bytes = u32_to_le_bytes(payload.len() as u32);
    covered.append(&mut len_bytes);
    push_all(&mut covered, payload);
    let crc = crc32(covered.as_slice());
    let mut out: Vec<u8> = Vec::new();
    out.push(82u8);
    out.push(87u8);
    out.push(65u8);
    out.push(76u8);
    let ghost magic = out@;
    push_all(&mut out, covered.as_slice());
    let mut crc_bytes = u32_to_le_bytes(crc);
    out.append(&mut crc_bytes);
    proof {
        assert(magic =~= wal_magic());
    }
    out
}

/// Read the record at the start of `buf`.
///
/// Returns `Ok(None)` if the buffer is too short or the magic does not
/// match, `Err(WalCrcMismatch)` if the stored CRC differs from the CRC of
/// the covered bytes, and otherwise the record's seq, its payload and the
/// number of bytes it takes.
pub fn decode_frame(buf: &[u8]) -> (r: Result<Option<(u64, Vec<u8>, usize)>, RutSeriError>)
    ensures
        match frame_at(buf@) {
            None => r == Ok::<Option<(u64, Vec<u8>, usize)>, RutSeriError>(None),
            Some((seq, payload, stored, actual, total)) => if stored == actual {
                r matches Ok(Some((s, p, n))) && s == seq && p@ == payload && n == total
            } else {
                r == Err::<Option<(u64, Vec<u8>, usize)>, RutSeriError>(
                    RutSeriError::WalCrcMismatch { seq, expected: stored, actual },
                )
            },
        },
{
    let n = buf.len();
    if n < WAL_RECORD_OVERHEAD {
        return Ok(None);
    }
    let magic_ok = buf[0] == 82u8 && buf[1] == 87u8 && buf[2] == 65u8 && buf[3] == 76u8;
    proof {
        if magic_ok {
            assert(buf@.subrange(0, 4) =~= wal_magic());
        } else if buf@.subrange(0, 4) == wal_magic() {
            assert(buf@.subrange(0, 4)[0] == buf@[0]);
            assert(buf@.subrange(0, 4)[1] == buf@[1]);
            assert(buf@.subrange(0, 4)[2] == buf@[2]);
            assert(buf@.subrange(0, 4)[3] == buf@[3]);
        }
    }
    if !magic_ok {
        return Ok(None);
    }
    let seq = u64_from_le_bytes(slice_subrange(buf, 4, 12));
    let len = u32_from_le_bytes(slice_subrange(buf, 12, 16));
    if ((n - WAL_RECORD_OVERHEAD) as u64) < (len as u64) {
        return Ok(None);
    }
    let l = len as usize;
    let payload = slice_to_vec(slice_subrange(buf, 16, 16 + l));
    let stored = u32_from_le_bytes(slice_subrange(buf, 16 + l, 20 + l));
    let actual = crc32(slice_subrange(buf, 4, 16 + l));
    if stored != actual {
        return Err(RutSeriError::WalCrcMismatch { seq, expected: stored, actual });
    }
    Ok(Some((seq, payload, 20 + l)))
}

/// A framed record reads back as its seq and payload, whatever follows
/// it in the buffer.
pub proof fn lemma_frame_roundtrip(seq: u64, payload: Seq<u8>, rest: Seq<u8>)
    requires
        payload.len() <= u32::MAX,
    ensures
        frame_at(frame_bytes(seq, payload) + rest) == Some(
            (
                seq,
                payload,
                crc32_of(covered_bytes(seq, payload)),
                crc32_of(covered_bytes(seq, payload)),
                frame_bytes(seq, payload).len() as int,
            ),
        ),
        frame_bytes(seq, payload).len() == WAL_RECORD_OVERHEAD + payload.len(),
{
    lemma_auto_spec_u64_to_from_le_bytes();
    lemma_auto_spec_u32_to_from_le_bytes();
    let b = frame_bytes(seq, payload) + rest;
    let len = payload.len() as int;
    let cov = covered_bytes(seq, payload);
    assert(b.subrange(0, 4) =~= wal_magic());
    assert(b.subrange(4, 12) =~= spec_u64_to_le_bytes(seq));
    assert(b.subrange(12, 16) =~= spec_u32_to_le_bytes(payload.len() as u32));
    assert(b.subrange(16, 16 + len) =~= payload);
    assert(b.subrange(4, 16 + len) =~= cov);
    assert(b.subrange(16 + len, 20 + len) =~= spec_u32_to_le_bytes(crc32_of(cov)));
}

} // verus!
