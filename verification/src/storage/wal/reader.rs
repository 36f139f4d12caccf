//! WAL reader: crash recovery by segment replay.
//!
//! Recovery reads the `.rwal` segments in ascending order. Each segment is
//! a run of framed records; reading stops at the first position that holds
//! no complete record (a write torn by a crash). A record whose CRC does
//! not match is the torn tail of the log when nothing follows it in the
//! last segment, and is silently dropped; anywhere else it is corruption.
//! Of the records read, the `Write` entries after the last `Checkpoint`
//! are replayed.
//!
//! Listing and reading the segment files, and deserializing each payload
//! into a `WalEntry`, are the caller's part.
use vstd::bytes::*;
use vstd::prelude::*;
use vstd::slice::slice_subrange;

use crate::common::error::RutSeriError;
use crate::storage::wal::entry::{
    decode_frame, frame_at, frame_bytes, lemma_frame_roundtrip, WalEntry, WalRecord, WAL_RECORD_OVERHEAD,
};

verus! {

/// The records read from the start of `buf`, one after the other, and how
/// reading stopped: `None` at a position that holds no complete record,
/// or `Some((seq, stored, actual, rest))` at a record whose stored CRC
/// differs from its computed one, with `rest` bytes after that record.
pub open spec fn scan_records(buf: Seq<u8>) -> (Seq<(u64, Seq<u8>)>, Option<(u64, u32, u32, int)>)
    decreases buf.len(),
{
    match frame_at(buf) {
        None => (Seq::empty(), None),
        Some((seq, payload, stored, actual, total)) => {
            if stored != actual {
                (Seq::empty(), Some((seq, stored, actual, buf.len() - total)))
            } else {
                let rest = scan_records(buf.subrange(total, buf.len() as int));
                (seq![(seq, payload)] + rest.0, rest.1)
            }
        },
    }
}

/// Whether reading a segment fails: a CRC mismatch anywhere but at the very
/// end of the last segment.
pub open spec fn segment_corrupt(buf: Seq<u8>, last_segment: bool) -> bool {
    match scan_records(buf).1 {
        None => false,
        Some((_, _, _, rest)) => !(last_segment && rest == 0),
    }
}

/// The records of a list, each as its sequence number and payload bytes.
pub open spec fn record_views(v: Seq<(u64, Vec<u8>)>) -> Seq<(u64, Seq<u8>)> {
    v.map_values(|r: (u64, Vec<u8>)| (r.0, r.1@))
}

/// The bytes of records written one after the other.
pub open spec fn frames_of(records: Seq<(u64, Seq<u8>)>) -> Seq<u8>
    decreases records.len(),
{
    if records.len() == 0 {
        Seq::empty()
    } else {
        frame_bytes(records[0].0, records[0].1) + frames_of(records.drop_first())
    }
}

/// Reads the records of one segment (see `scan_records`). A CRC mismatch
/// is dropped with everything after it when it ends the last segment, and
/// is `WalCorruption` otherwise.
pub fn read_segment(buf: &[u8], last_segment: bool) -> (r: Result<Vec<(u64, Vec<u8>)>, RutSeriError>)
    ensures
        segment_corrupt(buf@, last_segment) <==> r is Err,
        r matches Err(e) ==> e is WalCorruption,
        r matches Ok(v) ==> record_views(v@) == scan_records(buf@).0,
{
    let n = buf.len();
    let mut pos: usize = 0;
    let mut out: Vec<(u64, Vec<u8>)> = Vec::new();
    proof {
        assert(buf@.subrange(0, n as int) =~= buf@);
    }
    while pos < n
        invariant
            n == buf@.len(),
            0 <= pos <= n,
            scan_records(buf@).0 == record_views(out@) + scan_records(buf@.subrange(pos as int, n as int)).0,
            scan_records(buf@).1 == scan_records(buf@.subrange(pos as int, n as int)).1,
        decreases n - pos,
    {
        let rest = slice_subrange(buf, pos, n);
        let ghost rest_view = buf@.subrange(pos as int, n as int);
        assert(rest@ == rest_view);
        match decode_frame(rest) {
            Ok(None) => {
                proof {
                    assert(scan_records(rest_view).0 =~= Seq::<(u64, Seq<u8>)>::empty());
                    assert(record_views(out@) + Seq::<(u64, Seq<u8>)>::empty() =~= record_views(out@));
                }
                return Ok(out);
            },
            Ok(Some((seq, payload, total))) => {
                let ghost before = out@;
                let ghost pv = payload@;
                out.push((seq, payload));
                proof {
                    let tail = rest_view.subrange(total as int, rest_view.len() as int);
                    assert(tail =~= buf@.subrange(pos + total, n as int));
                    assert(record_views(out@) =~= record_views(before).push((seq, pv)));
                    assert(scan_records(rest_view).0 == seq![(seq, pv)] + scan_records(tail).0);
                    assert(record_views(before) + (seq![(seq, pv)] + scan_records(tail).0) =~= record_views(
                        out@,
                    ) + scan_records(tail).0);
                }
                pos = pos + total;
            },
            Err(_) => {
                let len = u32_from_le_bytes(slice_subrange(rest, 12, 16)) as usize;
                let end = 20 + len;
                proof {
                    assert(rest@.subrange(12, 16) =~= rest_view.subrange(12, 16));
                }
                if last_segment && pos + end == n {
                    proof {
                        assert(scan_records(rest_view).0 =~= Seq::<(u64, Seq<u8>)>::empty());
                        assert(record_views(out@) + Seq::<(u64, Seq<u8>)>::empty() =~= record_views(out@));
                    }
                    return Ok(out);
                }
                return Err(RutSeriError::WalCorruption("CRC mismatch before the end of the WAL".to_owned()));
            },
        }
    }
    proof {
        assert(buf@.subrange(n as int, n as int) =~= Seq::<u8>::empty());
        assert(scan_records(Seq::<u8>::empty()).0 =~= Seq::<(u64, Seq<u8>)>::empty());
        assert(record_views(out@) + Seq::<(u64, Seq<u8>)>::empty() =~= record_views(out@));
    }
    Ok(out)
}

/// Records written one after the other read back as they were written,
/// with nothing to report at the end.
pub proof fn lemma_segment_roundtrip(records: Seq<(u64, Seq<u8>)>)
    requires
        forall|i: int| 0 <= i < records.len() ==> (#[trigger] records[i]).1.len() <= u32::MAX,
    ensures
        scan_records(frames_of(records)) == (records, None::<(u64, u32, u32, int)>),
    decreases records.len(),
{
    if records.len() == 0 {
        assert(frame_at(Seq::<u8>::empty()) is None);
        assert(scan_records(Seq::<u8>::empty()).0 =~= Seq::<(u64, Seq<u8>)>::empty());
    } else {
        let first = records[0];
        let rest = records.drop_first();
        assert forall|i: int| 0 <= i < rest.len() implies (#[trigger] rest[i]).1.len() <= u32::MAX by {
            assert(rest[i] == records[i + 1]);
        }
        lemma_segment_roundtrip(rest);
        let fb = frame_bytes(first.0, first.1);
        let all = frames_of(records);
        assert(all == fb + frames_of(rest));
        lemma_frame_roundtrip(first.0, first.1, frames_of(rest));
        assert(all.subrange(fb.len() as int, all.len() as int) =~= frames_of(rest));
        assert(seq![(first.0, first.1)] + rest =~= records);
    }
}

/// A strict prefix of a record is not a complete record.
pub proof fn lemma_torn_frame(seq: u64, payload: Seq<u8>, k: int)
    requires
        payload.len() <= u32::MAX,
        0 <= k < frame_bytes(seq, payload).len(),
    ensures
        frame_at(frame_bytes(seq, payload).subrange(0, k)) is None,
{
    let fb = frame_bytes(seq, payload);
    let empty = Seq::<u8>::empty();
    lemma_frame_roundtrip(seq, payload, empty);
    assert(fb + empty =~= fb);
    let t = fb.subrange(0, k);
    if t.len() >= WAL_RECORD_OVERHEAD && t.subrange(0, 4) == fb.subrange(0, 4) {
        assert(t.subrange(12, 16) =~= fb.subrange(12, 16));
    }
}

/// A crash that tears the record being written loses that record alone:
/// the records written before it read back as they were written.
pub proof fn lemma_torn_tail(records: Seq<(u64, Seq<u8>)>, seq: u64, payload: Seq<u8>, k: int)
    requires
        forall|i: int| 0 <= i < records.len() ==> (#[trigger] records[i]).1.len() <= u32::MAX,
        payload.len() <= u32::MAX,
        0 <= k < frame_bytes(seq, payload).len(),
    ensures
        scan_records(frames_of(records) + frame_bytes(seq, payload).subrange(0, k)) == (
            records,
            None::<(u64, u32, u32, int)>,
        ),
    decreases records.len(),
{
    let torn = frame_bytes(seq, payload).subrange(0, k);
    if records.len() == 0 {
        lemma_torn_frame(seq, payload, k);
        assert(frames_of(records) + torn =~= torn);
        assert(scan_records(torn).0 =~= Seq::<(u64, Seq<u8>)>::empty());
    } else {
        let first = records[0];
        let rest = records.drop_first();
        assert forall|i: int| 0 <= i < rest.len() implies (#[trigger] rest[i]).1.len() <= u32::MAX by {
            assert(rest[i] == records[i + 1]);
        }
        lemma_torn_tail(rest, seq, payload, k);
        let fb = frame_bytes(first.0, first.1);
        let all = frames_of(records) + torn;
        assert(all =~= fb + (frames_of(rest) + torn));
        lemma_frame_roundtrip(first.0, first.1, frames_of(rest) + torn);
        assert(all.subrange(fb.len() as int, all.len() as int) =~= frames_of(rest) + torn);
        assert(seq![(first.0, first.1)] + rest =~= records);
    }
}

/// Position of the last `Checkpoint` record, or -1 when there is none.
pub open spec fn last_checkpoint(records: Seq<WalRecord>) -> int
    decreases records.len(),
{
    if records.len() == 0 {
        -1
    } else if records.last().entry is Checkpoint {
        records.len() - 1
    } else {
        last_checkpoint(records.drop_last())
    }
}

/// The `Write` records of a list, in order.
pub open spec fn writes_of(records: Seq<WalRecord>) -> Seq<WalRecord>
    decreases records.len(),
{
    if records.len() == 0 {
        Seq::empty()
    } else if records.last().entry is Write {
        writes_of(records.drop_last()).push(records.last())
    } else {
        writes_of(records.drop_last())
    }
}

/// The records a recovery replays: the `Write` records after the last
/// `Checkpoint` (all of them when there is none), in log order.
pub open spec fn replayed(records: Seq<WalRecord>) -> Seq<WalRecord> {
    writes_of(records.subrange(last_checkpoint(records) + 1, records.len() as int))
}

/// `last_checkpoint` lies in range and no checkpoint follows it.
pub proof fn lemma_last_checkpoint(records: Seq<WalRecord>)
    ensures
        -1 <= last_checkpoint(records) < records.len(),
        last_checkpoint(records) >= 0 ==> records[last_checkpoint(records)].entry is Checkpoint,
        forall|i: int|
            last_checkpoint(records) < i < records.len() ==> !((#[trigger] records[i]).entry is Checkpoint),
    decreases records.len(),
{
    if records.len() > 0 && !(records.last().entry is Checkpoint) {
        let init = records.drop_last();
        lemma_last_checkpoint(init);
        assert forall|i: int| last_checkpoint(records) < i < records.len() implies !((
        #[trigger] records[i]).entry is Checkpoint) by {
            if i < records.len() - 1 {
                assert(records[i] == init[i]);
            }
        }
    }
}

/// Picks the records to replay from all records read, in log order (see
/// `replayed`), and the sequence number of the last of them (0 if none).
pub fn select_replay(records: Vec<WalRecord>) -> (r: (Vec<WalRecord>, u64))
    ensures
        r.0@ == replayed(records@),
        r.1 == if r.0@.len() == 0 {
            0
        } else {
            r.0@.last().seq
        },
{
    let ghost all = records@;
    let n = records.len();
    let mut cp: usize = 0;
    let mut i: usize = 0;
    proof {
        lemma_last_checkpoint(all);
    }
    while i < n
        invariant
            n == all.len(),
            all == records@,
            0 <= i <= n,
            cp <= i,
            cp as int == last_checkpoint(all.subrange(0, i as int)) + 1,
        decreases n - i,
    {
        proof {
            assert(all.subrange(0, i + 1).drop_last() =~= all.subrange(0, i as int));
            assert(all.subrange(0, i + 1).last() == all[i as int]);
        }
        if let WalEntry::Checkpoint { .. } = &records[i].entry {
            cp = i + 1;
        }
        i = i + 1;
    }
    proof {
        assert(all.subrange(0, n as int) =~= all);
    }
    let mut out: Vec<WalRecord> = Vec::new();
    let mut last_seq: u64 = 0;
    let mut k: usize = 0;
    let ghost tail = all.subrange(cp as int, n as int);
    for rec in it: records
        invariant
            it.seq() == all,
            k == it.index(),
            n == all.len(),
            cp <= n,
            tail == all.subrange(cp as int, n as int),
            it.index() < cp ==> out@.len() == 0,
            it.index() >= cp ==> out@ == writes_of(all.subrange(cp as int, it.index() as int)),
            last_seq == if out@.len() == 0 {
                0
            } else {
                out@.last().seq
            },
    {
        let ghost j = it.index();
        proof {
            assert(rec == all[j as int]);
        }
        if k >= cp {
            proof {
                let s = all.subrange(cp as int, j + 1);
                assert(s.drop_last() =~= all.subrange(cp as int, j as int));
                assert(s.last() == rec);
                if j == cp {
                    assert(all.subrange(cp as int, j as int) =~= Seq::<WalRecord>::empty());
                }
            }
            let is_write = match &rec.entry {
                WalEntry::Write { .. } => true,
                WalEntry::Checkpoint { .. } => false,
            };
            if is_write {
                last_seq = rec.seq;
                out.push(rec);
            }
        } else {
            proof {
                if j + 1 == cp {
                    assert(all.subrange(cp as int, (j + 1) as int) =~= Seq::<WalRecord>::empty());
                }
            }
        }
        k = k + 1;
    }
    proof {
        if n < cp || n == cp {
            assert(all.subrange(cp as int, n as int) =~= Seq::<WalRecord>::empty());
        }
    }
    (out, last_seq)
}

/// Recovery replays every `Write` after the last `Checkpoint` and nothing
/// before it.
pub proof fn lemma_replay_after_checkpoint(records: Seq<WalRecord>, i: int)
    requires
        0 <= i < records.len(),
    ensures
        i > last_checkpoint(records) && records[i].entry is Write ==> replayed(records).contains(records[i]),
        forall|j: int|
            0 <= j < replayed(records).len() ==> (#[trigger] replayed(records)[j]).entry is Write,
{
    lemma_last_checkpoint(records);
    let lo = last_checkpoint(records) + 1;
    let tail = records.subrange(lo, records.len() as int);
    lemma_writes_of(tail);
    if i > last_checkpoint(records) && records[i].entry is Write {
        assert(tail[i - lo] == records[i]);
    }
}

/// What `writes_of` keeps: every `Write` of the list and nothing else.
pub proof fn lemma_writes_of(records: Seq<WalRecord>)
    ensures
        forall|j: int| 0 <= j < writes_of(records).len() ==> (#[trigger] writes_of(records)[j]).entry is Write,
        forall|i: int|
            0 <= i < records.len() && (#[trigger] records[i]).entry is Write ==> writes_of(records).contains(
                records[i],
            ),
    decreases records.len(),
{
    if records.len() > 0 {
        let init = records.drop_last();
        lemma_writes_of(init);
        let w = writes_of(records);
        let w0 = writes_of(init);
        assert forall|i: int| 0 <= i < records.len() && (#[trigger] records[i]).entry is Write implies w.contains(
            records[i],
        ) by {
            if i < records.len() - 1 {
                assert(records[i] == init[i]);
                let k = choose|k: int| 0 <= k < w0.len() && w0[k] == init[i];
                assert(w[k] == w0[k]);
            } else {
                assert(w[w.len() - 1] == records[i]);
            }
        }
    }
}

/// Reads WAL segments for crash recovery.
#[derive(Debug, Clone, Copy)]
pub struct WalReader;

} // verus!
