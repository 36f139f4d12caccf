use rutseridb::storage::wal::writer::WalSequence;
use rutseridb::common::error::RutSeriError;
use rutseridb::storage::wal::entry::{crc32, decode_frame, encode_frame, WAL_RECORD_OVERHEAD};

#[test]
fn crc32_check_value() {
    assert_eq!(crc32(b"123456789"), 0xCBF4_3926);
    assert_eq!(crc32(b""), 0);
}

#[test]
fn frame_roundtrip() {
    let payload = b"{\"Write\":{}}".to_vec();
    let frame = encode_frame(42, &payload);
    assert_eq!(frame.len(), payload.len() + WAL_RECORD_OVERHEAD);
    assert_eq!(&frame[0..4], b"RWAL");
    let (seq, p, n) = decode_frame(&frame).unwrap().unwrap();
    assert_eq!(seq, 42);
    assert_eq!(p, payload);
    assert_eq!(n, frame.len());
}

#[test]
fn frame_followed_by_more_bytes() {
    let mut buf = encode_frame(1, b"a");
    let first = buf.len();
    buf.extend(encode_frame(2, b"bc"));
    let (seq, _, n) = decode_frame(&buf).unwrap().unwrap();
    assert_eq!((seq, n), (1, first));
    let (seq2, p2, _) = decode_frame(&buf[n..]).unwrap().unwrap();
    assert_eq!((seq2, p2), (2, b"bc".to_vec()));
}

#[test]
fn truncated_frame_is_none() {
    let frame = encode_frame(7, b"payload");
    assert!(decode_frame(&frame[..frame.len() - 1]).unwrap().is_none());
    assert!(decode_frame(&frame[..10]).unwrap().is_none());
}

#[test]
fn bad_magic_is_none() {
    let mut frame = encode_frame(7, b"payload");
    frame[0] = b'X';
    assert!(decode_frame(&frame).unwrap().is_none());
}

#[test]
fn corrupted_frame_reports_crc_mismatch() {
    let mut frame = encode_frame(7, b"payload");
    frame[17] ^= 0x01;
    match decode_frame(&frame) {
        Err(RutSeriError::WalCrcMismatch { seq, expected, actual }) => {
            assert_eq!(seq, 7);
            assert_ne!(expected, actual);
        }
        other => panic!("expected a CRC mismatch, got {other:?}"),
    }
}

use rutseridb::storage::wal::entry::{WalEntry, WalRecord};
use rutseridb::storage::wal::reader::{read_segment, select_replay};

#[test]
fn segment_reads_back_its_records() {
    let mut seg = encode_frame(1, b"one");
    seg.extend(encode_frame(2, b""));
    seg.extend(encode_frame(3, b"three"));
    let recs = read_segment(&seg, false).unwrap();
    assert_eq!(recs, vec![(1, b"one".to_vec()), (2, vec![]), (3, b"three".to_vec())]);
}

#[test]
fn segment_with_torn_tail() {
    let mut seg = encode_frame(1, b"one");
    let full = encode_frame(2, b"two");
    seg.extend(&full[..full.len() - 3]);
    assert_eq!(read_segment(&seg, false).unwrap(), vec![(1, b"one".to_vec())]);
    assert_eq!(read_segment(&[], true).unwrap(), vec![]);
}

#[test]
fn crc_mismatch_at_the_end_of_the_last_segment_is_dropped() {
    let mut seg = encode_frame(1, b"one");
    let mut bad = encode_frame(2, b"two");
    bad[18] ^= 0xff;
    seg.extend(&bad);
    assert_eq!(read_segment(&seg, true).unwrap(), vec![(1, b"one".to_vec())]);
    match read_segment(&seg, false) {
        Err(RutSeriError::WalCorruption(_)) => {}
        other => panic!("expected WalCorruption, got {other:?}"),
    }
}

#[test]
fn crc_mismatch_in_the_middle_is_corruption() {
    let mut bad = encode_frame(1, b"one");
    bad[17] ^= 0xff;
    let mut seg = bad;
    seg.extend(encode_frame(2, b"two"));
    assert!(matches!(read_segment(&seg, true), Err(RutSeriError::WalCorruption(_))));
}

fn write(seq: u64) -> WalRecord {
    WalRecord { seq, entry: WalEntry::Write { table: "t".to_string(), rows: vec![] } }
}

fn checkpoint(seq: u64) -> WalRecord {
    WalRecord { seq, entry: WalEntry::Checkpoint { seq: seq - 1, catalog_ver: 1 } }
}

#[test]
fn replay_starts_after_last_checkpoint() {
    let (recs, last) = select_replay(vec![write(1), checkpoint(2), write(3), checkpoint(4), write(5), write(6)]);
    assert_eq!(recs.iter().map(|r| r.seq).collect::<Vec<_>>(), vec![5, 6]);
    assert_eq!(last, 6);
}

#[test]
fn replay_without_checkpoint_replays_all_writes() {
    let (recs, last) = select_replay(vec![write(1), write(2)]);
    assert_eq!(recs.len(), 2);
    assert_eq!(last, 2);
    let (recs, last) = select_replay(vec![write(1), checkpoint(2)]);
    assert!(recs.is_empty());
    assert_eq!(last, 0);
    let (recs, last) = select_replay(vec![]);
    assert!(recs.is_empty());
    assert_eq!(last, 0);
}

#[test]
fn wal_sequence_numbers_and_rotation() {
    let mut s = WalSequence::new(100);
    assert_eq!((s.segment_number(), s.next_seq(), s.current_seq()), (1, 1, 0));
    assert_eq!(s.assign(), 1);
    assert!(!s.record_written(60));
    assert_eq!(s.assign(), 2);
    assert!(!s.record_written(40));
    assert_eq!(s.segment_number(), 1);
    assert_eq!(s.assign(), 3);
    // 100 + 1 exceeds the limit: the next record goes to a new segment.
    assert!(s.record_written(1));
    assert_eq!(s.segment_number(), 2);
    assert_eq!(s.current_seq(), 3);
    assert!(s.record_written(u64::MAX));
    assert_eq!(s.segment_number(), 3);
    assert_eq!(s.assign(), 4);
}
