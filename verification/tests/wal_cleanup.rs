use rutseridb::background::wal_cleanup::{deletable_segments, segment_last_seq};
use rutseridb::storage::wal::entry::encode_frame;

#[test]
fn last_seq_of_segment() {
    let mut seg = encode_frame(3, b"a");
    seg.extend(encode_frame(4, b"b"));
    assert_eq!(segment_last_seq(&seg), Some(4));
    assert_eq!(segment_last_seq(&[]), None);
    // A damaged record makes the segment unreadable here.
    let mut bad = seg.clone();
    let n = bad.len();
    bad[n - 1] ^= 0xFF;
    assert_eq!(segment_last_seq(&bad), None);
}

#[test]
fn deletable_segments_keep_newest_and_unflushed() {
    let lasts = [Some(10), None, Some(20), Some(25), Some(5)];
    assert_eq!(deletable_segments(&lasts, 20), vec![0, 2]);
    assert_eq!(deletable_segments(&lasts, 100), vec![0, 2, 3]);
    assert_eq!(deletable_segments(&lasts, 9), Vec::<usize>::new());
    assert!(deletable_segments(&[Some(1)], 100).is_empty());
    assert!(deletable_segments(&[], 100).is_empty());
}
