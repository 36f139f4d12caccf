use rutseridb::common::error::RutSeriError;
use rutseridb::storage::part::encoding::{
    delta_decode_i64, delta_delta_decode_i64, delta_delta_encode_i64, delta_encode_i64, lz4_compress,
    lz4_decompress, Dictionary,
};

#[test]
fn delta_encoding_example() {
    let values = [1_700_000_000i64, 1_700_000_010, 1_700_000_020];
    let enc = delta_encode_i64(&values);
    assert_eq!(enc, vec![1_700_000_000, 10, 10]);
    assert_eq!(delta_decode_i64(&enc), values.to_vec());
}

#[test]
fn delta_encoding_empty_and_single() {
    assert!(delta_encode_i64(&[]).is_empty());
    assert_eq!(delta_encode_i64(&[7]), vec![7]);
    assert_eq!(delta_decode_i64(&[7]), vec![7]);
}

#[test]
fn delta_encoding_wraps_on_overflow() {
    let values = [i64::MIN, i64::MAX, 0];
    let enc = delta_encode_i64(&values);
    assert_eq!(enc, vec![i64::MIN, -1, -i64::MAX]);
    assert_eq!(delta_decode_i64(&enc), values.to_vec());
}

#[test]
fn delta_delta_encoding_regular_series() {
    let values = [100i64, 110, 120, 130, 145];
    let enc = delta_delta_encode_i64(&values);
    assert_eq!(enc, vec![100, 10, 0, 0, 5]);
    assert_eq!(delta_delta_decode_i64(&enc), values.to_vec());
}

#[test]
fn delta_delta_roundtrip_short_inputs() {
    for v in [vec![], vec![5i64], vec![5, -3]] {
        assert_eq!(delta_delta_decode_i64(&delta_delta_encode_i64(&v)), v);
    }
}

#[test]
fn dictionary_roundtrip() {
    let values: Vec<String> = ["web", "db", "web", "cache", "db"].iter().map(|s| s.to_string()).collect();
    let (dict, codes) = Dictionary::encode(&values).unwrap();
    assert_eq!(dict.values, vec!["web".to_string(), "db".to_string(), "cache".to_string()]);
    assert_eq!(codes, vec![0, 1, 0, 2, 1]);
    assert_eq!(dict.decode(&codes), values);
    assert_eq!(dict.index.get("web"), Some(&0));
    assert_eq!(dict.index.get("db"), Some(&1));
    assert_eq!(dict.index.get("cache"), Some(&2));
    assert_eq!(dict.index.get("mq"), None);
}

#[test]
fn dictionary_too_many_values() {
    let values: Vec<String> = (0..65_536).map(|i| format!("v{i}")).collect();
    match Dictionary::encode(&values) {
        Err(RutSeriError::InvalidPartFile(_)) => {}
        other => panic!("expected InvalidPartFile, got {other:?}"),
    }
}

#[test]
fn dictionary_at_limit_is_accepted() {
    let values: Vec<String> = (0..65_535).map(|i| format!("v{i}")).collect();
    let (dict, codes) = Dictionary::encode(&values).unwrap();
    assert_eq!(dict.values.len(), 65_535);
    assert_eq!(codes[65_534], 65_534);
}

#[test]
fn lz4_roundtrip() {
    let data: Vec<u8> = b"hello hello hello hello time series".to_vec();
    let c = lz4_compress(&data);
    assert_ne!(c, data);
    assert_eq!(lz4_decompress(&c).unwrap(), data);
}

#[test]
fn lz4_rejects_garbage() {
    match lz4_decompress(&[0xff, 0xff, 0xff, 0x7f, 1, 2, 3]) {
        Err(RutSeriError::InvalidPartFile(m)) => {
            assert!(m.starts_with("LZ4 decompression failed: "));
            assert!(m.len() > "LZ4 decompression failed: ".len());
        }
        other => panic!("expected InvalidPartFile, got {other:?}"),
    }
}
