use rutseridb::common::error::RutSeriError;
use rutseridb::storage::index::bloom::{BloomFilter, BloomFilterSet};
use rutseridb::storage::index::minmax::MinMaxIndex;
use rutseridb::storage::part::format::{FileHeader, Footer, FILE_HEADER_SIZE, FOOTER_SIZE, FORMAT_VERSION};
use rutseridb::storage::part::reader::PartReader;
use rutseridb::storage::part::writer::PartWriter;
use rutseridb::storage::wal::entry::crc32;

fn header(num_columns: u32) -> FileHeader {
    FileHeader {
        version: FORMAT_VERSION,
        flags: 0,
        num_columns,
        num_rows: 3,
        min_timestamp: -5,
        max_timestamp: 1_700_000_000_000_000_000,
        part_id: 0x0123_4567_89ab_cdef_0011_2233_4455_6677,
        created_at: 1_700_000_000,
    }
}

#[test]
fn footer_roundtrip() {
    let f = Footer { minmax_index_offset: 64, bloom_offset: 0, dict_pages_offset: 100, file_crc32: 0xdead_beef };
    let bytes = f.to_bytes();
    assert_eq!(bytes.len(), FOOTER_SIZE);
    assert_eq!(&bytes[0..4], b"RPRT");
    assert_eq!(Footer::from_bytes(&bytes).unwrap(), f);
}

#[test]
fn footer_bad_magic() {
    let mut bytes = [0u8; FOOTER_SIZE];
    bytes[0] = b'X';
    assert!(matches!(Footer::from_bytes(&bytes), Err(RutSeriError::InvalidPartFile(_))));
}

#[test]
fn header_roundtrip() {
    let h = header(7);
    let bytes = h.to_bytes();
    assert_eq!(bytes.len(), FILE_HEADER_SIZE);
    let back = FileHeader::from_bytes(&bytes).unwrap();
    assert_eq!(back.num_columns, 7);
    assert_eq!(back.num_rows, 3);
    assert_eq!(back.min_timestamp, -5);
    assert_eq!(back.max_timestamp, 1_700_000_000_000_000_000);
    assert_eq!(back.created_at, 1_700_000_000);
    assert_eq!(back.part_id, 0x0123_4567_89ab_cdef_0011_2233_4455_6677);
}

#[test]
fn header_other_version() {
    let mut h = header(1);
    h.version = 2;
    let bytes = h.to_bytes();
    assert!(matches!(FileHeader::from_bytes(&bytes), Err(RutSeriError::UnsupportedVersion(2))));
}

fn part_file(minmax: &MinMaxIndex, bloom: Option<&BloomFilterSet>) -> Vec<u8> {
    let mut file = header(minmax.entries.len() as u32).to_bytes().to_vec();
    let minmax_off = file.len() as u64;
    file.extend(minmax.to_bytes());
    let dict_off = file.len() as u64;
    let bloom_off = match bloom {
        Some(b) => {
            let off = file.len() as u64;
            file.extend(b.to_bytes());
            off
        }
        None => 0,
    };
    let footer = Footer { minmax_index_offset: minmax_off, bloom_offset: bloom_off, dict_pages_offset: dict_off, file_crc32: 0 };
    file.extend(footer.to_bytes());
    file
}

#[test]
fn reader_reads_minmax_and_bloom() {
    let mut mm = MinMaxIndex::new();
    mm.add_entry(0, "timestamp".to_string(), 10, 20);
    mm.add_entry(1, "cpu".to_string(), 1, 99);
    let mut f = BloomFilter::with_size("host".to_string(), 64, 3);
    f.insert(b"web-01");
    let mut set = BloomFilterSet::new();
    set.add(f);
    let file = part_file(&mm, Some(&set));

    let idx = PartReader::read_minmax(&file).unwrap();
    assert_eq!(idx.entries.len(), 2);
    assert_eq!((idx.entries[1].col_idx, idx.entries[1].min_val, idx.entries[1].max_val), (1, 1, 99));

    let blooms = PartReader::read_bloom(&file).unwrap().unwrap();
    let host = blooms.get("host").unwrap();
    assert!(host.may_contain(b"web-01"));
}

#[test]
fn reader_without_bloom_section() {
    let mut mm = MinMaxIndex::new();
    mm.add_entry(0, "timestamp".to_string(), 1, 2);
    let file = part_file(&mm, None);
    assert!(PartReader::read_bloom(&file).unwrap().is_none());
}

#[test]
fn reader_rejects_short_file() {
    assert!(matches!(PartReader::read_minmax(&[0u8; 50]), Err(RutSeriError::InvalidPartFile(_))));
}

#[test]
fn reader_rejects_bad_section_bounds() {
    let mm = MinMaxIndex::new();
    let mut file = part_file(&mm, None);
    let n = file.len();
    let footer = Footer { minmax_index_offset: 70, bloom_offset: 0, dict_pages_offset: 60, file_crc32: 0 };
    file[n - FOOTER_SIZE..].copy_from_slice(&footer.to_bytes());
    assert!(matches!(PartReader::read_minmax(&file), Err(RutSeriError::InvalidPartFile(_))));
}

#[test]
fn writer_layout_reads_back() {
    let mut mm = MinMaxIndex::new();
    mm.add_entry(0, "timestamp".to_string(), 10, 20);
    mm.add_entry(1, "cpu".to_string(), 1, 99);
    let mut f = BloomFilter::with_size("host".to_string(), 64, 3);
    f.insert(b"web-01");
    let mut set = BloomFilterSet::new();
    set.add(f);
    let columns = vec![7u8; 10];
    let dict = vec![1u8, 2, 3];
    let file = PartWriter::assemble(&header(2), &columns, &mm, &dict, &Some(set));

    // Header, column blocks, 2 MinMax entries, dictionary, Bloom section, footer.
    assert_eq!(&file[..FILE_HEADER_SIZE], &header(2).to_bytes()[..]);
    assert_eq!(&file[64..74], &columns[..]);
    let footer_bytes: [u8; FOOTER_SIZE] = file[file.len() - FOOTER_SIZE..].try_into().unwrap();
    let footer = Footer::from_bytes(&footer_bytes).unwrap();
    assert_eq!(footer.minmax_index_offset, 74);
    assert_eq!(footer.dict_pages_offset, 74 + 36);
    assert_eq!(footer.bloom_offset, 74 + 36 + 3);
    assert_eq!(footer.file_crc32, crc32(&file[..file.len() - 4]));

    let idx = PartReader::read_minmax(&file).unwrap();
    assert_eq!(idx.entries.len(), 2);
    assert_eq!((idx.entries[0].col_idx, idx.entries[0].min_val, idx.entries[0].max_val), (0, 10, 20));
    assert_eq!((idx.entries[1].col_idx, idx.entries[1].min_val, idx.entries[1].max_val), (1, 1, 99));
    let blooms = PartReader::read_bloom(&file).unwrap().unwrap();
    assert!(blooms.get("host").unwrap().may_contain(b"web-01"));
}

#[test]
fn writer_layout_without_bloom() {
    let mut mm = MinMaxIndex::new();
    mm.add_entry(0, "timestamp".to_string(), 1, 2);
    let file = PartWriter::assemble(&header(1), &[], &mm, &[], &None);
    assert_eq!(file.len(), 64 + 18 + 32);
    assert!(PartReader::read_bloom(&file).unwrap().is_none());
    let idx = PartReader::read_minmax(&file).unwrap();
    assert_eq!((idx.entries[0].min_val, idx.entries[0].max_val), (1, 2));
}
