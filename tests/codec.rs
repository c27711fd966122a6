use infinite_cookbook::codec::{compress_snapshot, decode_snapshot, decompression_capacity, PersistenceError};

#[test]
fn capacity_is_ten_times_file_size() {
    assert_eq!(decompression_capacity(0), Some(0));
    assert_eq!(decompression_capacity(7), Some(70));
    assert_eq!(decompression_capacity(u64::MAX), None);
}

#[test]
fn snapshot_bytes_round_trip() {
    let text = "(items:[(name:\"Steam\",emoji:\"💨\",is_new:true,parents:[(\"Fire\",\"Water\")])])";
    let packed = compress_snapshot(text).unwrap();
    assert_ne!(packed, text.as_bytes().to_vec());
    assert_eq!(&packed[..4], &[0x28, 0xb5, 0x2f, 0xfd]);
    let back = decode_snapshot(&packed, packed.len() as u64).unwrap();
    assert_eq!(back, text);
}

#[test]
fn undersized_buffer_fails() {
    let text = "a".repeat(10_000);
    let packed = compress_snapshot(&text).unwrap();
    assert_eq!(decode_snapshot(&packed, 10), Err(PersistenceError::Decompression));
    assert_eq!(decode_snapshot(&packed, u64::MAX), Err(PersistenceError::CapacityOverflow));
}

#[test]
fn garbage_is_not_a_snapshot() {
    assert_eq!(decode_snapshot(b"not zstd at all", 15), Err(PersistenceError::Decompression));
}

#[test]
fn non_utf8_content_fails() {
    let bytes = zstd::bulk::compress(&[0xff, 0xfe, 0x00], 5).unwrap();
    assert_eq!(decode_snapshot(&bytes, bytes.len() as u64), Err(PersistenceError::Encoding));
}

#[test]
fn empty_text_round_trips() {
    let packed = compress_snapshot("").unwrap();
    assert_eq!(decode_snapshot(&packed, packed.len() as u64), Ok(String::new()));
}
