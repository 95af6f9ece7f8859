use libac_rs::block_reader::DatBlockReader;
use libac_rs::error::DatError;
use libac_rs::range_reader::{http_range_response, MemoryRangeReader, RangeReader};

/// Two 12-byte blocks (4-byte pointer, 8-byte payload each); the second
/// block's pointer is 0.
fn two_block_file() -> Vec<u8> {
    let mut data: Vec<u8> = Vec::new();
    data.extend_from_slice(&20u32.to_le_bytes());
    data.extend_from_slice(b"hello\0\0\0");
    data.resize(20, 0);
    data.extend_from_slice(&0u32.to_le_bytes());
    data.extend_from_slice(b"world\0\0\0");
    data
}

#[test]
fn two_block_chain_crosses_blocks() {
    let mut reader = MemoryRangeReader::new(two_block_file());
    let out = DatBlockReader::read(&mut reader, 0, 10, 12).unwrap();
    assert_eq!(out.len(), 10);
    assert_eq!(&out[0..5], b"hello");
    assert_eq!(&out[5..8], b"\0\0\0");
    assert_eq!(&out[8..10], b"wo");
}

#[test]
fn round_trip_chain_length() {
    let mut reader = MemoryRangeReader::new(two_block_file());
    for size in [0u32, 1, 5, 8, 10, 16] {
        let out = DatBlockReader::read(&mut reader, 0, size, 12).unwrap();
        assert_eq!(out.len(), size as usize);
    }
}

#[test]
fn small_entry_reads_one_request_of_size_plus_four() {
    // The file holds only the pointer and ten payload bytes, and the
    // pointer is garbage: a reader that requested a full block, or
    // dereferenced the pointer, would fail.
    let mut data: Vec<u8> = Vec::new();
    data.extend_from_slice(&0xDEADBEEFu32.to_le_bytes());
    data.extend_from_slice(b"hello\0\0\0\0\0");
    let mut reader = MemoryRangeReader::new(data);
    let out = DatBlockReader::read(&mut reader, 0, 10, 16).unwrap();
    assert_eq!(&out[0..5], b"hello");
    assert_eq!(out.len(), 10);
}

#[test]
fn entry_filling_one_block_terminates_after_one_iteration() {
    // size + 4 equals block_size exactly; the pointer is garbage, so a
    // second iteration would fail.
    let mut data: Vec<u8> = Vec::new();
    data.extend_from_slice(&0xDEADBEEFu32.to_le_bytes());
    data.extend_from_slice(b"abcdefghijkl");
    let mut reader = MemoryRangeReader::new(data);
    let out = DatBlockReader::read(&mut reader, 0, 12, 16).unwrap();
    assert_eq!(&out[..], b"abcdefghijkl");
}

#[test]
fn truncated_chain_is_detected() {
    // Twenty bytes are owed but the second block's next pointer is 0.
    let mut reader = MemoryRangeReader::new(two_block_file());
    let r = DatBlockReader::read(&mut reader, 0, 20, 12);
    assert_eq!(r, Err(DatError::TruncatedChain));
}

#[test]
fn block_size_below_eight_is_invalid_geometry() {
    let mut reader = MemoryRangeReader::new(two_block_file());
    let r = DatBlockReader::read(&mut reader, 0, 10, 7);
    assert_eq!(r, Err(DatError::InvalidGeometry));
    let r = DatBlockReader::read(&mut reader, 0, 10, 0);
    assert_eq!(r, Err(DatError::InvalidGeometry));
}

#[test]
fn zero_size_chain_is_empty() {
    let mut reader = MemoryRangeReader::new(two_block_file());
    let out = DatBlockReader::read(&mut reader, 0, 0, 12).unwrap();
    assert!(out.is_empty());
}

#[test]
fn chain_running_past_the_file_fails() {
    let mut reader = MemoryRangeReader::new(two_block_file());
    let r = DatBlockReader::read(&mut reader, 24, 100, 12);
    assert!(r.is_err());
}

#[test]
fn read_range_returns_exact_window() {
    let mut reader = MemoryRangeReader::new((0u8..=99).collect());
    let out = reader.read_range(10, 5).unwrap();
    assert_eq!(out, vec![10, 11, 12, 13, 14]);
}

#[test]
fn read_range_is_idempotent() {
    let mut reader = MemoryRangeReader::new((0u8..=99).collect());
    let first = reader.read_range(30, 8).unwrap();
    let second = reader.read_range(30, 8).unwrap();
    assert_eq!(first, second);
}

#[test]
fn backends_serving_the_same_archive_agree() {
    let bytes: Vec<u8> = (0u8..=99).collect();
    let mut one = MemoryRangeReader::new(bytes.clone());
    let mut other = MemoryRangeReader::new(bytes);
    assert_eq!(one.read_range(17, 21).unwrap(), other.read_range(17, 21).unwrap());
}

#[test]
fn read_range_out_of_bounds_fails() {
    let mut reader = MemoryRangeReader::new(vec![1, 2, 3]);
    assert_eq!(reader.read_range(0, 4), Err(DatError::InvalidOffset));
    assert_eq!(reader.read_range(4, 1), Err(DatError::InvalidOffset));
}

#[test]
fn http_partial_content_takes_full_body() {
    let r = http_range_response(206, vec![5, 6, 7], 100, 3).unwrap();
    assert_eq!(r, vec![5, 6, 7]);
}

#[test]
fn http_full_body_still_produces_correct_slice() {
    // A server answering 200 with the whole file instead of 206.
    let body: Vec<u8> = (0u8..50).collect();
    let r = http_range_response(200, body, 10, 4).unwrap();
    assert_eq!(r, vec![10, 11, 12, 13]);
}

#[test]
fn http_partial_content_with_wrong_length_is_short_read() {
    let r = http_range_response(206, vec![5, 6], 100, 3);
    assert_eq!(r, Err(DatError::ShortRead));
}

#[test]
fn http_full_body_too_short_is_short_read() {
    let r = http_range_response(200, vec![0, 1, 2], 2, 4);
    assert_eq!(r, Err(DatError::ShortRead));
}

#[test]
fn http_range_not_satisfiable_is_unavailable() {
    assert_eq!(http_range_response(416, vec![0, 1], 0, 2), Err(DatError::RangeUnavailable));
    assert_eq!(http_range_response(500, vec![0, 1], 0, 2), Err(DatError::RangeUnavailable));
    assert_eq!(http_range_response(301, vec![0, 1], 0, 2), Err(DatError::RangeUnavailable));
}
