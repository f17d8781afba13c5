use sunsetdb::{append_deletion, append_string, parse_u64_bytes, read_check_string, read_string_at_offset, read_u64_bytes, ReadError};

#[test]
fn record_layout_is_length_bytes_checksum() {
    let mut log = Vec::new();
    append_string(&mut log, "ab");
    assert_eq!(log, vec![0, 0, 0, 0, 0, 0, 0, 2, b'a', b'b', 0x9e, 0x83, 0x48, 0x6d]);
}

#[test]
fn tombstone_is_the_high_bit() {
    let mut log = vec![1u8];
    append_deletion(&mut log);
    assert_eq!(log, vec![1, 0x80, 0, 0, 0, 0, 0, 0, 0]);
    assert!(matches!(read_check_string(&log, 1), Ok(None)));
}

#[test]
fn parse_u64_bytes_is_big_endian() {
    assert_eq!(parse_u64_bytes([0, 0, 0, 0, 0, 0, 1, 2]).unwrap(), 258);
    assert_eq!(parse_u64_bytes([0x80, 0, 0, 0, 0, 0, 0, 0]).unwrap(), 1u64 << 63);
    assert_eq!(parse_u64_bytes([0xff; 8]).unwrap(), u64::MAX);
}

#[test]
fn read_u64_bytes_reads_eight_bytes() {
    let log = [9u8, 1, 2, 3, 4, 5, 6, 7, 8];
    assert_eq!(read_u64_bytes(&log, 1).unwrap(), [1, 2, 3, 4, 5, 6, 7, 8]);
    assert!(matches!(read_u64_bytes(&log, 2), Err(ReadError::IOError(_))));
}

#[test]
fn read_back_a_written_record() {
    let mut log = Vec::new();
    append_string(&mut log, "first");
    let second = log.len() as u64;
    append_string(&mut log, "sécond");
    assert_eq!(read_check_string(&log, 0).unwrap(), Some("first".to_string()));
    assert_eq!(read_string_at_offset(&log, second).unwrap(), Some("sécond".to_string()));
    assert!(matches!(read_string_at_offset(&log, log.len() as u64 + 5), Err(ReadError::IOError(_))));
}

#[test]
fn damaged_checksum_reports_both_values() {
    let mut log = Vec::new();
    append_string(&mut log, "ab");
    log[13] = 0x00;
    match read_check_string(&log, 0) {
        Err(ReadError::InvalidChecksum { expected, found }) => {
            assert_eq!(expected, 0x9e83486d);
            assert_eq!(found, 0x9e834800);
        }
        other => panic!("unexpected {:?}", other),
    }
}

#[test]
fn bytes_that_are_not_utf8_are_refused() {
    let mut log = Vec::new();
    log.extend_from_slice(&1u64.to_be_bytes());
    log.push(0xc3);
    log.extend_from_slice(&crc32fast::hash(&[0xc3]).to_be_bytes());
    assert!(matches!(read_check_string(&log, 0), Err(ReadError::InvalidString { .. })));
}

#[test]
fn short_record_is_an_io_error() {
    let mut log = Vec::new();
    append_string(&mut log, "abc");
    log.truncate(12);
    assert!(matches!(read_check_string(&log, 0), Err(ReadError::IOError(_))));
}
