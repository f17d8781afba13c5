use std::path::{Path, PathBuf};
use sunsetdb::{DeleteError, GetError, ReadError, Segment, SegmentError, SegmentID, SegmentIDError};

const ENCODED_LEN_SIZE: usize = 8;
const CRC32_SIZE: usize = 4;

fn encoded_len(k: &str, v: &str) -> u64 {
    (ENCODED_LEN_SIZE + k.len() + CRC32_SIZE + ENCODED_LEN_SIZE + v.len() + CRC32_SIZE) as u64
}

fn stem_of(path: &Path) -> Option<&str> {
    path.file_stem().and_then(|s| s.to_str())
}

fn open(path: &Path, log: Vec<u8>) -> Result<Segment, SegmentError> {
    Segment::new(path.to_path_buf(), stem_of(path), log)
}

#[test]
fn segment_e2e_test() {
    let id: u64 = 42;
    let segment_path = PathBuf::from("base").join(format!("{}.{}", id, "segment"));
    let mut segment = open(&segment_path, Vec::new()).unwrap();
    assert_eq!(id, segment.id().0);

    let inputs = [
        ("foo", "bar"),
        ("biz", "boo"),
        ("long_one", "continuing"),
        ("biz", "boo2"),
        ("", ""),
        ("", "x"),
    ];

    for (k, v) in inputs {
        let f_size = segment.log().len() as u64;
        segment.insert(k, v).unwrap();
        let delta = segment.log().len() as u64 - f_size;
        assert_eq!(delta, encoded_len(k, v));

        let vv = segment.get(k).unwrap();
        assert_eq!(vv, v);
    }

    let vv = segment.get("biz").unwrap();
    assert_eq!(vv, "boo2");

    let inputs_sum: u64 = inputs.iter().map(|(k, v)| encoded_len(k, v)).sum();
    assert_eq!(segment.log().len() as u64, inputs_sum);

    segment.delete("biz").unwrap();

    let segment_from_disk = open(&segment_path, segment.log().to_vec()).unwrap();
    assert_eq!(segment_from_disk.index(), segment.index());
}

#[test]
fn segment_id_test() {
    let id: u64 = 42;
    let binding = PathBuf::from("base").join(format!("{}.{}", id, "segment"));
    let segment_path = binding.as_path();
    let segment_id = SegmentID::from_stem(stem_of(segment_path)).unwrap();
    assert!(segment_id.0 == id);

    let empty_path = PathBuf::new();
    assert!(SegmentID::from_stem(stem_of(empty_path.as_path()))
        .is_err_and(|e| e == SegmentIDError::IDFromEmtpyPath));
}

#[test]
fn segment_id_parses_decimal_numerals() {
    assert_eq!(SegmentID::from_str("0"), Ok(SegmentID(0)));
    assert_eq!(SegmentID::from_str("+7"), Ok(SegmentID(7)));
    assert_eq!(SegmentID::from_str("007"), Ok(SegmentID(7)));
    assert_eq!(SegmentID::from_str("18446744073709551615"), Ok(SegmentID(u64::MAX)));
    assert_eq!(SegmentID::from_str("18446744073709551616"), Err(SegmentIDError::NotAnInt));
    assert_eq!(SegmentID::from_str(""), Err(SegmentIDError::NotAnInt));
    assert_eq!(SegmentID::from_str("+"), Err(SegmentIDError::NotAnInt));
    assert_eq!(SegmentID::from_str("-1"), Err(SegmentIDError::NotAnInt));
    assert_eq!(SegmentID::from_str("4a"), Err(SegmentIDError::NotAnInt));
    assert_eq!(SegmentID::from_str("٤٢"), Err(SegmentIDError::NotAnInt));
}

#[test]
fn segment_with_unreadable_name_is_refused() {
    let path = PathBuf::from("base").join("current.segment");
    assert!(matches!(open(&path, Vec::new()), Err(SegmentError::InvalidPath(p)) if p == path));
    let r = Segment::new(PathBuf::new(), None, Vec::new());
    assert!(matches!(r, Err(SegmentError::InvalidPath(_))));
}

#[test]
fn insert_then_get_round_trips() {
    let mut s = open(Path::new("0.segment"), Vec::new()).unwrap();
    s.insert("clé", "välue ✓").unwrap();
    assert_eq!(s.get("clé").unwrap(), "välue ✓");
    assert_eq!(s.index().get("clé"), Some(0));
}

#[test]
fn overwrite_keeps_old_record_but_returns_latest() {
    let mut s = open(Path::new("0.segment"), Vec::new()).unwrap();
    s.insert("k", "v1").unwrap();
    let first = s.log().to_vec();
    s.insert("k", "v2").unwrap();
    assert_eq!(s.get("k").unwrap(), "v2");
    assert_eq!(&s.log()[..first.len()], &first[..]);
    assert_eq!(s.index().get("k"), Some(first.len() as u64));
    let reopened = open(Path::new("0.segment"), s.log().to_vec()).unwrap();
    assert_eq!(reopened.get("k").unwrap(), "v2");
    assert_eq!(reopened.index(), s.index());
}

#[test]
fn delete_then_get_is_not_found() {
    let mut s = open(Path::new("3.segment"), Vec::new()).unwrap();
    s.insert("k", "v").unwrap();
    s.delete("k").unwrap();
    assert!(matches!(s.get("k"), Err(GetError::KeyNotFound)));
    let before = s.log().len();
    assert!(matches!(s.delete("k"), Err(DeleteError::KeyNotFound)));
    // The entry is written even though the key was absent.
    assert_eq!(s.log().len(), before + 8 + 1 + 4 + 8);
    let reopened = open(Path::new("3.segment"), s.log().to_vec()).unwrap();
    assert_eq!(reopened.index(), s.index());
    assert_eq!(reopened.index().get("k"), None);
}

#[test]
fn deleting_a_never_inserted_key_is_not_found() {
    let mut s = open(Path::new("1.segment"), Vec::new()).unwrap();
    assert!(matches!(s.delete("missing"), Err(DeleteError::KeyNotFound)));
    assert!(matches!(s.get("missing"), Err(GetError::KeyNotFound)));
}

#[test]
fn reopen_rebuilds_the_same_index() {
    let mut s = open(Path::new("5.segment"), Vec::new()).unwrap();
    s.insert("a", "1").unwrap();
    s.insert("b", "2").unwrap();
    s.delete("a").unwrap();
    s.insert("c", "3").unwrap();
    s.insert("a", "4").unwrap();
    let rebuilt = Segment::index_from_disk(s.log()).unwrap();
    assert_eq!(&rebuilt, s.index());
    assert_eq!(rebuilt.get("a"), s.index().get("a"));
    assert_eq!(rebuilt.get("b"), Some(26));
}

#[test]
fn corrupted_value_checksum_is_reported_on_get() {
    let mut s = open(Path::new("0.segment"), Vec::new()).unwrap();
    s.insert("k", "v").unwrap();
    let mut log = s.log().to_vec();
    let last = log.len() - 1;
    log[last] ^= 0xff;
    let damaged = open(Path::new("0.segment"), log).unwrap();
    match damaged.get("k") {
        Err(GetError::ReadError(ReadError::InvalidChecksum { expected, found })) => {
            assert_eq!(expected, 0x6b643b84);
            assert_eq!(found, 0x6b643b84 ^ 0xff);
        }
        other => panic!("unexpected {:?}", other),
    }
}

#[test]
fn corrupted_value_payload_is_reported_on_get() {
    let mut s = open(Path::new("0.segment"), Vec::new()).unwrap();
    s.insert("k", "v").unwrap();
    let mut log = s.log().to_vec();
    let payload = log.len() - 5;
    log[payload] = b'w';
    let damaged = open(Path::new("0.segment"), log).unwrap();
    match damaged.get("k") {
        Err(GetError::ReadError(ReadError::InvalidChecksum { expected, found })) => {
            assert_eq!(expected, crc32fast::hash(b"w"));
            assert_eq!(found, 0x6b643b84);
        }
        other => panic!("unexpected {:?}", other),
    }
}

#[test]
fn corrupted_key_fails_the_scan() {
    let mut s = open(Path::new("0.segment"), Vec::new()).unwrap();
    s.insert("k", "v").unwrap();
    let mut log = s.log().to_vec();
    log[8] = b'j';
    match open(Path::new("0.segment"), log) {
        Err(SegmentError::ReadError(ReadError::InvalidChecksum { expected, found })) => {
            assert_eq!(expected, crc32fast::hash(b"j"));
            assert_eq!(found, 0x0862575d);
        }
        Err(e) => panic!("unexpected {:?}", e),
        Ok(_) => panic!("scan accepted a damaged key"),
    }
}

#[test]
fn truncated_log_fails_the_scan() {
    let mut s = open(Path::new("0.segment"), Vec::new()).unwrap();
    s.insert("k", "v").unwrap();
    let mut log = s.log().to_vec();
    log.pop();
    assert!(matches!(
        open(Path::new("0.segment"), log.clone()),
        Err(SegmentError::ReadError(ReadError::IOError(_)))
    ));
    log.truncate(10);
    assert!(matches!(
        open(Path::new("0.segment"), log),
        Err(SegmentError::ReadError(ReadError::IOError(_)))
    ));
}

#[test]
fn tombstone_in_key_position_fails_the_scan() {
    let mut log = Vec::new();
    sunsetdb::append_deletion(&mut log);
    assert!(matches!(
        Segment::index_from_disk(&log),
        Err(SegmentError::InvalidIndexFormat(_))
    ));
}

#[test]
fn value_length_beyond_a_seek_fails_the_scan() {
    let mut log = Vec::new();
    sunsetdb::append_string(&mut log, "k");
    log.extend_from_slice(&0x7fff_ffff_ffff_fffcu64.to_be_bytes());
    assert!(matches!(Segment::index_from_disk(&log), Err(SegmentError::SeekError)));
}

#[test]
fn key_that_is_not_text_fails_the_scan() {
    let bytes = [0xffu8, 0xfe];
    let mut log = Vec::new();
    log.extend_from_slice(&(bytes.len() as u64).to_be_bytes());
    log.extend_from_slice(&bytes);
    log.extend_from_slice(&crc32fast::hash(&bytes).to_be_bytes());
    assert!(matches!(
        Segment::index_from_disk(&log),
        Err(SegmentError::ReadError(ReadError::InvalidString { .. }))
    ));
}

#[test]
fn empty_log_has_empty_index() {
    let index = Segment::index_from_disk(&[]).unwrap();
    assert_eq!(index.get(""), None);
    let s = open(Path::new("9.segment"), Vec::new()).unwrap();
    assert!(matches!(s.get(""), Err(GetError::KeyNotFound)));
}

#[test]
fn insert_with_empty_key_and_value() {
    let mut s = open(Path::new("0.segment"), Vec::new()).unwrap();
    s.insert("", "").unwrap();
    assert_eq!(s.get("").unwrap(), "");
    assert_eq!(s.log().len(), 24);
}
