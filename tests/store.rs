use std::path::PathBuf;
use sunsetdb::{DeleteError, GetError, InsertError, Segment, SunsetDB};

fn fresh_segment(id: u64) -> Segment {
    let name = format!("{}.segment", id);
    Segment::new(PathBuf::from(&name), Some(&id.to_string()), Vec::new()).unwrap()
}

fn fresh_store() -> SunsetDB {
    let mut s = SunsetDB::from_segments(Vec::new());
    assert_eq!(s.next_index(), 0);
    let id = s.next_index();
    s.add_segment(fresh_segment(id));
    s
}

#[test]
fn sunsetdb_insert_get_delete_test() {
    let mut s = fresh_store();

    s.insert("k", "v").unwrap();
    assert_eq!(s.get("k").unwrap(), "v");
    s.insert("k", "vv").unwrap();
    assert_eq!(s.get("k").unwrap(), "vv");
    s.delete("k").unwrap();
    assert!(s.delete("k").is_err());
}

#[test]
fn fresh_store_has_segment_zero() {
    let s = fresh_store();
    assert_eq!(s.segments_len(), 1);
    assert_eq!(s.segment(0).id().0, 0);
    assert_eq!(s.next_index(), 1);
    assert!(matches!(s.get("k"), Err(GetError::KeyNotFound)));
}

#[test]
fn concrete_scenario() {
    let mut s = fresh_store();
    s.insert("k", "v").unwrap();
    assert_eq!(s.get("k").unwrap(), "v");
    s.insert("k", "vv").unwrap();
    assert_eq!(s.get("k").unwrap(), "vv");
    assert!(s.delete("k").is_ok());
    assert!(matches!(s.delete("k"), Err(DeleteError::KeyNotFound)));
    assert!(matches!(s.get("k"), Err(GetError::KeyNotFound)));
}

#[test]
fn store_without_segments_refuses_writes() {
    let mut s = SunsetDB::from_segments(Vec::new());
    assert!(matches!(s.insert("k", "v"), Err(InsertError::NoSegments)));
    assert!(matches!(s.delete("k"), Err(DeleteError::NoSegments)));
    assert!(matches!(s.get("k"), Err(GetError::KeyNotFound)));
}

#[test]
fn next_index_follows_the_last_segment() {
    let s = SunsetDB::from_segments(vec![fresh_segment(2), fresh_segment(7)]);
    assert_eq!(s.next_index(), 8);
    assert_eq!(s.segments_len(), 2);
}

#[test]
fn get_prefers_the_newest_segment() {
    let mut older = fresh_segment(0);
    older.insert("shared", "old").unwrap();
    older.insert("only_old", "o").unwrap();
    let mut newer = fresh_segment(1);
    newer.insert("shared", "new").unwrap();
    let mut s = SunsetDB::from_segments(vec![older, newer]);
    assert_eq!(s.get("shared").unwrap(), "new");
    assert_eq!(s.get("only_old").unwrap(), "o");
    // Writes go to the first segment.
    s.insert("only_old", "o2").unwrap();
    assert_eq!(s.segment(0).get("only_old").unwrap(), "o2");
    assert!(matches!(s.segment(1).get("only_old"), Err(GetError::KeyNotFound)));
    s.delete("shared").unwrap();
    assert_eq!(s.get("shared").unwrap(), "new");
}
