//! One segment: an append-only log of entries and the index rebuilt from it.
use crate::codec::{
    append_deletion, append_string, file_too_large, parse_u64_bytes, read_check_string,
    read_error_is, read_string_at_offset, read_u64_bytes, record_at, string_at, unexpected_eof, Decoded, ReadFailure,
    CRC32_SIZE, ENCODED_LEN_SIZE, MAX_LOG_LEN, TOMBSTONE,
};
use crate::error::{DeleteError, GetError, InsertError, ReadError, SegmentError};
use crate::index::Index;
use crate::scan::{
    delete_entry, insert_entry, lemma_scan_delete_entry, lemma_scan_extend,
    lemma_scan_insert_entry, lemma_scan_points_at_keys, points_at_keys, scan, scan_from, Scan,
    ScanFailure,
};
use crate::segment_id::{parse_u64, SegmentID};
use std::path::PathBuf;
use vstd::prelude::*;
use vstd::utf8::*;

verus! {

/// What a segment is: its identifier, its log, and its index.
pub struct SegmentView {
    pub id: u64,
    pub log: Seq<u8>,
    pub index: Map<Seq<char>, u64>,
}

/// What looking a key up in a segment finds.
pub enum Lookup {
    Missing,
    Found(Seq<char>),
    Failed(ReadFailure),
}

/// Looks `k` up: the value record follows the key record that the index
/// points at.
pub open spec fn lookup(s: SegmentView, k: Seq<char>) -> Lookup {
    if !s.index.contains_key(k) {
        Lookup::Missing
    } else {
        match string_at(s.log, s.index[k] + 12 + encode_utf8(k).len()) {
            Decoded::Deleted => Lookup::Missing,
            Decoded::Text(v) => Lookup::Found(v),
            Decoded::Failed(f) => Lookup::Failed(f),
        }
    }
}

/// `r` is what a lookup with outcome `l` returns.
pub open spec fn get_result_is(r: Result<String, GetError>, l: Lookup) -> bool {
    match l {
        Lookup::Missing => r matches Err(GetError::KeyNotFound),
        Lookup::Found(v) => r matches Ok(s) && s@ == v,
        Lookup::Failed(f) => r matches Err(GetError::ReadError(e)) && read_error_is(e, f),
    }
}

/// `e` is the error that reports scan failure `f`.
pub open spec fn scan_error_is(e: SegmentError, f: ScanFailure) -> bool {
    match f {
        ScanFailure::TombstoneKey => e is InvalidIndexFormat,
        ScanFailure::Read(rf) => e matches SegmentError::ReadError(re) && read_error_is(re, rf),
        ScanFailure::Seek => e is SeekError,
    }
}

/// A log of length `len` can grow by `extra` bytes: files and memory allow it.
pub open spec fn fits(len: int, extra: int) -> bool {
    len + extra <= MAX_LOG_LEN && len + extra <= usize::MAX
}

/// The segment after inserting `v` under `k`.
pub open spec fn inserted(s: SegmentView, k: Seq<char>, v: Seq<char>) -> SegmentView {
    SegmentView {
        id: s.id,
        log: s.log + insert_entry(k, v),
        index: s.index.insert(k, s.log.len() as u64),
    }
}

/// The segment after deleting `k`.
pub open spec fn deleted(s: SegmentView, k: Seq<char>) -> SegmentView {
    SegmentView { id: s.id, log: s.log + delete_entry(k), index: s.index.remove(k) }
}

/// The identifier that a file stem spells, if any.
pub open spec fn stem_id(stem: Option<&str>) -> Option<u64> {
    match stem {
        None => None,
        Some(s) => parse_u64(s@),
    }
}

/// A segment: its identifier, the bytes of its file, and its index.
pub struct Segment {
    id: SegmentID,
    log: Vec<u8>,
    index: Index,
}

impl View for Segment {
    type V = SegmentView;

    closed spec fn view(&self) -> SegmentView {
        SegmentView { id: self.id.0, log: self.log@, index: self.index@ }
    }
}

impl Segment {
    /// The index is the one that scanning the log rebuilds.
    pub closed spec fn wf(&self) -> bool {
        &&& self.index.wf()
        &&& self.log@.len() <= MAX_LOG_LEN
        &&& scan(self.log@) == Scan::Index(self.index@)
    }

    /// Scanning a live segment's log afresh rebuilds exactly its index: the
    /// same keys, at the same offsets.
    pub proof fn lemma_reopen_preserves_index(&self)
        requires
            self.wf(),
        ensures
            scan(self@.log) == Scan::Index(self@.index),
    {
    }

    /// Opens the segment whose file, named with `stem`, holds `log`: reads
    /// its identifier from the stem and rebuilds its index by a scan.
    pub fn new(path: PathBuf, stem: Option<&str>, log: Vec<u8>) -> (r: Result<
        Segment,
        SegmentError,
    >)
        requires
            log@.len() <= MAX_LOG_LEN,
        ensures
            match stem_id(stem) {
                None => r matches Err(SegmentError::InvalidPath(p)) && p == path,
                Some(id) => match scan(log@) {
                    Scan::Index(m) => r matches Ok(s) && s.wf() && s@ == (SegmentView {
                        id,
                        log: log@,
                        index: m,
                    }),
                    Scan::Failed(f) => r matches Err(e) && scan_error_is(e, f),
                },
            },
    {
        let index = Segment::index_from_disk(log.as_slice());
        let id = match SegmentID::from_stem(stem) {
            Ok(id) => id,
            Err(_) => {
                return Err(SegmentError::InvalidPath(path));
            },
        };
        match index {
            Ok(index) => Ok(Segment { id, log, index }),
            Err(e) => Err(e),
        }
    }

    /// Rebuilds the index by scanning the whole log from its start.
    pub fn index_from_disk(log: &[u8]) -> (r: Result<Index, SegmentError>)
        ensures
            match scan(log@) {
                Scan::Index(m) => r matches Ok(i) && i.wf() && i@ == m,
                Scan::Failed(f) => r matches Err(e) && scan_error_is(e, f),
            },
    {
        let mut index = Index::new();
        let segment_len: usize = log.len();
        let mut offset: usize = 0;
        while offset < segment_len
            invariant
                offset <= segment_len,
                segment_len == log@.len(),
                index.wf(),
                scan(log@) == scan_from(log@, offset as int, index@),
            decreases segment_len - offset,
        {
            let key = match read_check_string(log, offset) {
                Ok(Some(key)) => key,
                Ok(None) => {
                    return Err(SegmentError::InvalidIndexFormat("tombstone in index".to_owned()));
                },
                Err(e) => {
                    return Err(SegmentError::ReadError(e));
                },
            };
            let key_len = key.as_str().as_bytes().len();
            proof {
                let b = record_at(log@, offset as int)->Bytes_0;
                decode_utf8_encode_utf8(b);
            }
            let q = offset + ENCODED_LEN_SIZE + key_len + CRC32_SIZE;
            let encoded_value_len = match read_u64_bytes(log, q) {
                Ok(b) => b,
                Err(e) => {
                    return Err(SegmentError::ReadError(e));
                },
            };
            let value_len = match parse_u64_bytes(encoded_value_len) {
                Ok(n) => n,
                Err(e) => {
                    return Err(SegmentError::ReadError(e));
                },
            };
            if value_len != TOMBSTONE {
                index.insert(key, offset as u64);
                // Skipping the value and its checksum is a signed 64-bit seek.
                if value_len > i64::MAX as u64 - CRC32_SIZE as u64 {
                    return Err(SegmentError::SeekError);
                }
                let skip = value_len + CRC32_SIZE as u64;
                let rest = segment_len - q - ENCODED_LEN_SIZE;
                if (rest as u64) < skip {
                    return Err(SegmentError::ReadError(ReadError::IOError(unexpected_eof())));
                }
                offset = q + ENCODED_LEN_SIZE + skip as usize;
            } else {
                index.remove(key.as_str());
                offset = q + ENCODED_LEN_SIZE;
            }
        }
        Ok(index)
    }

    /// The segment's identifier.
    pub fn id(&self) -> (r: SegmentID)
        ensures
            r.0 == self@.id,
    {
        self.id
    }

    /// The bytes of the segment's file.
    pub fn log(&self) -> (r: &[u8])
        ensures
            r@ == self@.log,
    {
        self.log.as_slice()
    }

    /// The segment's index.
    pub fn index(&self) -> (r: &Index)
        ensures
            r@ == self@.index,
    {
        &self.index
    }

    /// Appends `key` and `value` to the log and points the index at the new
    /// key record. A value whose length would read as the deletion marker is
    /// refused before anything is written.
    pub fn insert(&mut self, key: &str, value: &str) -> (r: Result<(), InsertError>)
        requires
            old(self).wf(),
        ensures
            final(self).wf(),
            if encode_utf8(value@).len() >= TOMBSTONE {
                r matches Err(InsertError::ValueExceedsMaxSize) && final(self)@ == old(self)@
            } else if encode_utf8(key@).len() > u64::MAX {
                r matches Err(InsertError::KeyExceedsMaxSize) && final(self)@ == old(self)@
            } else if !fits(old(self)@.log.len() as int, insert_entry(key@, value@).len() as int) {
                r matches Err(InsertError::IOError(_)) && final(self)@ == old(self)@
            } else {
                r is Ok && final(self)@ == inserted(old(self)@, key@, value@)
            },
    {
        let value_len = value.as_bytes().len();
        if value_len as u64 >= TOMBSTONE {
            return Err(InsertError::ValueExceedsMaxSize);
        }
        let key_len = key.as_bytes().len();
        if key_len as u128 > u64::MAX as u128 {
            return Err(InsertError::KeyExceedsMaxSize);
        }
        let offset = self.log.len();
        let grown = offset as u128 + (2 * (ENCODED_LEN_SIZE + CRC32_SIZE)) as u128 + key_len as u128
            + value_len as u128;
        if grown > MAX_LOG_LEN as u128 || grown > usize::MAX as u128 {
            return Err(InsertError::IOError(file_too_large()));
        }
        let ghost old_log = self.log@;
        proof {
            lemma_scan_extend(old_log, insert_entry(key@, value@), 0, Map::empty());
            lemma_scan_insert_entry(old_log, self.index@, key@, value@);
        }
        append_string(&mut self.log, key);
        append_string(&mut self.log, value);
        assert(self.log@ =~= old_log + insert_entry(key@, value@));
        self.index.insert(key.to_owned(), offset as u64);
        Ok(())
    }

    /// Appends `key` and the deletion marker to the log, then drops `key`
    /// from the index; fails with `KeyNotFound` when it was not there (the
    /// entry is written all the same).
    pub fn delete(&mut self, key: &str) -> (r: Result<(), DeleteError>)
        requires
            old(self).wf(),
        ensures
            final(self).wf(),
            if !fits(old(self)@.log.len() as int, delete_entry(key@).len() as int) {
                r matches Err(DeleteError::IOError(_)) && final(self)@ == old(self)@
            } else {
                &&& final(self)@ == deleted(old(self)@, key@)
                &&& r is Ok <==> old(self)@.index.contains_key(key@)
                &&& r is Err ==> r matches Err(DeleteError::KeyNotFound)
            },
    {
        let key_len = key.as_bytes().len();
        let offset = self.log.len();
        let grown = offset as u128 + (2 * ENCODED_LEN_SIZE + CRC32_SIZE) as u128 + key_len as u128;
        if grown > MAX_LOG_LEN as u128 || grown > usize::MAX as u128 {
            return Err(DeleteError::IOError(file_too_large()));
        }
        let ghost old_log = self.log@;
        proof {
            lemma_scan_extend(old_log, delete_entry(key@), 0, Map::empty());
            lemma_scan_delete_entry(old_log, self.index@, key@);
        }
        append_string(&mut self.log, key);
        append_deletion(&mut self.log);
        assert(self.log@ =~= old_log + delete_entry(key@));
        match self.index.remove(key) {
            Some(_) => Ok(()),
            None => Err(DeleteError::KeyNotFound),
        }
    }

    /// Looks `key` up: finds its key record through the index, then reads
    /// and checks the value record that follows it.
    pub fn get(&self, key: &str) -> (r: Result<String, GetError>)
        requires
            self.wf(),
        ensures
            get_result_is(r, lookup(self@, key@)),
    {
        let offset = match self.index.get(key) {
            Some(offset) => offset,
            None => {
                return Err(GetError::KeyNotFound);
            },
        };
        proof {
            lemma_scan_points_at_keys(self.log@, 0, Map::empty());
            // The index points at a key record for this very key.
            assert(string_at(self.log@, offset as int) == Decoded::Text(key@));
        }
        let value_offset = offset + ENCODED_LEN_SIZE as u64 + key.as_bytes().len() as u64
            + CRC32_SIZE as u64;
        match read_string_at_offset(self.log.as_slice(), value_offset) {
            Ok(Some(value)) => Ok(value),
            Ok(None) => Err(GetError::KeyNotFound),
            Err(e) => Err(GetError::ReadError(e)),
        }
    }
}

} // verus!
