//! What scanning a segment log yields, and how appending an entry changes it.
use crate::codec::{
    be_u32_bytes, be_u32_of, be_u64_bytes, be_u64_of, crc32_of, lemma_be_u64_round_trip, lemma_record_at_written, record, record_at,
    string_at, tombstone, Decoded, RawRecord, ReadFailure, MAX_LOG_LEN, TOMBSTONE,
};
use vstd::prelude::*;
use vstd::utf8::*;

verus! {

/// What rebuilding an index can fail with.
pub enum ScanFailure {
    /// A deletion marker stands where a key record should.
    TombstoneKey,
    /// A key record, or a value's length field, cannot be read.
    Read(ReadFailure),
    /// A value's length does not fit a signed 64-bit seek.
    Seek,
}

/// The outcome of rebuilding an index from a log.
pub enum Scan {
    Index(Map<Seq<char>, u64>),
    Failed(ScanFailure),
}

/// Scans `log` from position `p` on, starting with index `idx`. Each entry is
/// a key record followed by a value record or a deletion marker; the value
/// itself is skipped, not checked.
pub open spec fn scan_from(log: Seq<u8>, p: int, idx: Map<Seq<char>, u64>) -> Scan
    decreases log.len() - p,
{
    if p < 0 || p >= log.len() {
        Scan::Index(idx)
    } else {
        match string_at(log, p) {
            Decoded::Deleted => Scan::Failed(ScanFailure::TombstoneKey),
            Decoded::Failed(f) => Scan::Failed(ScanFailure::Read(f)),
            Decoded::Text(k) => {
                let q = p + 12 + encode_utf8(k).len();
                if q + 8 > log.len() {
                    Scan::Failed(ScanFailure::Read(ReadFailure::Truncated))
                } else {
                    let n = be_u64_of(log.subrange(q, q + 8));
                    if n == TOMBSTONE {
                        scan_from(log, q + 8, idx.remove(k))
                    } else if n + 4 > i64::MAX {
                        Scan::Failed(ScanFailure::Seek)
                    } else if q + 12 + n > log.len() {
                        Scan::Failed(ScanFailure::Read(ReadFailure::Truncated))
                    } else {
                        scan_from(log, q + 12 + n, idx.insert(k, p as u64))
                    }
                }
            },
        }
    }
}

/// The index that a full scan of `log` rebuilds.
pub open spec fn scan(log: Seq<u8>) -> Scan {
    scan_from(log, 0, Map::empty())
}

/// Every key of `idx` points at a complete key record for that key.
pub open spec fn points_at_keys(log: Seq<u8>, idx: Map<Seq<char>, u64>) -> bool {
    forall|k: Seq<char>|
        #![trigger idx[k]]
        idx.contains_key(k) ==> string_at(log, idx[k] as int) == Decoded::Text(k) && idx[k]
            + 12 + encode_utf8(k).len() <= log.len()
}

/// The bytes that inserting `v` under `k` appends.
pub open spec fn insert_entry(k: Seq<char>, v: Seq<char>) -> Seq<u8> {
    record(encode_utf8(k)) + record(encode_utf8(v))
}

/// The bytes that deleting `k` appends.
pub open spec fn delete_entry(k: Seq<char>) -> Seq<u8> {
    record(encode_utf8(k)) + tombstone()
}

proof fn lemma_subrange_of_prefix(log: Seq<u8>, ext: Seq<u8>, a: int, b: int)
    requires
        0 <= a <= b <= log.len(),
    ensures
        (log + ext).subrange(a, b) == log.subrange(a, b),
{
    assert((log + ext).subrange(a, b) =~= log.subrange(a, b));
}

/// A record that lies wholly in `log` reads the same once bytes are appended.
proof fn lemma_record_at_extend(log: Seq<u8>, ext: Seq<u8>, p: int)
    requires
        record_at(log, p) is Bytes || record_at(log, p) is Deleted,
    ensures
        record_at(log + ext, p) == record_at(log, p),
{
    lemma_subrange_of_prefix(log, ext, p, p + 8);
    let n = be_u64_of(log.subrange(p, p + 8));
    if n != TOMBSTONE {
        lemma_subrange_of_prefix(log, ext, p + 8, p + 8 + n);
        lemma_subrange_of_prefix(log, ext, p + 8 + n, p + 12 + n);
    }
}

/// Scanning past the end of a log that scanned cleanly goes on from where
/// that scan ended.
pub proof fn lemma_scan_extend(log: Seq<u8>, ext: Seq<u8>, p: int, idx: Map<Seq<char>, u64>)
    requires
        0 <= p <= log.len(),
        scan_from(log, p, idx) is Index,
    ensures
        scan_from(log + ext, p, idx) == scan_from(
            log + ext,
            log.len() as int,
            scan_from(log, p, idx)->Index_0,
        ),
    decreases log.len() - p,
{
    if p < log.len() {
        lemma_record_at_extend(log, ext, p);
        let k = string_at(log, p)->Text_0;
        let q = p + 12 + encode_utf8(k).len();
        lemma_subrange_of_prefix(log, ext, q, q + 8);
        let n = be_u64_of(log.subrange(q, q + 8));
        if n == TOMBSTONE {
            lemma_scan_extend(log, ext, q + 8, idx.remove(k));
        } else {
            lemma_scan_extend(log, ext, q + 12 + n, idx.insert(k, p as u64));
        }
    }
}

/// A record of valid UTF-8 reads back as the text it encodes.
pub proof fn lemma_text_written(pre: Seq<u8>, b: Seq<u8>, post: Seq<u8>)
    requires
        b.len() < TOMBSTONE,
        b.len() <= usize::MAX,
        valid_utf8(b),
    ensures
        string_at(pre + record(b) + post, pre.len() as int) == Decoded::Text(decode_utf8(b)),
{
    lemma_record_at_written(pre, b, post);
}

/// A record of valid UTF-8 written at the end of `log`, followed by `rest`,
/// reads back as text, and is followed by `rest`'s first eight bytes.
proof fn lemma_key_written(log: Seq<u8>, kb: Seq<u8>, rest: Seq<u8>)
    requires
        log.len() + record(kb).len() + rest.len() <= MAX_LOG_LEN,
        log.len() + record(kb).len() + rest.len() <= usize::MAX,
        rest.len() >= 8,
        valid_utf8(kb),
    ensures
        string_at(log + record(kb) + rest, log.len() as int) == Decoded::Text(decode_utf8(kb)),
        (log + record(kb) + rest).subrange(
            (log.len() + 12 + kb.len()) as int,
            (log.len() + 12 + kb.len() + 8) as int,
        ) == rest.subrange(0, 8),
{
    let full = log + record(kb) + rest;
    lemma_record_at_written(log, kb, rest);
    let q = (log.len() + 12 + kb.len()) as int;
    assert(full.subrange(q, q + 8) =~= rest.subrange(0, 8));
}

/// The index that scanning a log ending in an insertion entry yields.
pub proof fn lemma_scan_insert_entry(
    log: Seq<u8>,
    m: Map<Seq<char>, u64>,
    k: Seq<char>,
    v: Seq<char>,
)
    requires
        log.len() + insert_entry(k, v).len() <= MAX_LOG_LEN,
        log.len() + insert_entry(k, v).len() <= usize::MAX,
    ensures
        scan_from(log + insert_entry(k, v), log.len() as int, m) == Scan::Index(
            m.insert(k, log.len() as u64),
        ),
{
    let kb = encode_utf8(k);
    let vb = encode_utf8(v);
    let full = log + insert_entry(k, v);
    assert(full =~= log + record(kb) + record(vb));
    encode_utf8_valid_utf8(k);
    encode_utf8_decode_utf8(k);
    lemma_key_written(log, kb, record(vb));
    let q = (log.len() + 12 + kb.len()) as int;
    lemma_be_u64_round_trip(vb.len() as u64);
    assert(record(vb).subrange(0, 8) =~= be_u64_bytes(vb.len() as u64));
    assert(be_u64_of(full.subrange(q, q + 8)) == vb.len());
    assert(q + 12 + vb.len() == full.len());
    assert(scan_from(full, q + 12 + vb.len(), m.insert(k, log.len() as u64)) == Scan::Index(
        m.insert(k, log.len() as u64),
    ));
}

/// The index that scanning a log ending in a deletion entry yields.
pub proof fn lemma_scan_delete_entry(log: Seq<u8>, m: Map<Seq<char>, u64>, k: Seq<char>)
    requires
        log.len() + delete_entry(k).len() <= MAX_LOG_LEN,
        log.len() + delete_entry(k).len() <= usize::MAX,
    ensures
        scan_from(log + delete_entry(k), log.len() as int, m) == Scan::Index(m.remove(k)),
{
    let kb = encode_utf8(k);
    let full = log + delete_entry(k);
    assert(full =~= log + record(kb) + tombstone());
    encode_utf8_valid_utf8(k);
    encode_utf8_decode_utf8(k);
    lemma_key_written(log, kb, tombstone());
    let q = (log.len() + 12 + kb.len()) as int;
    lemma_be_u64_round_trip(TOMBSTONE);
    assert(tombstone().subrange(0, 8) =~= tombstone());
    assert(be_u64_of(full.subrange(q, q + 8)) == TOMBSTONE);
    assert(scan_from(full, q + 8, m.remove(k)) == Scan::Index(m.remove(k)));
}

/// A clean scan only ever maps a key to a complete key record for it.
pub proof fn lemma_scan_points_at_keys(log: Seq<u8>, p: int, idx: Map<Seq<char>, u64>)
    requires
        0 <= p <= log.len(),
        log.len() <= MAX_LOG_LEN,
        scan_from(log, p, idx) is Index,
        points_at_keys(log, idx),
    ensures
        points_at_keys(log, scan_from(log, p, idx)->Index_0),
    decreases log.len() - p,
{
    if p < log.len() {
        let k = string_at(log, p)->Text_0;
        let q = p + 12 + encode_utf8(k).len();
        let n = be_u64_of(log.subrange(q, q + 8));
        if n == TOMBSTONE {
            lemma_scan_points_at_keys(log, q + 8, idx.remove(k));
        } else {
            let next = idx.insert(k, p as u64);
            assert forall|k2: Seq<char>| #[trigger] next.contains_key(k2) implies string_at(
                log,
                next[k2] as int,
            ) == Decoded::Text(k2) && next[k2] + 12 + encode_utf8(k2).len() <= log.len() by {
                if k2 != k {
                    assert(idx[k2] == next[k2]);
                }
            }
            lemma_scan_points_at_keys(log, q + 12 + n, next);
        }
    }
}

} // verus!
