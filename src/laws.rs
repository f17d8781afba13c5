//! Laws that relate the operations of a segment and of the store.
use crate::codec::{crc32_of, record, record_at, RawRecord, ReadFailure, MAX_LOG_LEN, TOMBSTONE};
use crate::scan::{insert_entry, lemma_text_written, lemma_scan_extend, lemma_scan_insert_entry, scan, Scan};
use crate::segment::{deleted, fits, inserted, lookup, Lookup, SegmentView};
use crate::store::store_lookup;
use vstd::prelude::*;
use vstd::utf8::*;

verus! {

/// After inserting `v` under `k`, looking `k` up finds `v`.
pub proof fn lemma_insert_then_get(s: SegmentView, k: Seq<char>, v: Seq<char>)
    requires
        encode_utf8(v).len() < TOMBSTONE,
        fits(s.log.len() as int, insert_entry(k, v).len() as int),
    ensures
        lookup(inserted(s, k, v), k) == Lookup::Found(v),
{
    let kb = encode_utf8(k);
    let vb = encode_utf8(v);
    let t = inserted(s, k, v);
    let pre = s.log + record(kb);
    assert(t.log =~= pre + record(vb) + Seq::<u8>::empty());
    assert(valid_utf8(vb) && decode_utf8(vb) == v) by {
        encode_utf8_valid_utf8(v);
        encode_utf8_decode_utf8(v);
    }
    lemma_text_written(pre, vb, Seq::<u8>::empty());
    assert(t.index[k] + 12 + kb.len() == pre.len());
}

/// After inserting under `k` twice, looking `k` up finds the second value;
/// the first entry stays in the log, and a fresh scan of the log maps `k` to
/// the second entry.
pub proof fn lemma_overwrite(s: SegmentView, k: Seq<char>, v1: Seq<char>, v2: Seq<char>)
    requires
        scan(s.log) == Scan::Index(s.index),
        encode_utf8(v1).len() < TOMBSTONE,
        encode_utf8(v2).len() < TOMBSTONE,
        fits(s.log.len() as int, (insert_entry(k, v1).len() + insert_entry(k, v2).len()) as int),
    ensures
        ({
            let t1 = inserted(s, k, v1);
            let t2 = inserted(t1, k, v2);
            &&& lookup(t2, k) == Lookup::Found(v2)
            &&& t2.log.subrange(0, t1.log.len() as int) == t1.log
            &&& scan(t2.log) == Scan::Index(t2.index)
            &&& t2.index[k] == t1.log.len()
        }),
{
    let t1 = inserted(s, k, v1);
    let t2 = inserted(t1, k, v2);
    lemma_scan_extend(s.log, insert_entry(k, v1), 0, Map::empty());
    lemma_scan_insert_entry(s.log, s.index, k, v1);
    lemma_scan_extend(t1.log, insert_entry(k, v2), 0, Map::empty());
    lemma_scan_insert_entry(t1.log, t1.index, k, v2);
    lemma_insert_then_get(t1, k, v2);
    assert(t2.log.subrange(0, t1.log.len() as int) =~= t1.log);
}

/// After deleting `k`, looking `k` up finds nothing, and `k` is gone from
/// the index, so deleting it again reports that it is not found.
pub proof fn lemma_delete_then_get(s: SegmentView, k: Seq<char>)
    ensures
        lookup(deleted(s, k), k) == Lookup::Missing,
        !deleted(s, k).index.contains_key(k),
{
}

/// With the first segment the only one that holds `k`, inserting `v` under
/// `k` through the store and then looking `k` up in the store finds `v`.
pub proof fn lemma_store_insert_then_get(
    segments: Seq<SegmentView>,
    k: Seq<char>,
    v: Seq<char>,
)
    requires
        segments.len() > 0,
        forall|j: int| 1 <= j < segments.len() ==> !(lookup(segments[j], k) is Found),
        encode_utf8(v).len() < TOMBSTONE,
        fits(segments[0].log.len() as int, insert_entry(k, v).len() as int),
    ensures
        store_lookup(segments.update(0, inserted(segments[0], k, v)), k) == Some(v),
    decreases segments.len(),
{
    let updated = segments.update(0, inserted(segments[0], k, v));
    if segments.len() == 1 {
        lemma_insert_then_get(segments[0], k, v);
    } else {
        let shorter = segments.drop_last();
        lemma_store_insert_then_get(shorter, k, v);
        assert(updated.drop_last() =~= shorter.update(0, inserted(shorter[0], k, v)));
        assert(updated.last() == segments[segments.len() - 1]);
    }
}

/// With the first segment the only one that holds `k`, deleting `k` through
/// the store and then looking `k` up in the store finds nothing.
pub proof fn lemma_store_delete_then_get(segments: Seq<SegmentView>, k: Seq<char>)
    requires
        segments.len() > 0,
        forall|j: int| 1 <= j < segments.len() ==> !(lookup(segments[j], k) is Found),
    ensures
        store_lookup(segments.update(0, deleted(segments[0], k)), k) is None,
    decreases segments.len(),
{
    let updated = segments.update(0, deleted(segments[0], k));
    if segments.len() == 1 {
        lemma_delete_then_get(segments[0], k);
        assert(updated.last() == deleted(segments[0], k));
        assert(updated.drop_last() =~= Seq::<SegmentView>::empty());
        assert(store_lookup(updated.drop_last(), k) is None);
    } else {
        let shorter = segments.drop_last();
        lemma_store_delete_then_get(shorter, k);
        assert(updated.drop_last() =~= shorter.update(0, deleted(shorter[0], k)));
        assert(updated.last() == segments[segments.len() - 1]);
    }
}

} // verus!
