//! The store: its segments, oldest first, and the next identifier to give out.
use crate::codec::TOMBSTONE;
use crate::error::{DeleteError, GetError, InsertError};
use crate::scan::{delete_entry, insert_entry};
use crate::segment::{deleted, fits, inserted, lookup, Lookup, Segment, SegmentView};
use vstd::prelude::*;
use vstd::utf8::*;

verus! {

/// What a store is: its segments, oldest first, and the next identifier.
pub struct StoreView {
    pub segments: Seq<SegmentView>,
    pub next_index: u64,
}

/// The value that the newest segment that holds `k` has for it.
pub open spec fn store_lookup(segments: Seq<SegmentView>, k: Seq<char>) -> Option<Seq<char>>
    decreases segments.len(),
{
    if segments.len() == 0 {
        None
    } else {
        match lookup(segments.last(), k) {
            Lookup::Found(v) => Some(v),
            _ => store_lookup(segments.drop_last(), k),
        }
    }
}

/// The next identifier after the segments `segments`.
pub open spec fn next_index_after(segments: Seq<SegmentView>) -> u64 {
    if segments.len() == 0 {
        0
    } else {
        (segments.last().id + 1) as u64
    }
}

/// A store of segments. Writes go to the first segment; reads search from
/// the newest segment back to the oldest.
pub struct SunsetDB {
    segments: Vec<Segment>,
    next_index: u64,
}

impl View for SunsetDB {
    type V = StoreView;

    closed spec fn view(&self) -> StoreView {
        StoreView {
            segments: self.segments@.map_values(|s: Segment| s@),
            next_index: self.next_index,
        }
    }
}

impl SunsetDB {
    /// Every segment is well formed.
    pub closed spec fn wf(&self) -> bool {
        forall|i: int| 0 <= i < self.segments@.len() ==> #[trigger] self.segments@[i].wf()
    }

    /// Gathers opened segments, oldest first; the next identifier is one
    /// past the last segment's.
    pub fn from_segments(segments: Vec<Segment>) -> (r: SunsetDB)
        requires
            forall|i: int| 0 <= i < segments@.len() ==> #[trigger] segments@[i].wf(),
            segments@.len() > 0 ==> segments@.last()@.id < u64::MAX,
        ensures
            r.wf(),
            r@.segments == segments@.map_values(|s: Segment| s@),
            r@.next_index == next_index_after(r@.segments),
    {
        let n = segments.len();
        let next_index = if n == 0 {
            0
        } else {
            segments[n - 1].id().0 + 1
        };
        SunsetDB { segments, next_index }
    }

    /// The identifier that the next new segment gets.
    pub fn next_index(&self) -> (r: u64)
        ensures
            r == self@.next_index,
    {
        self.next_index
    }

    /// The number of segments.
    pub fn segments_len(&self) -> (r: usize)
        ensures
            r == self@.segments.len(),
    {
        self.segments.len()
    }

    /// The segment at position `i`, oldest first.
    pub fn segment(&self, i: usize) -> (r: &Segment)
        requires
            i < self@.segments.len(),
        ensures
            r@ == self@.segments[i as int],
    {
        &self.segments[i]
    }

    /// Adds a new segment after the others and moves the next identifier on.
    pub fn add_segment(&mut self, segment: Segment)
        requires
            old(self).wf(),
            segment.wf(),
            old(self)@.next_index < u64::MAX,
        ensures
            final(self).wf(),
            final(self)@.segments == old(self)@.segments.push(segment@),
            final(self)@.next_index == old(self)@.next_index + 1,
    {
        self.segments.push(segment);
        self.next_index = self.next_index + 1;
        assert(self@.segments =~= old(self)@.segments.push(segment@));
    }

    /// Inserts into the first segment.
    pub fn insert(&mut self, key: &str, value: &str) -> (r: Result<(), InsertError>)
        requires
            old(self).wf(),
        ensures
            final(self).wf(),
            final(self)@.next_index == old(self)@.next_index,
            if old(self)@.segments.len() == 0 {
                r matches Err(InsertError::NoSegments) && final(self)@ == old(self)@
            } else if encode_utf8(value@).len() >= TOMBSTONE {
                r matches Err(InsertError::ValueExceedsMaxSize) && final(self)@ == old(self)@
            } else if encode_utf8(key@).len() > u64::MAX {
                r matches Err(InsertError::KeyExceedsMaxSize) && final(self)@ == old(self)@
            } else if !fits(
                old(self)@.segments[0].log.len() as int,
                insert_entry(key@, value@).len() as int,
            ) {
                r matches Err(InsertError::IOError(_)) && final(self)@ == old(self)@
            } else {
                r is Ok && final(self)@.segments == old(self)@.segments.update(
                    0,
                    inserted(old(self)@.segments[0], key@, value@),
                )
            },
    {
        if self.segments.len() == 0 {
            return Err(InsertError::NoSegments);
        }
        let r = self.segments[0].insert(key, value);
        proof {
            assert forall|i: int| 0 <= i < self.segments@.len() implies #[trigger] self.segments@[i].wf() by {
                if i != 0 {
                    assert(self.segments@[i] == old(self).segments@[i]);
                }
            }
            assert(self@.segments =~= old(self)@.segments.update(0, self.segments@[0]@));
            if self.segments@[0]@ == old(self).segments@[0]@ {
                assert(self@.segments =~= old(self)@.segments);
            }
        }
        r
    }

    /// Looks `key` up in each segment from the newest back to the oldest,
    /// and returns the first value found.
    pub fn get(&self, key: &str) -> (r: Result<String, GetError>)
        requires
            self.wf(),
        ensures
            match store_lookup(self@.segments, key@) {
                Some(v) => r matches Ok(s) && s@ == v,
                None => r matches Err(GetError::KeyNotFound),
            },
    {
        let mut i: usize = self.segments.len();
        assert(self@.segments.subrange(0, i as int) =~= self@.segments);
        while i > 0
            invariant
                i <= self.segments@.len(),
                self.wf(),
                store_lookup(self@.segments, key@) == store_lookup(
                    self@.segments.subrange(0, i as int),
                    key@,
                ),
            decreases i,
        {
            let ghost prefix = self@.segments.subrange(0, i as int);
            assert(prefix.last() == self.segments@[i - 1]@);
            assert(prefix.drop_last() =~= self@.segments.subrange(0, i - 1));
            if let Ok(value) = self.segments[i - 1].get(key) {
                return Ok(value);
            }
            i = i - 1;
        }
        Err(GetError::KeyNotFound)
    }

    /// Deletes from the first segment.
    pub fn delete(&mut self, key: &str) -> (r: Result<(), DeleteError>)
        requires
            old(self).wf(),
        ensures
            final(self).wf(),
            final(self)@.next_index == old(self)@.next_index,
            if old(self)@.segments.len() == 0 {
                r matches Err(DeleteError::NoSegments) && final(self)@ == old(self)@
            } else if !fits(
                old(self)@.segments[0].log.len() as int,
                delete_entry(key@).len() as int,
            ) {
                r matches Err(DeleteError::IOError(_)) && final(self)@ == old(self)@
            } else {
                &&& final(self)@.segments == old(self)@.segments.update(
                    0,
                    deleted(old(self)@.segments[0], key@),
                )
                &&& r is Ok <==> old(self)@.segments[0].index.contains_key(key@)
                &&& r is Err ==> r matches Err(DeleteError::KeyNotFound)
            },
    {
        if self.segments.len() == 0 {
            return Err(DeleteError::NoSegments);
        }
        let r = self.segments[0].delete(key);
        proof {
            assert forall|i: int| 0 <= i < self.segments@.len() implies #[trigger] self.segments@[i].wf() by {
                if i != 0 {
                    assert(self.segments@[i] == old(self).segments@[i]);
                }
            }
            assert(self@.segments =~= old(self)@.segments.update(0, self.segments@[0]@));
            if self.segments@[0]@ == old(self).segments@[0]@ {
                assert(self@.segments =~= old(self)@.segments);
            }
        }
        r
    }
}

} // verus!
