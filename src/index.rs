//! The in-memory index of a segment: each key to the offset of its latest
//! key record. Entries are kept in the order their keys were first written.
use vstd::prelude::*;

verus! {

/// One key of the index and the offset of its latest key record.
#[derive(Debug, PartialEq, Eq)]
pub struct IndexEntry {
    pub key: String,
    pub offset: u64,
}

/// A map from keys to offsets, held as a list of entries with distinct keys.
#[derive(Debug, PartialEq, Eq)]
pub struct Index {
    entries: Vec<IndexEntry>,
}

/// The keys of `entries` are pairwise distinct.
pub open spec fn distinct_keys(entries: Seq<IndexEntry>) -> bool {
    forall|i: int, j: int|
        0 <= i < entries.len() && 0 <= j < entries.len() && i != j ==> entries[i].key@
            != entries[j].key@
}

/// The map that a list of entries with distinct keys stands for.
pub open spec fn map_of(entries: Seq<IndexEntry>) -> Map<Seq<char>, u64> {
    Map::new(
        |k: Seq<char>| exists|i: int| 0 <= i < entries.len() && entries[i].key@ == k,
        |k: Seq<char>| entries[choose|i: int| 0 <= i < entries.len() && entries[i].key@ == k].offset,
    )
}

proof fn lemma_map_of_at(entries: Seq<IndexEntry>, i: int)
    requires
        distinct_keys(entries),
        0 <= i < entries.len(),
    ensures
        map_of(entries).contains_key(entries[i].key@),
        map_of(entries)[entries[i].key@] == entries[i].offset,
{
    let k = entries[i].key@;
    assert(exists|j: int| 0 <= j < entries.len() && entries[j].key@ == k);
    let j = choose|j: int| 0 <= j < entries.len() && entries[j].key@ == k;
    assert(j == i);
}

impl View for Index {
    type V = Map<Seq<char>, u64>;

    closed spec fn view(&self) -> Map<Seq<char>, u64> {
        map_of(self.entries@)
    }
}

impl Index {
    /// The keys of the entries are distinct.
    pub closed spec fn wf(&self) -> bool {
        distinct_keys(self.entries@)
    }

    /// An empty index.
    pub fn new() -> (r: Index)
        ensures
            r.wf(),
            r@ == Map::<Seq<char>, u64>::empty(),
    {
        let r = Index { entries: Vec::new() };
        assert(r@ =~= Map::<Seq<char>, u64>::empty());
        r
    }

    /// The position of `key` among the entries.
    fn find(&self, key: &String) -> (r: Option<usize>)
        ensures
            r matches Some(i) ==> i < self.entries@.len() && self.entries@[i as int].key@ == key@,
            r is None ==> !self@.contains_key(key@),
    {
        let mut i: usize = 0;
        while i < self.entries.len()
            invariant
                i <= self.entries@.len(),
                forall|j: int| 0 <= j < i ==> self.entries@[j].key@ != key@,
            decreases self.entries@.len() - i,
        {
            if self.entries[i].key == *key {
                return Some(i);
            }
            i = i + 1;
        }
        None
    }

    /// The offset recorded for `key`, if any.
    pub fn get(&self, key: &str) -> (r: Option<u64>)
        requires
            self.wf(),
        ensures
            r == (if self@.contains_key(key@) {
                Some(self@[key@])
            } else {
                None
            }),
    {
        let k = key.to_owned();
        match self.find(&k) {
            Some(i) => {
                proof {
                    lemma_map_of_at(self.entries@, i as int);
                }
                Some(self.entries[i].offset)
            },
            None => None,
        }
    }

    /// Records `offset` for `key`, replacing any earlier offset.
    pub fn insert(&mut self, key: String, offset: u64)
        requires
            old(self).wf(),
        ensures
            final(self).wf(),
            final(self)@ == old(self)@.insert(key@, offset),
    {
        let ghost old_entries = self.entries@;
        match self.find(&key) {
            Some(i) => {
                let ghost k = key@;
                self.entries.set(i, IndexEntry { key, offset });
                let ghost new_entries = self.entries@;
                assert(distinct_keys(new_entries));
                assert forall|q: Seq<char>| #[trigger]
                    map_of(new_entries).contains_key(q) <==> map_of(old_entries).insert(
                        k,
                        offset,
                    ).contains_key(q) by {
                    if q == k {
                        assert(new_entries[i as int].key@ == q);
                    }
                    if map_of(new_entries).contains_key(q) {
                        let j = choose|j: int| 0 <= j < new_entries.len() && new_entries[j].key@ == q;
                        if j != i {
                            lemma_map_of_at(old_entries, j);
                        }
                    }
                    if q != k && map_of(old_entries).contains_key(q) {
                        let j = choose|j: int| 0 <= j < old_entries.len() && old_entries[j].key@ == q;
                        assert(new_entries[j].key@ == q);
                    }
                }
                assert forall|q: Seq<char>| #[trigger] map_of(new_entries).contains_key(q)
                    implies map_of(new_entries)[q] == map_of(old_entries).insert(k, offset)[q] by {
                    let j = choose|j: int| 0 <= j < new_entries.len() && new_entries[j].key@ == q;
                    lemma_map_of_at(new_entries, j);
                    if j != i {
                        lemma_map_of_at(old_entries, j);
                    }
                }
                assert(map_of(new_entries) =~= map_of(old_entries).insert(k, offset));
            },
            None => {
                let ghost k = key@;
                self.entries.push(IndexEntry { key, offset });
                let ghost new_entries = self.entries@;
                assert(distinct_keys(new_entries)) by {
                    assert forall|j: int| 0 <= j < old_entries.len() implies new_entries[j].key@
                        != k by {
                        lemma_map_of_at(old_entries, j);
                    }
                }
                assert forall|q: Seq<char>| #[trigger]
                    map_of(new_entries).contains_key(q) <==> map_of(old_entries).insert(
                        k,
                        offset,
                    ).contains_key(q) by {
                    if map_of(new_entries).contains_key(q) && q != k {
                        let j = choose|j: int| 0 <= j < new_entries.len() && new_entries[j].key@ == q;
                        lemma_map_of_at(old_entries, j);
                    }
                    if q != k && map_of(old_entries).contains_key(q) {
                        let j = choose|j: int| 0 <= j < old_entries.len() && old_entries[j].key@ == q;
                        assert(new_entries[j].key@ == q);
                    }
                    if q == k {
                        assert(new_entries[old_entries.len() as int].key@ == q);
                    }
                }
                assert forall|q: Seq<char>| #[trigger] map_of(new_entries).contains_key(q)
                    implies map_of(new_entries)[q] == map_of(old_entries).insert(k, offset)[q] by {
                    let j = choose|j: int| 0 <= j < new_entries.len() && new_entries[j].key@ == q;
                    lemma_map_of_at(new_entries, j);
                    if j < old_entries.len() {
                        lemma_map_of_at(old_entries, j);
                    }
                }
                assert(map_of(new_entries) =~= map_of(old_entries).insert(k, offset));
            },
        }
    }

    /// Forgets `key`; returns the offset it had, if any.
    pub fn remove(&mut self, key: &str) -> (r: Option<u64>)
        requires
            old(self).wf(),
        ensures
            final(self).wf(),
            r == (if old(self)@.contains_key(key@) {
                Some(old(self)@[key@])
            } else {
                None
            }),
            final(self)@ == old(self)@.remove(key@),
    {
        let ghost old_entries = self.entries@;
        let k = key.to_owned();
        match self.find(&k) {
            Some(i) => {
                proof {
                    lemma_map_of_at(old_entries, i as int);
                }
                let e = self.entries.remove(i);
                let ghost new_entries = self.entries@;
                assert forall|a: int, b: int|
                    0 <= a < new_entries.len() && 0 <= b < new_entries.len() && a != b implies
                    new_entries[a].key@ != new_entries[b].key@ by {
                    let a0 = if a < i { a } else { a + 1 };
                    let b0 = if b < i { b } else { b + 1 };
                    assert(new_entries[a] == old_entries[a0]);
                    assert(new_entries[b] == old_entries[b0]);
                }
                assert forall|q: Seq<char>| #[trigger]
                    map_of(new_entries).contains_key(q) <==> map_of(old_entries).remove(
                        k@,
                    ).contains_key(q) by {
                    if map_of(new_entries).contains_key(q) {
                        let j = choose|j: int| 0 <= j < new_entries.len() && new_entries[j].key@ == q;
                        let j0 = if j < i { j } else { j + 1 };
                        assert(new_entries[j] == old_entries[j0]);
                        lemma_map_of_at(old_entries, j0);
                    }
                    if q != k@ && map_of(old_entries).contains_key(q) {
                        let j = choose|j: int| 0 <= j < old_entries.len() && old_entries[j].key@ == q;
                        let j1 = if j < i { j } else { j - 1 };
                        assert(new_entries[j1] == old_entries[j]);
                    }
                }
                assert forall|q: Seq<char>| #[trigger] map_of(new_entries).contains_key(q)
                    implies map_of(new_entries)[q] == map_of(old_entries)[q] by {
                    let j = choose|j: int| 0 <= j < new_entries.len() && new_entries[j].key@ == q;
                    let j0 = if j < i { j } else { j + 1 };
                    assert(new_entries[j] == old_entries[j0]);
                    lemma_map_of_at(new_entries, j);
                    lemma_map_of_at(old_entries, j0);
                }
                assert(map_of(new_entries) =~= map_of(old_entries).remove(k@));
                Some(e.offset)
            },
            None => {
                assert(self@ =~= old(self)@.remove(key@));
                None
            },
        }
    }
}

} // verus!
