//! An index for range queries: entries ordered by key, each pointing at a
//! position of the record store.

use vstd::prelude::*;

verus! {

/// One entry of a range index: the key of a record and the position of
/// that record in the store.
#[derive(Clone, Copy, Debug)]
pub struct Entry {
    pub key: i128,
    pub position: usize,
}

/// The keys never decrease along the sequence.
pub open spec fn sorted(entries: Seq<Entry>) -> bool {
    forall|i: int, j: int|
        #![trigger entries[i], entries[j]]
        0 <= i <= j < entries.len() ==> entries[i].key <= entries[j].key
}

/// Whether an entry with key `entry_key` stands before the point at which
/// `key` divides the index: below `key`, or, for an inclusive division, not
/// above it.
pub open spec fn before(entry_key: i128, key: i128, inclusive: bool) -> bool {
    entry_key < key || (inclusive && entry_key == key)
}

/// Entries kept in the order of their keys. Entries with equal keys stay in
/// the order in which they were inserted.
pub struct RangeIndex {
    entries: Vec<Entry>,
}

impl View for RangeIndex {
    type V = Seq<Entry>;

    closed spec fn view(&self) -> Seq<Entry> {
        self.entries@
    }
}

impl RangeIndex {
    /// The entries are in the order of their keys.
    pub open spec fn wf(&self) -> bool {
        sorted(self@)
    }

    /// An index without entries.
    pub fn new() -> (index: RangeIndex)
        ensures
            index.wf(),
            index@ == Seq::<Entry>::empty(),
    {
        RangeIndex { entries: Vec::new() }
    }

    /// The number of entries.
    pub fn len(&self) -> (n: usize)
        ensures
            n == self@.len(),
    {
        self.entries.len()
    }

    /// The entry at place `j` of the key order.
    pub fn entry(&self, j: usize) -> (e: Entry)
        requires
            j < self@.len(),
        ensures
            e == self@[j as int],
    {
        self.entries[j]
    }

    /// The place at which `key` divides the index: every entry before it is
    /// `before` the key, and no entry from it on is.
    pub fn division(&self, key: i128, inclusive: bool) -> (k: usize)
        requires
            self.wf(),
        ensures
            k <= self@.len(),
            forall|j: int| 0 <= j < k ==> before(#[trigger] self@[j].key, key, inclusive),
            forall|j: int| k <= j < self@.len() ==> !before(#[trigger] self@[j].key, key, inclusive),
    {
        let mut lo: usize = 0;
        let mut hi: usize = self.entries.len();
        while lo < hi
            invariant
                self.wf(),
                lo <= hi <= self.entries.len(),
                forall|j: int| 0 <= j < lo ==> before(#[trigger] self@[j].key, key, inclusive),
                forall|j: int|
                    hi <= j < self@.len() ==> !before(#[trigger] self@[j].key, key, inclusive),
            decreases hi - lo,
        {
            let mid = lo + (hi - lo) / 2;
            let mid_key = self.entries[mid].key;
            if mid_key < key || (inclusive && mid_key == key) {
                assert forall|j: int| 0 <= j < mid + 1 implies before(
                    #[trigger] self@[j].key,
                    key,
                    inclusive,
                ) by {
                    assert(self@[j].key <= self@[mid as int].key);
                }
                lo = mid + 1;
            } else {
                assert forall|j: int| mid <= j < self@.len() implies !before(
                    #[trigger] self@[j].key,
                    key,
                    inclusive,
                ) by {
                    assert(self@[mid as int].key <= self@[j].key);
                }
                hi = mid;
            }
        }
        lo
    }

    /// Adds an entry behind every entry whose key is not above `key`, and
    /// says at which place it now stands.
    pub fn insert(&mut self, key: i128, position: usize) -> (k: usize)
        requires
            old(self).wf(),
        ensures
            final(self).wf(),
            k <= old(self)@.len(),
            final(self)@ == old(self)@.insert(k as int, Entry { key, position }),
            forall|j: int| 0 <= j < k ==> (#[trigger] old(self)@[j]).key <= key,
            forall|j: int| k <= j < old(self)@.len() ==> (#[trigger] old(self)@[j]).key > key,
    {
        let k = self.division(key, true);
        let ghost before_insert = self@;
        self.entries.insert(k, Entry { key, position });
        proof {
            let entry = Entry { key, position };
            let after = self@;
            assert forall|j: int| 0 <= j < k implies (#[trigger] before_insert[j]).key <= key by {
                assert(before(before_insert[j].key, key, true));
            }
            assert forall|j: int| k <= j < before_insert.len() implies (
            #[trigger] before_insert[j]).key > key by {
                assert(!before(before_insert[j].key, key, true));
            }
            assert forall|i: int, j: int|
                #![trigger after[i], after[j]]
                0 <= i <= j < after.len() implies after[i].key <= after[j].key by {
                let oi = if i < k { i } else { i - 1 };
                let oj = if j < k { j } else { j - 1 };
                if i != k {
                    assert(after[i] == before_insert[oi]);
                }
                if j != k {
                    assert(after[j] == before_insert[oj]);
                }
                if i != k && j != k {
                    assert(before_insert[oi].key <= before_insert[oj].key);
                }
            }
        }
        k
    }
}

} // verus!
