//! An index from depositors to the positions of their records.

use vstd::prelude::*;
use crate::account::AccountId;
use crate::lemmas::lemma_index_of_unique_account;

verus! {

/// For each depositor seen so far, the positions that were added for it, in
/// the order in which they were added.
pub struct DepositorIndex {
    names: Vec<AccountId>,
    lists: Vec<Vec<usize>>,
}

impl DepositorIndex {
    /// The depositors, in the order in which they were first seen.
    pub closed spec fn names(&self) -> Seq<AccountId> {
        self.names@
    }

    /// The positions kept in slot `k`.
    pub closed spec fn list(&self, k: int) -> Seq<usize> {
        self.lists@[k]@
    }

    /// Each depositor has one slot.
    pub closed spec fn wf(&self) -> bool {
        &&& self.names@.len() == self.lists@.len()
        &&& self.names@.no_duplicates()
    }

    /// The positions added for `depositor`; none where it was never seen.
    pub open spec fn positions(&self, depositor: AccountId) -> Seq<usize> {
        if self.names().contains(depositor) {
            self.list(self.names().index_of(depositor))
        } else {
            Seq::empty()
        }
    }

    /// An index without depositors.
    pub fn new() -> (index: DepositorIndex)
        ensures
            index.wf(),
            forall|d: AccountId| #[trigger] index.positions(d) == Seq::<usize>::empty(),
    {
        DepositorIndex { names: Vec::new(), lists: Vec::new() }
    }

    /// The slot of `depositor`, if it has one.
    pub fn slot(&self, depositor: &AccountId) -> (r: Option<usize>)
        requires
            self.wf(),
        ensures
            match r {
                Some(k) => k < self.names().len() && self.names()[k as int] == *depositor
                    && self.list(k as int) == self.positions(*depositor),
                None => !self.names().contains(*depositor) && self.positions(*depositor)
                    == Seq::<usize>::empty(),
            },
    {
        let mut k: usize = 0;
        while k < self.names.len()
            invariant
                self.wf(),
                k <= self.names.len(),
                forall|j: int| 0 <= j < k ==> self.names@[j] != *depositor,
            decreases self.names.len() - k,
        {
            if self.names[k] == *depositor {
                proof {
                    lemma_index_of_unique_account(self.names@, k as int);
                }
                return Some(k);
            }
            k += 1;
        }
        None
    }

    /// The number of positions in slot `k`.
    pub fn list_len(&self, k: usize) -> (n: usize)
        requires
            self.wf(),
            k < self.names().len(),
        ensures
            n == self.list(k as int).len(),
    {
        self.lists[k].len()
    }

    /// The position at place `t` of slot `k`.
    pub fn at(&self, k: usize, t: usize) -> (p: usize)
        requires
            self.wf(),
            k < self.names().len(),
            t < self.list(k as int).len(),
        ensures
            p == self.list(k as int)[t as int],
    {
        self.lists[k][t]
    }

    /// Adds `position` behind the positions of `depositor`.
    pub fn add(&mut self, depositor: AccountId, position: usize)
        requires
            old(self).wf(),
        ensures
            final(self).wf(),
            final(self).positions(depositor) == old(self).positions(depositor).push(position),
            forall|d: AccountId|
                d != depositor ==> #[trigger] final(self).positions(d) == old(self).positions(d),
    {
        match self.slot(&depositor) {
            Some(k) => {
                self.lists[k].push(position);
                proof {
                    assert(self.names@ == old(self).names@);
                    assert(self.lists@.len() == old(self).lists@.len());
                    assert(self.lists@[k as int]@ == old(self).lists@[k as int]@.push(position));
                    assert forall|d: AccountId| d != depositor implies #[trigger] self.positions(d)
                        == old(self).positions(d) by {
                        if self.names@.contains(d) {
                            let j = self.names@.index_of(d);
                            assert(self.names@[j] == d);
                            assert(j != k);
                            assert(self.lists@[j] == old(self).lists@[j]);
                        }
                    }
                }
            },
            None => {
                let mut list: Vec<usize> = Vec::new();
                list.push(position);
                self.names.push(depositor);
                self.lists.push(list);
                proof {
                    let names = old(self).names@;
                    let grown = self.names@;
                    let n = names.len() as int;
                    assert(grown.no_duplicates()) by {
                        assert forall|i: int, j: int|
                            0 <= i < grown.len() && 0 <= j < grown.len() && i != j implies grown[i]
                            != grown[j] by {
                            if i < n {
                                assert(names.contains(names[i]));
                            }
                            if j < n {
                                assert(names.contains(names[j]));
                            }
                        }
                    }
                    lemma_index_of_unique_account(grown, n);
                    assert(list@ == Seq::<usize>::empty().push(position));
                    assert forall|d: AccountId| d != depositor implies #[trigger] self.positions(d)
                        == old(self).positions(d) by {
                        if names.contains(d) {
                            let j = names.index_of(d);
                            assert(grown[j] == d);
                            lemma_index_of_unique_account(grown, j);
                            assert(self.lists@[j] == old(self).lists@[j]);
                        } else if grown.contains(d) {
                            let j = grown.index_of(d);
                            assert(grown[j] == d);
                            assert(j < n);
                            assert(names[j] == d);
                        }
                    }
                }
            },
        }
    }
}

} // verus!
