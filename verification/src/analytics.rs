//! What the secondary indices must hold to be true to the records, and why
//! they stay so when a record is added or finalized.

use vstd::prelude::*;
use crate::account::AccountId;
use crate::lemmas::lemma_record_at;
use crate::model::{deposits_of, key_of, ids_of, EscrowState};
use crate::range_index::{sorted, Entry};
use crate::types::{EscrowRecord, RangeKey};

verus! {

/// Some entry of the index points at position `i`.
pub open spec fn covered(index: Seq<Entry>, i: int) -> bool {
    exists|j: int| 0 <= j < index.len() && (#[trigger] index[j]).position == i
}

/// The range index on `which` is true to the records: each entry points at
/// a record and carries its key, each record has an entry, and entries with
/// equal keys stand in creation order.
pub open spec fn index_ok(index: Seq<Entry>, records: Seq<EscrowRecord>, which: RangeKey) -> bool {
    &&& sorted(index)
    &&& forall|j: int|
        0 <= j < index.len() ==> (#[trigger] index[j]).position < records.len() && index[j].key
            == key_of(records[index[j].position as int], which)
    &&& forall|i: int| 0 <= i < records.len() ==> #[trigger] covered(index, i)
    &&& forall|j: int, k: int|
        #![trigger index[j], index[k]]
        0 <= j < k < index.len() && index[j].key == index[k].key ==> index[j].position
            < index[k].position
}

/// An index stays true when a record is appended and its entry inserted
/// behind the entries whose key is not above its own.
pub proof fn lemma_index_insert(
    index: Seq<Entry>,
    records: Seq<EscrowRecord>,
    which: RangeKey,
    r: EscrowRecord,
    k: int,
    after: Seq<Entry>,
)
    requires
        index_ok(index, records, which),
        0 <= k <= index.len(),
        records.len() < usize::MAX,
        after == index.insert(k, Entry { key: key_of(r, which), position: records.len() as usize }),
        sorted(after),
        forall|j: int| 0 <= j < k ==> (#[trigger] index[j]).key <= key_of(r, which),
        forall|j: int| k <= j < index.len() ==> (#[trigger] index[j]).key > key_of(r, which),
    ensures
        index_ok(after, records.push(r), which),
{
    let n = records.len() as int;
    let grown = records.push(r);
    let entry = Entry { key: key_of(r, which), position: records.len() as usize };
    index.insert_ensures(k, entry);
    assert forall|j: int| 0 <= j < after.len() implies (#[trigger] after[j]).position < grown.len()
        && after[j].key == key_of(grown[after[j].position as int], which) by {
        if j < k {
            assert(after[j] == index[j]);
        } else if j > k {
            assert(after[j] == index[j - 1]);
        }
    }
    assert forall|i: int| 0 <= i < grown.len() implies #[trigger] covered(after, i) by {
        if i < n {
            assert(covered(index, i));
            let j = choose|j: int| 0 <= j < index.len() && (#[trigger] index[j]).position == i;
            if j < k {
                assert(after[j] == index[j]);
            } else {
                assert(after[j + 1] == index[j]);
            }
        } else {
            assert(after[k].position == i);
        }
    }
    assert forall|j: int, l: int|
        #![trigger after[j], after[l]]
        0 <= j < l < after.len() && after[j].key == after[l].key implies after[j].position
            < after[l].position by {
        let oj = if j < k { j } else { j - 1 };
        let ol = if l < k { l } else { l - 1 };
        if j != k {
            assert(after[j] == index[oj]);
        }
        if l != k {
            assert(after[l] == index[ol]);
        }
        if j != k && l != k {
            assert(index[oj].position < index[ol].position);
        }
    }
}

/// An index stays true when a record is replaced by one with the same key.
pub proof fn lemma_index_update(
    index: Seq<Entry>,
    records: Seq<EscrowRecord>,
    which: RangeKey,
    p: int,
    r: EscrowRecord,
)
    requires
        index_ok(index, records, which),
        0 <= p < records.len(),
        key_of(r, which) == key_of(records[p], which),
    ensures
        index_ok(index, records.update(p, r), which),
{
    let changed = records.update(p, r);
    assert forall|i: int| 0 <= i < changed.len() implies #[trigger] covered(index, i) by {
        assert(covered(index, i));
    }
}

/// The positions of the records of one depositor, in creation order.
pub open spec fn positions_of(records: Seq<EscrowRecord>, depositor: AccountId) -> Seq<int>
    decreases records.len(),
{
    if records.len() == 0 {
        Seq::empty()
    } else if records.last().depositor == depositor {
        positions_of(records.drop_last(), depositor).push(records.len() - 1)
    } else {
        positions_of(records.drop_last(), depositor)
    }
}

/// Appending a record adds its position to the positions of its depositor
/// and to no others.
pub proof fn lemma_positions_push(records: Seq<EscrowRecord>, r: EscrowRecord, depositor: AccountId)
    ensures
        positions_of(records.push(r), depositor) == if r.depositor == depositor {
            positions_of(records, depositor).push(records.len() as int)
        } else {
            positions_of(records, depositor)
        },
{
    assert(records.push(r).drop_last() =~= records);
}

/// Replacing a record by one of the same depositor keeps the positions of
/// every depositor.
pub proof fn lemma_positions_update(
    records: Seq<EscrowRecord>,
    p: int,
    r: EscrowRecord,
    depositor: AccountId,
)
    requires
        0 <= p < records.len(),
        r.depositor == records[p].depositor,
    ensures
        positions_of(records.update(p, r), depositor) == positions_of(records, depositor),
    decreases records.len(),
{
    if p == records.len() - 1 {
        assert(records.update(p, r).drop_last() =~= records.drop_last());
    } else {
        assert(records.update(p, r).drop_last() =~= records.drop_last().update(p, r));
        lemma_positions_update(records.drop_last(), p, r, depositor);
    }
}

/// The positions of a depositor point at its records, one for one.
pub proof fn lemma_positions_deposits(records: Seq<EscrowRecord>, depositor: AccountId)
    ensures
        positions_of(records, depositor).len() == deposits_of(records, depositor).len(),
        forall|t: int|
            0 <= t < positions_of(records, depositor).len() ==> 0 <= (#[trigger] positions_of(
                records,
                depositor,
            )[t]) < records.len() && deposits_of(records, depositor)[t] == records[positions_of(
                records,
                depositor,
            )[t]],
    decreases records.len(),
{
    if records.len() > 0 {
        let front = records.drop_last();
        lemma_positions_deposits(front, depositor);
        assert forall|t: int| 0 <= t < positions_of(records, depositor).len() implies 0 <= (
        #[trigger] positions_of(records, depositor)[t]) < records.len() && deposits_of(
            records,
            depositor,
        )[t] == records[positions_of(records, depositor)[t]] by {
            if t < positions_of(front, depositor).len() {
                let q = positions_of(front, depositor)[t];
                assert(front[q] == records[q]);
            }
        }
    }
}

/// The positions that an index keeps for a depositor are those of its
/// records.
pub open spec fn mirrors(list: Seq<usize>, positions: Seq<int>) -> bool {
    &&& list.len() == positions.len()
    &&& forall|t: int| 0 <= t < list.len() ==> #[trigger] list[t] == positions[t]
}

/// The records that a true index points at between the place where `min`
/// divides it, exclusively, and the place where `max` divides it,
/// inclusively, are the answer to the range query.
pub proof fn lemma_range_answer(
    s: EscrowState,
    index: Seq<Entry>,
    which: RangeKey,
    min: i128,
    max: i128,
    lo: int,
    hi: int,
    found: Seq<EscrowRecord>,
)
    requires
        ids_of(s.records).no_duplicates(),
        index_ok(index, s.records, which),
        0 <= lo <= index.len(),
        0 <= hi <= index.len(),
        forall|j: int| 0 <= j < lo ==> (#[trigger] index[j]).key < min,
        forall|j: int| lo <= j < index.len() ==> (#[trigger] index[j]).key >= min,
        forall|j: int| 0 <= j < hi ==> (#[trigger] index[j]).key <= max,
        forall|j: int| hi <= j < index.len() ==> (#[trigger] index[j]).key > max,
        found.len() == if hi >= lo { hi - lo } else { 0 },
        forall|t: int|
            0 <= t < found.len() ==> #[trigger] found[t] == s.records[index[lo + t].position as int],
    ensures
        s.is_range_answer(which, min, max, found),
{
    assert forall|r: EscrowRecord|
        #![trigger found.contains(r)]
        #![trigger s.records.contains(r)]
        found.contains(r) <==> (s.records.contains(r) && min <= key_of(r, which) <= max) by {
        if found.contains(r) {
            let t = choose|t: int| 0 <= t < found.len() && found[t] == r;
            let e = index[lo + t];
            assert(found[t] == s.records[e.position as int]);
            assert(s.records.contains(r));
        }
        if s.records.contains(r) && min <= key_of(r, which) <= max {
            let i = choose|i: int| 0 <= i < s.records.len() && s.records[i] == r;
            assert(covered(index, i));
            let j = choose|j: int| 0 <= j < index.len() && (#[trigger] index[j]).position == i;
            assert(index[j].key == key_of(r, which));
            assert(lo <= j < hi);
            assert(found[j - lo] == s.records[index[lo + (j - lo)].position as int]);
        }
    }
    assert forall|a: int, b: int|
        #![trigger found[a], found[b]]
        0 <= a < b < found.len() implies s.in_key_order(which, found[a], found[b]) by {
        let ea = index[lo + a];
        let eb = index[lo + b];
        assert(found[a] == s.records[ea.position as int]);
        assert(found[b] == s.records[eb.position as int]);
        assert(ea.key <= eb.key);
        lemma_record_at(s, ea.position as int);
        lemma_record_at(s, eb.position as int);
    }
}

} // verus!
