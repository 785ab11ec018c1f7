//! Facts about the model: how the aggregates move when a record is added or
//! finalized, and that every accepted call keeps the state invariant.

use vstd::prelude::*;
use crate::account::AccountId;
use crate::model::{
    count_in, ids_of, locked_of, total_deposited, total_in, with_status, without, EscrowState,
};
use crate::types::{EscrowRecord, EscrowStatus};

verus! {

/// What a record adds to the total of a state.
pub open spec fn share(record: EscrowRecord, status: EscrowStatus) -> int {
    if record.status == status {
        record.amount as int
    } else {
        0
    }
}

/// What a record adds to the count of a state.
pub open spec fn unit(record: EscrowRecord, status: EscrowStatus) -> int {
    if record.status == status {
        1
    } else {
        0
    }
}

/// Adding a record adds its amount to the total of its state and to the sum
/// of all deposits, and one to the count of its state.
pub proof fn lemma_aggregates_push(records: Seq<EscrowRecord>, r: EscrowRecord, status: EscrowStatus)
    ensures
        total_in(records.push(r), status) == total_in(records, status) + share(r, status),
        count_in(records.push(r), status) == count_in(records, status) + unit(r, status),
        total_deposited(records.push(r)) == total_deposited(records) + r.amount,
{
    assert(records.push(r).drop_last() =~= records);
}

/// Replacing one record moves its share from the aggregates of the old
/// record's state to those of the new one.
pub proof fn lemma_aggregates_update(
    records: Seq<EscrowRecord>,
    p: int,
    r: EscrowRecord,
    status: EscrowStatus,
)
    requires
        0 <= p < records.len(),
    ensures
        total_in(records.update(p, r), status) == total_in(records, status) - share(
            records[p],
            status,
        ) + share(r, status),
        count_in(records.update(p, r), status) == count_in(records, status) - unit(
            records[p],
            status,
        ) + unit(r, status),
        total_deposited(records.update(p, r)) == total_deposited(records) - records[p].amount
            + r.amount,
    decreases records.len(),
{
    if p == records.len() - 1 {
        assert(records.update(p, r).drop_last() =~= records.drop_last());
    } else {
        assert(records.update(p, r).drop_last() =~= records.drop_last().update(p, r));
        lemma_aggregates_update(records.drop_last(), p, r, status);
    }
}

/// The three totals add up to the sum of all deposits, and the three counts
/// to the number of records.
pub proof fn lemma_aggregates_partition(records: Seq<EscrowRecord>)
    ensures
        total_in(records, EscrowStatus::Locked) + total_in(records, EscrowStatus::Released)
            + total_in(records, EscrowStatus::Refunded) == total_deposited(records),
        count_in(records, EscrowStatus::Locked) + count_in(records, EscrowStatus::Released)
            + count_in(records, EscrowStatus::Refunded) == records.len(),
    decreases records.len(),
{
    if records.len() > 0 {
        lemma_aggregates_partition(records.drop_last());
    }
}

/// Where every amount is positive, no total and no count is negative.
pub proof fn lemma_aggregates_nonnegative(records: Seq<EscrowRecord>, status: EscrowStatus)
    requires
        forall|i: int| 0 <= i < records.len() ==> (#[trigger] records[i]).amount > 0,
    ensures
        total_in(records, status) >= 0,
        count_in(records, status) >= 0,
        total_deposited(records) >= 0,
    decreases records.len(),
{
    if records.len() > 0 {
        let front = records.drop_last();
        assert forall|i: int| 0 <= i < front.len() implies (#[trigger] front[i]).amount > 0 by {
            assert(front[i] == records[i]);
        }
        lemma_aggregates_nonnegative(front, status);
    }
}

/// In a sequence without repetitions, each element is found at its own
/// position.
pub proof fn lemma_index_of_unique(ids: Seq<u64>, i: int)
    requires
        ids.no_duplicates(),
        0 <= i < ids.len(),
    ensures
        ids.contains(ids[i]),
        ids.index_of(ids[i]) == i,
{
    assert(ids.contains(ids[i]));
    let j = ids.index_of(ids[i]);
    assert(0 <= j < ids.len() && ids[j] == ids[i]);
}

/// Among distinct accounts, each is found at its own position.
pub proof fn lemma_index_of_unique_account(names: Seq<AccountId>, i: int)
    requires
        names.no_duplicates(),
        0 <= i < names.len(),
    ensures
        names.contains(names[i]),
        names.index_of(names[i]) == i,
{
    assert(names.contains(names[i]));
    let j = names.index_of(names[i]);
    assert(0 <= j < names.len() && names[j] == names[i]);
}

/// Taking an element out of a sequence without repetitions leaves the other
/// elements, without repetitions.
pub proof fn lemma_without(ids: Seq<u64>, id: u64)
    requires
        ids.no_duplicates(),
        ids.contains(id),
    ensures
        without(ids, id).no_duplicates(),
        without(ids, id).len() == ids.len() - 1,
        forall|x: u64| without(ids, id).contains(x) <==> (ids.contains(x) && x != id),
{
    let k = ids.index_of(id);
    let rest = ids.remove(k);
    assert(rest == without(ids, id));
    assert forall|i: int, j: int| 0 <= i < rest.len() && 0 <= j < rest.len() && i != j implies rest[i]
        != rest[j] by {
        let ii = if i < k { i } else { i + 1 };
        let jj = if j < k { j } else { j + 1 };
        assert(rest[i] == ids[ii]);
        assert(rest[j] == ids[jj]);
    }
    assert forall|x: u64| rest.contains(x) <==> (ids.contains(x) && x != id) by {
        if rest.contains(x) {
            let i = choose|i: int| 0 <= i < rest.len() && rest[i] == x;
            let ii = if i < k { i } else { i + 1 };
            assert(rest[i] == ids[ii]);
            assert(ids.contains(x));
        }
        if ids.contains(x) && x != id {
            let ii = choose|i: int| 0 <= i < ids.len() && ids[i] == x;
            let i = if ii < k { ii } else { ii - 1 };
            assert(rest[i] == ids[ii]);
        }
    }
}

/// The locked identifiers are those of the locked records, each once where
/// no two records share an identifier.
pub proof fn lemma_locked_members(records: Seq<EscrowRecord>)
    ensures
        forall|x: u64|
            locked_of(records).contains(x) <==> exists|i: int|
                0 <= i < records.len() && (#[trigger] records[i]).bounty_id == x && records[i].status
                    == EscrowStatus::Locked,
        ids_of(records).no_duplicates() ==> locked_of(records).no_duplicates(),
    decreases records.len(),
{
    if records.len() == 0 {
    } else {
        let front = records.drop_last();
        let last = records.last();
        let n = front.len() as int;
        lemma_locked_members(front);
        let fl = locked_of(front);
        let l = locked_of(records);
        assert forall|x: u64|
            l.contains(x) <==> exists|i: int|
                0 <= i < records.len() && (#[trigger] records[i]).bounty_id == x && records[i].status
                    == EscrowStatus::Locked by {
            if l.contains(x) {
                let k = choose|k: int| 0 <= k < l.len() && l[k] == x;
                if k < fl.len() {
                    assert(fl[k] == x);
                    assert(fl.contains(x));
                    let i = choose|i: int|
                        0 <= i < front.len() && (#[trigger] front[i]).bounty_id == x
                            && front[i].status == EscrowStatus::Locked;
                    assert(records[i] == front[i]);
                } else {
                    assert(records[n].bounty_id == x);
                }
            }
            if exists|i: int|
                0 <= i < records.len() && (#[trigger] records[i]).bounty_id == x && records[i].status
                    == EscrowStatus::Locked {
                let i = choose|i: int|
                    0 <= i < records.len() && (#[trigger] records[i]).bounty_id == x
                        && records[i].status == EscrowStatus::Locked;
                if i < n {
                    assert(front[i] == records[i]);
                    assert(fl.contains(x));
                    let k = choose|k: int| 0 <= k < fl.len() && fl[k] == x;
                    assert(l[k] == x);
                } else {
                    assert(l[fl.len() as int] == x);
                }
            }
        }
        if ids_of(records).no_duplicates() {
            let ids = ids_of(records);
            assert(ids_of(front) =~= ids.drop_last());
            assert(ids_of(front).no_duplicates()) by {
                assert forall|i: int, j: int|
                    0 <= i < ids_of(front).len() && 0 <= j < ids_of(front).len() && i
                        != j implies ids_of(front)[i] != ids_of(front)[j] by {
                    assert(ids[i] != ids[j]);
                }
            }
            if last.status == EscrowStatus::Locked {
                assert(!fl.contains(last.bounty_id)) by {
                    if fl.contains(last.bounty_id) {
                        let i = choose|i: int|
                            0 <= i < front.len() && (#[trigger] front[i]).bounty_id
                                == last.bounty_id && front[i].status == EscrowStatus::Locked;
                        assert(ids[i] == ids[n]);
                    }
                }
                assert forall|a: int, b: int| 0 <= a < l.len() && 0 <= b < l.len() && a != b implies l[a]
                    != l[b] by {
                    if a < fl.len() {
                        assert(fl.contains(fl[a]));
                    }
                    if b < fl.len() {
                        assert(fl.contains(fl[b]));
                    }
                }
            }
        }
    }
}

/// When a locked record is finalized, its identifier leaves the locked
/// identifiers and the others keep their order.
pub proof fn lemma_locked_finalize(records: Seq<EscrowRecord>, p: int, status: EscrowStatus)
    requires
        ids_of(records).no_duplicates(),
        0 <= p < records.len(),
        records[p].status == EscrowStatus::Locked,
        status != EscrowStatus::Locked,
    ensures
        locked_of(records.update(p, with_status(records[p], status))) == without(
            locked_of(records),
            records[p].bounty_id,
        ),
    decreases records.len(),
{
    let id = records[p].bounty_id;
    let changed = records.update(p, with_status(records[p], status));
    let front = records.drop_last();
    let last = records.last();
    let n = front.len() as int;
    let ids = ids_of(records);
    let fl = locked_of(front);
    let l = locked_of(records);
    lemma_locked_members(records);
    lemma_locked_members(front);
    assert(l.contains(id));
    assert(ids_of(front).no_duplicates()) by {
        assert forall|i: int, j: int|
            0 <= i < ids_of(front).len() && 0 <= j < ids_of(front).len() && i != j implies ids_of(
            front,
        )[i] != ids_of(front)[j] by {
            assert(ids[i] != ids[j]);
        }
    }
    if p == n {
        assert(changed.drop_last() =~= front);
        assert(!fl.contains(id)) by {
            if fl.contains(id) {
                let i = choose|i: int|
                    0 <= i < front.len() && (#[trigger] front[i]).bounty_id == id && front[i].status
                        == EscrowStatus::Locked;
                assert(ids[i] == ids[n]);
            }
        }
        assert(l == fl.push(id));
        lemma_index_of_unique(l, fl.len() as int);
        assert(l.remove(fl.len() as int) =~= fl);
    } else {
        assert(changed.drop_last() =~= front.update(p, with_status(front[p], status)));
        assert(front[p] == records[p]);
        lemma_locked_finalize(front, p, status);
        assert(fl.contains(id));
        let k = fl.index_of(id);
        assert(0 <= k < fl.len() && fl[k] == id);
        if last.status == EscrowStatus::Locked {
            assert(l == fl.push(last.bounty_id));
            assert(l[k] == id);
            lemma_index_of_unique(l, k);
            assert(l.remove(k) =~= fl.remove(k).push(last.bounty_id));
        }
    }
}

/// Adding a record appends its identifier to the identifiers.
pub proof fn lemma_ids_push(records: Seq<EscrowRecord>, r: EscrowRecord)
    ensures
        ids_of(records.push(r)) == ids_of(records).push(r.bounty_id),
{
    assert(ids_of(records.push(r)) =~= ids_of(records).push(r.bounty_id));
}

/// Replacing a record by one with the same identifier keeps the identifiers.
pub proof fn lemma_ids_update(records: Seq<EscrowRecord>, p: int, r: EscrowRecord)
    requires
        0 <= p < records.len(),
        r.bounty_id == records[p].bounty_id,
    ensures
        ids_of(records.update(p, r)) == ids_of(records),
{
    assert(ids_of(records.update(p, r)) =~= ids_of(records));
}

/// In a state with distinct identifiers, the record at position `i` is the
/// record of its own identifier.
pub proof fn lemma_record_at(s: EscrowState, i: int)
    requires
        ids_of(s.records).no_duplicates(),
        0 <= i < s.records.len(),
    ensures
        s.has_record(s.records[i].bounty_id),
        s.position(s.records[i].bounty_id) == i,
        s.record(s.records[i].bounty_id) == s.records[i],
{
    lemma_index_of_unique(ids_of(s.records), i);
}

/// The position of an existing record is a position of the store, and the
/// record there carries the identifier asked for.
pub proof fn lemma_position(s: EscrowState, id: u64)
    requires
        s.has_record(id),
    ensures
        0 <= s.position(id) < s.records.len(),
        s.records[s.position(id)].bounty_id == id,
        s.record(id).bounty_id == id,
{
    let ids = ids_of(s.records);
    let j = ids.index_of(id);
    assert(0 <= j < ids.len() && ids[j] == id);
}

/// A lock leaves every earlier record where and as it was, and puts the new
/// record last.
pub proof fn lemma_lock_frame(s: EscrowState, rec: EscrowRecord, id: u64)
    requires
        ids_of(s.records).no_duplicates(),
        !s.has_record(rec.bounty_id),
    ensures
        ids_of(s.after_lock(rec).records).no_duplicates(),
        s.after_lock(rec).has_record(id) <==> (s.has_record(id) || id == rec.bounty_id),
        s.has_record(id) ==> s.after_lock(rec).position(id) == s.position(id)
            && s.after_lock(rec).record(id) == s.record(id),
        id == rec.bounty_id ==> s.after_lock(rec).position(id) == s.records.len()
            && s.after_lock(rec).record(id) == rec,
{
    let t = s.after_lock(rec);
    let ids = ids_of(s.records);
    let tids = ids_of(t.records);
    lemma_ids_push(s.records, rec);
    assert(tids.no_duplicates()) by {
        assert forall|i: int, j: int| 0 <= i < tids.len() && 0 <= j < tids.len() && i != j implies tids[i]
            != tids[j] by {
            if i < ids.len() {
                assert(ids[i] == tids[i]);
                assert(ids.contains(ids[i]));
            }
            if j < ids.len() {
                assert(ids[j] == tids[j]);
                assert(ids.contains(ids[j]));
            }
        }
    }
    if s.has_record(id) {
        lemma_position(s, id);
        let p = s.position(id);
        assert(tids[p] == id);
        lemma_index_of_unique(tids, p);
    }
    if id == rec.bounty_id {
        let n = s.records.len() as int;
        assert(tids[n] == id);
        lemma_index_of_unique(tids, n);
    }
    if t.has_record(id) {
        lemma_position(t, id);
        let q = t.position(id);
        if q < ids.len() {
            assert(ids[q] == id);
            assert(ids.contains(id));
        }
    }
}

/// A lock that the rules accept keeps the invariant.
pub proof fn lemma_lock_preserves(s: EscrowState, rec: EscrowRecord)
    requires
        s.inv(),
        s.config is Some,
        !s.has_record(rec.bounty_id),
        rec.amount > 0,
        rec.status == EscrowStatus::Locked,
    ensures
        s.after_lock(rec).inv(),
{
    let t = s.after_lock(rec);
    let n = s.records.len() as int;
    lemma_lock_frame(s, rec, rec.bounty_id);
    assert forall|i: int| 0 <= i < t.records.len() implies (#[trigger] t.records[i]).amount > 0 by {
        if i < n {
            assert(t.records[i] == s.records[i]);
        }
    }
    assert(t.locked == locked_of(t.records)) by {
        assert(t.records.drop_last() =~= s.records);
    }
    lemma_lock_bucket(s, rec, EscrowStatus::Locked);
    lemma_lock_bucket(s, rec, EscrowStatus::Released);
    lemma_lock_bucket(s, rec, EscrowStatus::Refunded);
    assert(t.history_ok()) by {
        assert forall|k: int| 0 <= k < t.history.len() implies {
            let h = #[trigger] t.history[k];
            &&& h.bounty_id == t.refunded[k]
            &&& t.has_record(h.bounty_id)
            &&& h.depositor == t.record(h.bounty_id).depositor
            &&& h.amount == t.record(h.bounty_id).amount
            &&& h.refunded_at >= t.record(h.bounty_id).deadline
        } by {
            let h = s.history[k];
            lemma_lock_frame(s, rec, h.bounty_id);
        }
    }
}

/// A lock keeps each bucket true to the records.
proof fn lemma_lock_bucket(s: EscrowState, rec: EscrowRecord, status: EscrowStatus)
    requires
        ids_of(s.records).no_duplicates(),
        s.bucket_ok(status),
        !s.has_record(rec.bounty_id),
        rec.status == EscrowStatus::Locked,
    ensures
        s.after_lock(rec).bucket_ok(status),
{
    let t = s.after_lock(rec);
    let n = s.records.len() as int;
    let b = s.bucket(status);
    let tb = t.bucket(status);
    assert(!b.contains(rec.bounty_id)) by {
        if b.contains(rec.bounty_id) {
            let k = choose|k: int| 0 <= k < b.len() && b[k] == rec.bounty_id;
            assert(s.has_record(b[k]));
        }
    }
    assert(tb.no_duplicates()) by {
        if status == EscrowStatus::Locked {
            assert forall|i: int, j: int| 0 <= i < tb.len() && 0 <= j < tb.len() && i != j implies tb[i]
                != tb[j] by {
                if i < b.len() {
                    assert(b.contains(b[i]));
                }
                if j < b.len() {
                    assert(b.contains(b[j]));
                }
            }
        }
    }
    assert forall|k: int| 0 <= k < tb.len() implies t.has_record(#[trigger] tb[k]) && t.record(
        tb[k],
    ).status == status by {
        lemma_lock_frame(s, rec, tb[k]);
        if k < b.len() {
            assert(tb[k] == b[k]);
        }
    }
    assert forall|i: int|
        0 <= i < t.records.len() && (#[trigger] t.records[i]).status == status implies tb.contains(
        t.records[i].bounty_id,
    ) by {
        if i < n {
            assert(t.records[i] == s.records[i]);
            assert(b.contains(s.records[i].bounty_id));
            let k = choose|k: int| 0 <= k < b.len() && b[k] == s.records[i].bounty_id;
            assert(tb[k] == b[k]);
        } else {
            assert(tb[b.len() as int] == rec.bounty_id);
        }
    }
}

/// Finalizing a bounty changes the status of its record and nothing else
/// about the records: every record stays where it was.
pub proof fn lemma_finalize_frame(s: EscrowState, id: u64, status: EscrowStatus, other: u64)
    requires
        ids_of(s.records).no_duplicates(),
        s.has_record(id),
        status != EscrowStatus::Locked,
    ensures
        ids_of(s.after_finalize(id, status).records) == ids_of(s.records),
        s.after_finalize(id, status).records.len() == s.records.len(),
        s.after_finalize(id, status).config == s.config,
        s.after_finalize(id, status).history == s.history,
        s.after_finalize(id, status).has_record(other) == s.has_record(other),
        s.after_finalize(id, status).position(other) == s.position(other),
        s.has_record(other) && other != id ==> s.after_finalize(id, status).record(other)
            == s.record(other),
        s.after_finalize(id, status).record(id) == with_status(s.record(id), status),
{
    let t = s.after_finalize(id, status);
    let p = s.position(id);
    lemma_position(s, id);
    lemma_ids_update(s.records, p, with_status(s.records[p], status));
    if s.has_record(other) && other != id {
        lemma_position(s, other);
    }
}

/// Finalizing a locked bounty keeps each bucket true to the records.
proof fn lemma_finalize_bucket(s: EscrowState, id: u64, status: EscrowStatus, of: EscrowStatus)
    requires
        s.inv(),
        s.has_record(id),
        s.record(id).status == EscrowStatus::Locked,
        status != EscrowStatus::Locked,
    ensures
        s.after_finalize(id, status).bucket_ok(of),
{
    let t = s.after_finalize(id, status);
    let p = s.position(id);
    let ids = ids_of(s.records);
    let b = s.bucket(of);
    let tb = t.bucket(of);
    lemma_position(s, id);
    lemma_finalize_frame(s, id, status, id);
    assert(s.bucket_ok(of));
    assert(s.bucket_ok(EscrowStatus::Locked));
    // Where the identifier stands before the call.
    assert(s.records[p].status == EscrowStatus::Locked);
    assert(s.locked.contains(s.records[p].bounty_id));
    if of != EscrowStatus::Locked {
        assert(!b.contains(id)) by {
            if b.contains(id) {
                let k = choose|k: int| 0 <= k < b.len() && b[k] == id;
                assert(s.record(b[k]).status == of);
            }
        }
    }
    if of == EscrowStatus::Locked {
        lemma_without(b, id);
    }
    assert(tb.no_duplicates()) by {
        if of == status {
            assert(tb == b.push(id));
            assert forall|i: int, j: int| 0 <= i < tb.len() && 0 <= j < tb.len() && i != j implies tb[i]
                != tb[j] by {
                if i < b.len() {
                    assert(b.contains(b[i]));
                }
                if j < b.len() {
                    assert(b.contains(b[j]));
                }
            }
        }
    }
    assert forall|k: int| 0 <= k < tb.len() implies t.has_record(#[trigger] tb[k]) && t.record(
        tb[k],
    ).status == of by {
        let x = tb[k];
        lemma_finalize_frame(s, id, status, x);
        if of == EscrowStatus::Locked {
            assert(tb.contains(x));
            assert(b.contains(x) && x != id);
            let j = choose|j: int| 0 <= j < b.len() && b[j] == x;
            assert(s.has_record(b[j]) && s.record(b[j]).status == of);
        } else if of == status {
            if k < b.len() {
                assert(tb[k] == b[k]);
                assert(b.contains(b[k]));
                assert(s.has_record(b[k]) && s.record(b[k]).status == of);
            }
        } else {
            assert(b.contains(b[k]));
            assert(s.has_record(b[k]) && s.record(b[k]).status == of);
        }
    }
    assert forall|i: int|
        0 <= i < t.records.len() && (#[trigger] t.records[i]).status == of implies tb.contains(
        t.records[i].bounty_id,
    ) by {
        if i == p {
            assert(of == status);
            assert(tb[b.len() as int] == id);
        } else {
            assert(t.records[i] == s.records[i]);
            assert(ids[i] != ids[p]);
            assert(b.contains(s.records[i].bounty_id));
            if of == EscrowStatus::Locked {
            } else if of == status {
                let k = choose|k: int| 0 <= k < b.len() && b[k] == s.records[i].bounty_id;
                assert(tb[k] == b[k]);
            }
        }
    }
}

/// Finalizing a locked bounty keeps everything of the invariant that does
/// not speak of the refund log.
proof fn lemma_finalize_preserves(s: EscrowState, id: u64, status: EscrowStatus)
    requires
        s.inv(),
        s.has_record(id),
        s.record(id).status == EscrowStatus::Locked,
        status != EscrowStatus::Locked,
    ensures
        ids_of(s.after_finalize(id, status).records).no_duplicates(),
        forall|i: int|
            0 <= i < s.after_finalize(id, status).records.len() ==> (
            #[trigger] s.after_finalize(id, status).records[i]).amount > 0,
        s.after_finalize(id, status).config is None ==> s.after_finalize(id, status).records.len()
            == 0,
        s.after_finalize(id, status).locked == locked_of(s.after_finalize(id, status).records),
        s.after_finalize(id, status).bucket_ok(EscrowStatus::Locked),
        s.after_finalize(id, status).bucket_ok(EscrowStatus::Released),
        s.after_finalize(id, status).bucket_ok(EscrowStatus::Refunded),
        forall|k: int|
            0 <= k < s.history.len() ==> {
                let h = #[trigger] s.history[k];
                &&& s.after_finalize(id, status).has_record(h.bounty_id)
                &&& h.depositor == s.after_finalize(id, status).record(h.bounty_id).depositor
                &&& h.amount == s.after_finalize(id, status).record(h.bounty_id).amount
                &&& h.refunded_at >= s.after_finalize(id, status).record(h.bounty_id).deadline
            },
{
    let t = s.after_finalize(id, status);
    let p = s.position(id);
    lemma_position(s, id);
    lemma_finalize_frame(s, id, status, id);
    assert forall|i: int| 0 <= i < t.records.len() implies (#[trigger] t.records[i]).amount > 0 by {
        assert(s.records[i].amount > 0);
    }
    lemma_locked_finalize(s.records, p, status);
    lemma_finalize_bucket(s, id, status, EscrowStatus::Locked);
    lemma_finalize_bucket(s, id, status, EscrowStatus::Released);
    lemma_finalize_bucket(s, id, status, EscrowStatus::Refunded);
    assert forall|k: int| 0 <= k < s.history.len() implies {
        let h = #[trigger] s.history[k];
        &&& t.has_record(h.bounty_id)
        &&& h.depositor == t.record(h.bounty_id).depositor
        &&& h.amount == t.record(h.bounty_id).amount
        &&& h.refunded_at >= t.record(h.bounty_id).deadline
    } by {
        let h = s.history[k];
        assert(s.has_record(h.bounty_id));
        lemma_finalize_frame(s, id, status, h.bounty_id);
    }
}

/// A release that the rules accept keeps the invariant.
pub proof fn lemma_release_preserves(s: EscrowState, id: u64)
    requires
        s.inv(),
        s.has_record(id),
        s.record(id).status == EscrowStatus::Locked,
    ensures
        s.after_release(id).inv(),
{
    lemma_finalize_preserves(s, id, EscrowStatus::Released);
    let t = s.after_release(id);
    assert(t.history_ok()) by {
        assert forall|k: int| 0 <= k < t.history.len() implies {
            let h = #[trigger] t.history[k];
            &&& h.bounty_id == t.refunded[k]
            &&& t.has_record(h.bounty_id)
            &&& h.depositor == t.record(h.bounty_id).depositor
            &&& h.amount == t.record(h.bounty_id).amount
            &&& h.refunded_at >= t.record(h.bounty_id).deadline
        } by {
            assert(t.history[k] == s.history[k]);
        }
    }
}

/// A refund that the rules accept keeps the invariant.
pub proof fn lemma_refund_preserves(s: EscrowState, id: u64, now: u64)
    requires
        s.inv(),
        s.has_record(id),
        s.record(id).status == EscrowStatus::Locked,
        now >= s.record(id).deadline,
    ensures
        s.after_refund(id, now).inv(),
{
    lemma_finalize_preserves(s, id, EscrowStatus::Refunded);
    lemma_finalize_frame(s, id, EscrowStatus::Refunded, id);
    let m = s.after_finalize(id, EscrowStatus::Refunded);
    let t = s.after_refund(id, now);
    assert(t.records == m.records);
    assert(t.locked == m.locked);
    assert(t.bucket_ok(EscrowStatus::Locked)) by {
        assert(t.bucket(EscrowStatus::Locked) == m.bucket(EscrowStatus::Locked));
    }
    assert(t.bucket_ok(EscrowStatus::Released)) by {
        assert(t.bucket(EscrowStatus::Released) == m.bucket(EscrowStatus::Released));
    }
    assert(t.bucket_ok(EscrowStatus::Refunded)) by {
        assert(t.bucket(EscrowStatus::Refunded) == m.bucket(EscrowStatus::Refunded));
    }
    assert(t.history_ok()) by {
        assert forall|k: int| 0 <= k < t.history.len() implies {
            let h = #[trigger] t.history[k];
            &&& h.bounty_id == t.refunded[k]
            &&& t.has_record(h.bounty_id)
            &&& h.depositor == t.record(h.bounty_id).depositor
            &&& h.amount == t.record(h.bounty_id).amount
            &&& h.refunded_at >= t.record(h.bounty_id).deadline
        } by {
            if k < s.history.len() {
                assert(t.history[k] == s.history[k]);
                assert(t.refunded[k] == s.refunded[k]);
            } else {
                assert(t.history[k] == s.refund_entry(id, now));
            }
        }
    }
}

} // verus!
