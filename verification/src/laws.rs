//! What holds of the escrow in every state that calls can lead to.

use vstd::prelude::*;
use crate::account::AccountId;
use crate::lemmas::{
    lemma_aggregates_partition, lemma_aggregates_push, lemma_aggregates_update, lemma_finalize_frame,
    lemma_lock_frame, lemma_lock_preserves, lemma_position, lemma_refund_preserves,
    lemma_release_preserves, lemma_without,
};
use crate::model::{
    count_in, ids_of, new_record, total_deposited, total_in, with_status, without, EscrowState,
};
use crate::types::{Call, Error, EscrowRecord, EscrowStatus, GatewayOutcome, RangeKey};

verus! {

/// Every call, accepted or rejected, keeps the invariant.
pub proof fn law_call_keeps_invariant(s: EscrowState, call: Call)
    requires
        s.inv(),
    ensures
        s.after(call).inv(),
{
    if s.rejection(call) is None {
        match call {
            Call::Init { admin, token } => {},
            Call::SetRefundMode { caller, mode } => {},
            Call::LockFunds { caller, depositor, bounty_id, amount, deadline, now, outcome } => {
                lemma_lock_preserves(s, new_record(depositor, bounty_id, amount, deadline, now));
            },
            Call::ReleaseFunds { caller, bounty_id, recipient, outcome } => {
                lemma_release_preserves(s, bounty_id);
            },
            Call::Refund { caller, bounty_id, now, outcome } => {
                lemma_refund_preserves(s, bounty_id, now);
            },
        }
    }
}

/// Every state that calls lead to from a state with the invariant has it;
/// so has every state reached from the initial one.
pub proof fn law_invariant(s: EscrowState, calls: Seq<Call>)
    requires
        s.inv(),
    ensures
        s.run(calls).inv(),
        EscrowState::initial().inv(),
    decreases calls.len(),
{
    if calls.len() > 0 {
        law_invariant(s, calls.drop_last());
        law_call_keeps_invariant(s.run(calls.drop_last()), calls.last());
    }
}

/// A call adds to the sum of all deposits the amount that it locks, and
/// nothing else: releases and refunds move amounts between the totals
/// without changing their sum.
pub proof fn law_call_conserves(s: EscrowState, call: Call)
    requires
        s.inv(),
    ensures
        total_deposited(s.after(call).records) == total_deposited(s.records) + s.deposit_of(call),
{
    if s.rejection(call) is None {
        match call {
            Call::Init { admin, token } => {},
            Call::SetRefundMode { caller, mode } => {},
            Call::LockFunds { caller, depositor, bounty_id, amount, deadline, now, outcome } => {
                lemma_aggregates_push(
                    s.records,
                    new_record(depositor, bounty_id, amount, deadline, now),
                    EscrowStatus::Locked,
                );
            },
            Call::ReleaseFunds { caller, bounty_id, recipient, outcome } => {
                lemma_position(s, bounty_id);
                let p = s.position(bounty_id);
                lemma_aggregates_update(
                    s.records,
                    p,
                    with_status(s.records[p], EscrowStatus::Released),
                    EscrowStatus::Locked,
                );
            },
            Call::Refund { caller, bounty_id, now, outcome } => {
                lemma_position(s, bounty_id);
                let p = s.position(bounty_id);
                lemma_aggregates_update(
                    s.records,
                    p,
                    with_status(s.records[p], EscrowStatus::Refunded),
                    EscrowStatus::Locked,
                );
            },
        }
    }
}

/// Conservation: after any sequence of calls from the initial state, the
/// locked, released and refunded totals add up to the sum of the amounts of
/// the locks that were accepted.
pub proof fn law_conservation(calls: Seq<Call>)
    ensures
        ({
            let s = EscrowState::initial().run(calls);
            total_in(s.records, EscrowStatus::Locked) + total_in(s.records, EscrowStatus::Released)
                + total_in(s.records, EscrowStatus::Refunded) == EscrowState::initial().deposits_by(
                calls,
            )
        }),
{
    law_conservation_from(EscrowState::initial(), calls);
    lemma_aggregates_partition(EscrowState::initial().run(calls).records);
    assert(total_deposited(EscrowState::initial().records) == 0);
}

/// Conservation from any state: a sequence of calls adds to the sum of all
/// deposits the amounts of the locks that were accepted.
pub proof fn law_conservation_from(s: EscrowState, calls: Seq<Call>)
    requires
        s.inv(),
    ensures
        total_deposited(s.run(calls).records) == total_deposited(s.records) + s.deposits_by(calls),
    decreases calls.len(),
{
    if calls.len() > 0 {
        law_conservation_from(s, calls.drop_last());
        law_invariant(s, calls.drop_last());
        law_call_conserves(s.run(calls.drop_last()), calls.last());
    }
}

/// In every state the three totals add up to the sum of all deposits, and
/// the three counts to the number of records.
pub proof fn law_totals_partition(s: EscrowState)
    ensures
        total_in(s.records, EscrowStatus::Locked) + total_in(s.records, EscrowStatus::Released)
            + total_in(s.records, EscrowStatus::Refunded) == total_deposited(s.records),
        count_in(s.records, EscrowStatus::Locked) + count_in(s.records, EscrowStatus::Released)
            + count_in(s.records, EscrowStatus::Refunded) == s.records.len(),
{
    lemma_aggregates_partition(s.records);
}

/// A lock by the depositor for a bounty that has a record is rejected as a
/// duplicate, whatever the state of that record and whatever the amount.
pub proof fn law_duplicate_lock_rejected(
    s: EscrowState,
    depositor: AccountId,
    bounty_id: u64,
    amount: i128,
    deadline: u64,
    now: u64,
    outcome: GatewayOutcome,
)
    requires
        s.inv(),
        s.has_record(bounty_id),
    ensures
        s.lock_error(depositor, depositor, bounty_id, amount) == Some(Error::DuplicateBountyId),
        s.rejection(
            Call::LockFunds {
                caller: depositor,
                depositor,
                bounty_id,
                amount,
                deadline,
                now,
                outcome,
            },
        ) == Some(Error::DuplicateBountyId),
{
    lemma_position(s, bounty_id);
}

/// A call keeps every record: the bounty keeps its depositor, amount,
/// deadline and creation time, and a record that has left `Locked` keeps its
/// state.
pub proof fn law_call_keeps_records(s: EscrowState, call: Call, bounty_id: u64)
    requires
        s.inv(),
        s.has_record(bounty_id),
    ensures
        s.after(call).has_record(bounty_id),
        s.after(call).record(bounty_id).depositor == s.record(bounty_id).depositor,
        s.after(call).record(bounty_id).amount == s.record(bounty_id).amount,
        s.after(call).record(bounty_id).deadline == s.record(bounty_id).deadline,
        s.after(call).record(bounty_id).created_at == s.record(bounty_id).created_at,
        s.record(bounty_id).status != EscrowStatus::Locked ==> s.after(call).record(
            bounty_id,
        ).status == s.record(bounty_id).status,
{
    if s.rejection(call) is None {
        match call {
            Call::Init { admin, token } => {},
            Call::SetRefundMode { caller, mode } => {},
            Call::LockFunds { caller, depositor, bounty_id: locked, amount, deadline, now, outcome } => {
                lemma_lock_frame(
                    s,
                    new_record(depositor, locked, amount, deadline, now),
                    bounty_id,
                );
            },
            Call::ReleaseFunds { caller, bounty_id: released, recipient, outcome } => {
                lemma_finalize_frame(s, released, EscrowStatus::Released, bounty_id);
            },
            Call::Refund { caller, bounty_id: refunded, now, outcome } => {
                lemma_finalize_frame(s, refunded, EscrowStatus::Refunded, bounty_id);
            },
        }
    }
}

/// No sequence of calls removes a record or brings one back to `Locked`:
/// a bounty that has a record keeps it, and once it has left `Locked` its
/// state stays what it is.
pub proof fn law_terminal_states(s: EscrowState, calls: Seq<Call>, bounty_id: u64)
    requires
        s.inv(),
        s.has_record(bounty_id),
    ensures
        s.run(calls).has_record(bounty_id),
        s.run(calls).record(bounty_id).amount == s.record(bounty_id).amount,
        s.run(calls).record(bounty_id).depositor == s.record(bounty_id).depositor,
        s.record(bounty_id).status != EscrowStatus::Locked ==> s.run(calls).record(
            bounty_id,
        ).status == s.record(bounty_id).status,
    decreases calls.len(),
{
    if calls.len() > 0 {
        law_terminal_states(s, calls.drop_last(), bounty_id);
        law_invariant(s, calls.drop_last());
        law_call_keeps_records(s.run(calls.drop_last()), calls.last(), bounty_id);
    }
}

/// A release by the administrator, and a refund by a caller whom the refund
/// mode admits, are rejected with `InvalidStatus` where the record has left
/// `Locked`.
pub proof fn law_finalized_rejected(s: EscrowState, caller: AccountId, bounty_id: u64, now: u64)
    requires
        s.inv(),
        s.has_record(bounty_id),
        s.record(bounty_id).status != EscrowStatus::Locked,
    ensures
        caller == s.config->0.admin ==> s.release_error(caller, bounty_id) == Some(
            Error::InvalidStatus,
        ),
        s.may_refund(caller, s.record(bounty_id)) ==> s.refund_error(caller, bounty_id, now)
            == Some(Error::InvalidStatus),
{
    lemma_position(s, bounty_id);
}

/// The deadline gates the refund of a locked bounty, inclusively: before
/// the deadline the refund is rejected with `DeadlineNotPassed`; at the
/// deadline and after it the rules accept it, and with a completed transfer
/// the record becomes `Refunded`.
pub proof fn law_refund_deadline(s: EscrowState, caller: AccountId, bounty_id: u64, now: u64)
    requires
        s.inv(),
        s.has_record(bounty_id),
        s.record(bounty_id).status == EscrowStatus::Locked,
        s.may_refund(caller, s.record(bounty_id)),
    ensures
        now < s.record(bounty_id).deadline ==> s.refund_error(caller, bounty_id, now) == Some(
            Error::DeadlineNotPassed,
        ),
        now >= s.record(bounty_id).deadline ==> s.refund_error(caller, bounty_id, now) is None
            && s.after(
            Call::Refund { caller, bounty_id, now, outcome: GatewayOutcome::Completed },
        ).record(bounty_id).status == EscrowStatus::Refunded,
        s.refund_eligible(bounty_id, now) <==> now >= s.record(bounty_id).deadline,
{
    lemma_position(s, bounty_id);
    lemma_finalize_frame(s, bounty_id, EscrowStatus::Refunded, bounty_id);
}

/// The view of a state by identifiers and its view by records agree: they
/// name the same bounties in the same order, and each bounty named is in
/// that state.
pub proof fn law_status_views_agree(s: EscrowState, status: EscrowStatus)
    requires
        s.inv(),
    ensures
        s.records_in(status).len() == s.bucket(status).len(),
        forall|k: int|
            0 <= k < s.bucket(status).len() ==> (#[trigger] s.records_in(status)[k]).bounty_id
                == s.bucket(status)[k] && s.records_in(status)[k].status == status,
{
    assert(s.bucket_ok(status));
    assert forall|k: int| 0 <= k < s.bucket(status).len() implies (#[trigger] s.records_in(
        status,
    )[k]).bounty_id == s.bucket(status)[k] && s.records_in(status)[k].status == status by {
        let id = s.bucket(status)[k];
        assert(s.has_record(id));
        lemma_position(s, id);
    }
}

/// No call lowers the number of escrows, and only an accepted lock raises
/// it, by one.
pub proof fn law_count_never_decreases(s: EscrowState, call: Call)
    ensures
        s.after(call).records.len() >= s.records.len(),
        s.after(call).records.len() == s.records.len() + if call is LockFunds && s.rejection(call)
            is None {
            1int
        } else {
            0
        },
{
}

/// No sequence of calls lowers the number of escrows.
pub proof fn law_count_monotonic(s: EscrowState, calls: Seq<Call>)
    ensures
        s.run(calls).records.len() >= s.records.len(),
    decreases calls.len(),
{
    if calls.len() > 0 {
        law_count_monotonic(s, calls.drop_last());
        law_count_never_decreases(s.run(calls.drop_last()), calls.last());
    }
}

/// The released and refunded counts and totals never go down, whatever the
/// call.
pub proof fn law_finalized_never_decrease(s: EscrowState, call: Call, status: EscrowStatus)
    requires
        s.inv(),
        status != EscrowStatus::Locked,
    ensures
        count_in(s.after(call).records, status) >= count_in(s.records, status),
        total_in(s.after(call).records, status) >= total_in(s.records, status),
{
    if s.rejection(call) is None {
        match call {
            Call::Init { admin, token } => {},
            Call::SetRefundMode { caller, mode } => {},
            Call::LockFunds { caller, depositor, bounty_id, amount, deadline, now, outcome } => {
                lemma_aggregates_push(
                    s.records,
                    new_record(depositor, bounty_id, amount, deadline, now),
                    status,
                );
            },
            Call::ReleaseFunds { caller, bounty_id, recipient, outcome } => {
                lemma_position(s, bounty_id);
                let p = s.position(bounty_id);
                lemma_aggregates_update(
                    s.records,
                    p,
                    with_status(s.records[p], EscrowStatus::Released),
                    status,
                );
            },
            Call::Refund { caller, bounty_id, now, outcome } => {
                lemma_position(s, bounty_id);
                let p = s.position(bounty_id);
                lemma_aggregates_update(
                    s.records,
                    p,
                    with_status(s.records[p], EscrowStatus::Refunded),
                    status,
                );
            },
        }
    }
}

/// The refund log only grows, and only by the line of an accepted refund:
/// every other call leaves it as it was.
pub proof fn law_refund_log_append_only(s: EscrowState, call: Call)
    ensures
        s.after(call).history == if s.rejection(call) is None {
            match call {
                Call::Refund { caller, bounty_id, now, outcome } => s.history.push(
                    s.refund_entry(bounty_id, now),
                ),
                _ => s.history,
            }
        } else {
            s.history
        },
{
}

/// A list that names each record of a state once, and nothing else, is as
/// long as the count of that state.
proof fn lemma_bucket_size(records: Seq<EscrowRecord>, bucket: Seq<u64>, status: EscrowStatus)
    requires
        ids_of(records).no_duplicates(),
        bucket.no_duplicates(),
        forall|x: u64|
            bucket.contains(x) <==> exists|i: int|
                0 <= i < records.len() && (#[trigger] records[i]).bounty_id == x && records[i].status
                    == status,
    ensures
        bucket.len() == count_in(records, status),
    decreases records.len(),
{
    if records.len() == 0 {
        if bucket.len() > 0 {
            assert(bucket.contains(bucket[0]));
        }
    } else {
        let front = records.drop_last();
        let last = records.last();
        let n = front.len() as int;
        let ids = ids_of(records);
        assert(ids_of(front).no_duplicates()) by {
            assert forall|i: int, j: int|
                0 <= i < ids_of(front).len() && 0 <= j < ids_of(front).len() && i != j implies ids_of(
                front,
            )[i] != ids_of(front)[j] by {
                assert(ids[i] != ids[j]);
            }
        }
        let rest = if last.status == status {
            without(bucket, last.bounty_id)
        } else {
            bucket
        };
        if last.status == status {
            assert(records[n].bounty_id == last.bounty_id);
            assert(bucket.contains(last.bounty_id));
            lemma_without(bucket, last.bounty_id);
        }
        assert forall|x: u64|
            rest.contains(x) <==> exists|i: int|
                0 <= i < front.len() && (#[trigger] front[i]).bounty_id == x && front[i].status
                    == status by {
            if rest.contains(x) {
                assert(bucket.contains(x));
                let i = choose|i: int|
                    0 <= i < records.len() && (#[trigger] records[i]).bounty_id == x
                        && records[i].status == status;
                assert(i < n);
                assert(front[i] == records[i]);
            }
            if exists|i: int|
                0 <= i < front.len() && (#[trigger] front[i]).bounty_id == x && front[i].status
                    == status {
                let i = choose|i: int|
                    0 <= i < front.len() && (#[trigger] front[i]).bounty_id == x && front[i].status
                        == status;
                assert(records[i] == front[i]);
                assert(ids[i] != ids[n]);
                assert(bucket.contains(x));
            }
        }
        lemma_bucket_size(front, rest, status);
    }
}

/// The view of a state by identifiers is as long as the count of that
/// state: each count is the number of records that the views list.
pub proof fn law_bucket_sizes(s: EscrowState, status: EscrowStatus)
    requires
        s.inv(),
    ensures
        s.bucket(status).len() == count_in(s.records, status),
        s.records_in(status).len() == count_in(s.records, status),
{
    let bucket = s.bucket(status);
    assert(s.bucket_ok(status));
    assert forall|x: u64|
        bucket.contains(x) <==> exists|i: int|
            0 <= i < s.records.len() && (#[trigger] s.records[i]).bounty_id == x
                && s.records[i].status == status by {
        if bucket.contains(x) {
            let k = choose|k: int| 0 <= k < bucket.len() && bucket[k] == x;
            assert(s.has_record(bucket[k]));
            lemma_position(s, x);
            assert(s.records[s.position(x)].bounty_id == x);
        }
        if exists|i: int|
            0 <= i < s.records.len() && (#[trigger] s.records[i]).bounty_id == x
                && s.records[i].status == status {
            let i = choose|i: int|
                0 <= i < s.records.len() && (#[trigger] s.records[i]).bounty_id == x
                    && s.records[i].status == status;
            assert(bucket.contains(s.records[i].bounty_id));
        }
    }
    lemma_bucket_size(s.records, bucket, status);
}

/// Two answers to one range query agree as far as both reach.
proof fn lemma_range_answers_agree(
    s: EscrowState,
    which: RangeKey,
    min: i128,
    max: i128,
    a: Seq<EscrowRecord>,
    b: Seq<EscrowRecord>,
    i: int,
)
    requires
        s.is_range_answer(which, min, max, a),
        s.is_range_answer(which, min, max, b),
        0 <= i <= a.len(),
        i <= b.len(),
    ensures
        forall|j: int| 0 <= j < i ==> a[j] == b[j],
    decreases i,
{
    if i > 0 {
        let t = i - 1;
        lemma_range_answers_agree(s, which, min, max, a, b, t);
        assert(a.contains(a[t]));
        assert(b.contains(b[t]));
        assert(s.records.contains(a[t]));
        assert(s.records.contains(b[t]));
        assert(b.contains(a[t]));
        assert(a.contains(b[t]));
        let k = choose|k: int| 0 <= k < b.len() && b[k] == a[t];
        let m = choose|m: int| 0 <= m < a.len() && a[m] == b[t];
        if k < t {
            assert(s.in_key_order(which, a[k], a[t]));
        }
        if m < t {
            assert(s.in_key_order(which, b[m], b[t]));
        }
        if k > t {
            assert(s.in_key_order(which, b[t], b[k]));
        }
        if m > t {
            assert(s.in_key_order(which, a[t], a[m]));
        }
        assert(a[t] == b[t]);
    }
}

/// A range query has one answer: what `is_range_answer` admits is fixed by
/// the records and the bounds.
pub proof fn law_range_answer_unique(
    s: EscrowState,
    which: RangeKey,
    min: i128,
    max: i128,
    a: Seq<EscrowRecord>,
    b: Seq<EscrowRecord>,
)
    requires
        s.is_range_answer(which, min, max, a),
        s.is_range_answer(which, min, max, b),
    ensures
        a == b,
{
    let short = if a.len() <= b.len() { a.len() as int } else { b.len() as int };
    lemma_range_answers_agree(s, which, min, max, a, b, short);
    if a.len() < b.len() {
        let extra = b[a.len() as int];
        assert(b.contains(extra));
        assert(s.records.contains(extra));
        assert(a.contains(extra));
        let m = choose|m: int| 0 <= m < a.len() && a[m] == extra;
        assert(s.in_key_order(which, b[m], b[a.len() as int]));
    }
    if b.len() < a.len() {
        let extra = a[b.len() as int];
        assert(a.contains(extra));
        assert(s.records.contains(extra));
        assert(b.contains(extra));
        let m = choose|m: int| 0 <= m < b.len() && b[m] == extra;
        assert(s.in_key_order(which, a[m], a[b.len() as int]));
    }
    assert(a =~= b);
}

} // verus!
