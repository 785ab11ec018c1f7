//! The invariant says all there is to say: every state that has it is one
//! that calls lead to from the initial state.

use vstd::prelude::*;
use crate::laws::{law_call_keeps_invariant, law_invariant};
use crate::lemmas::{lemma_position, lemma_record_at};
use crate::model::{ids_of, locked_of, with_status, EscrowState};
use crate::types::{Call, EscrowRecord, EscrowStatus, GatewayOutcome};

verus! {

/// The lock that created `record`.
pub open spec fn lock_of(record: EscrowRecord) -> Call {
    Call::LockFunds {
        caller: record.depositor,
        depositor: record.depositor,
        bounty_id: record.bounty_id,
        amount: record.amount,
        deadline: record.deadline,
        now: record.created_at,
        outcome: GatewayOutcome::Completed,
    }
}

/// The `t`-th call of a run that leads to `s`, after the two calls that
/// configure: first the locks in the order of the records, then the
/// releases in their order, then the refunds in the order of the log.
pub open spec fn call_at(s: EscrowState, t: int) -> Call {
    let n = s.records.len() as int;
    let k = s.released.len() as int;
    if t < n {
        lock_of(s.records[t])
    } else if t < n + k {
        Call::ReleaseFunds {
            caller: s.config->0.admin,
            bounty_id: s.released[t - n],
            recipient: s.config->0.admin,
            outcome: GatewayOutcome::Completed,
        }
    } else {
        Call::Refund {
            caller: s.history[t - n - k].depositor,
            bounty_id: s.history[t - n - k].bounty_id,
            now: s.history[t - n - k].refunded_at,
            outcome: GatewayOutcome::Completed,
        }
    }
}

/// The two calls that configure, and the first `t` calls after them.
pub open spec fn calls_to(s: EscrowState, t: int) -> Seq<Call>
    decreases t,
{
    if t <= 0 {
        Seq::<Call>::empty().push(
            Call::Init { admin: s.config->0.admin, token: s.config->0.token },
        ).push(
            Call::SetRefundMode { caller: s.config->0.admin, mode: s.config->0.refund_mode },
        )
    } else {
        calls_to(s, t - 1).push(call_at(s, t - 1))
    }
}

/// The status of a record of `s` at the time when the first `k` releases
/// and the first `m` refunds have been made.
pub open spec fn status_then(s: EscrowState, id: u64, k: int, m: int) -> EscrowStatus {
    if s.released.subrange(0, k).contains(id) {
        EscrowStatus::Released
    } else if s.refunded.subrange(0, m).contains(id) {
        EscrowStatus::Refunded
    } else {
        EscrowStatus::Locked
    }
}

/// The state on the way to `s` in which the first `i` records exist, and
/// the first `k` releases and the first `m` refunds have been made.
pub open spec fn on_the_way(s: EscrowState, i: int, k: int, m: int) -> EscrowState {
    let records = Seq::new(
        i as nat,
        |j: int| with_status(s.records[j], status_then(s, s.records[j].bounty_id, k, m)),
    );
    EscrowState {
        config: s.config,
        records,
        locked: locked_of(records),
        released: s.released.subrange(0, k),
        refunded: s.refunded.subrange(0, m),
        history: s.history.subrange(0, m),
    }
}

/// The state after the first `t` calls.
pub open spec fn stage(s: EscrowState, t: int) -> EscrowState {
    let n = s.records.len() as int;
    let k = s.released.len() as int;
    if t < n {
        on_the_way(s, t, 0, 0)
    } else if t < n + k {
        on_the_way(s, n, t - n, 0)
    } else {
        on_the_way(s, n, k, t - n - k)
    }
}

/// Running one more call is running the calls and then the one.
proof fn lemma_run_push(s: EscrowState, calls: Seq<Call>, call: Call)
    ensures
        s.run(calls.push(call)) == s.run(calls).after(call),
{
    assert(calls.push(call).drop_last() =~= calls);
}

/// Two states with the same configuration, records, release order and
/// refund log are the same state, where the locked identifiers of both are
/// those of their locked records.
proof fn lemma_same_state(a: EscrowState, b: EscrowState)
    requires
        a.locked == locked_of(a.records),
        b.locked == locked_of(b.records),
        a.config == b.config,
        a.records =~= b.records,
        a.released =~= b.released,
        a.refunded =~= b.refunded,
        a.history =~= b.history,
    ensures
        a == b,
{
}

/// The two calls that configure lead to the stage before the first lock.
proof fn lemma_setup(s: EscrowState)
    requires
        s.config is Some,
    ensures
        EscrowState::initial().run(calls_to(s, 0)) == stage(s, 0),
{
    let start = EscrowState::initial();
    let config = s.config->0;
    let init = Call::Init { admin: config.admin, token: config.token };
    let mode = Call::SetRefundMode { caller: config.admin, mode: config.refund_mode };
    lemma_run_push(start, Seq::<Call>::empty(), init);
    lemma_run_push(start, Seq::<Call>::empty().push(init), mode);
    let reached = start.run(calls_to(s, 0));
    assert(start.run(Seq::<Call>::empty()) == start);
    assert(reached.config == Some(config));
    assert(reached.records =~= Seq::<EscrowRecord>::empty());
    assert(locked_of(reached.records) =~= Seq::<u64>::empty());
    lemma_same_state(reached, stage(s, 0));
}

/// The lock of the next record is accepted and leads to the next stage.
proof fn lemma_lock_step(s: EscrowState, u: int)
    requires
        s.inv(),
        s.config is Some,
        0 <= u < s.records.len(),
        stage(s, u).inv(),
    ensures
        stage(s, u).rejection(call_at(s, u)) is None,
        stage(s, u).after(call_at(s, u)) == stage(s, u + 1),
{
    let prev = stage(s, u);
    let call = call_at(s, u);
    let ids = ids_of(s.records);
    let record = s.records[u];
    assert(!prev.has_record(record.bounty_id)) by {
        if prev.has_record(record.bounty_id) {
            lemma_position(prev, record.bounty_id);
            let j = prev.position(record.bounty_id);
            assert(ids[j] == ids[u]);
        }
    }
    assert(record.amount > 0);
    assert(prev.rejection(call) is None);
    law_call_keeps_invariant(prev, call);
    let next = prev.after(call);
    let goal = stage(s, u + 1);
    assert(s.released.subrange(0, 0) =~= Seq::<u64>::empty());
    assert(s.refunded.subrange(0, 0) =~= Seq::<u64>::empty());
    assert(next.records =~= goal.records);
    lemma_same_state(next, goal);
}

/// Bringing one more identifier into a list changes the status then of
/// that identifier only.
proof fn lemma_one_more(list: Seq<u64>, c: int, x: u64)
    requires
        0 <= c < list.len(),
    ensures
        list.subrange(0, c + 1).contains(x) <==> (list.subrange(0, c).contains(x) || x == list[c]),
        list.no_duplicates() ==> !list.subrange(0, c).contains(list[c]),
{
    let done = list.subrange(0, c);
    let more = list.subrange(0, c + 1);
    if more.contains(x) {
        let w = choose|w: int| 0 <= w < more.len() && more[w] == x;
        if w < c {
            assert(done[w] == x);
        }
    }
    if done.contains(x) {
        let w = choose|w: int| 0 <= w < done.len() && done[w] == x;
        assert(more[w] == x);
    }
    assert(more[c] == list[c]);
    if list.no_duplicates() && done.contains(list[c]) {
        let w = choose|w: int| 0 <= w < done.len() && done[w] == list[c];
        assert(list[w] == list[c]);
    }
}

/// The next release is accepted and leads to the next stage.
proof fn lemma_release_step(s: EscrowState, u: int)
    requires
        s.inv(),
        s.config is Some,
        s.records.len() <= u < s.records.len() + s.released.len(),
        stage(s, u).inv(),
    ensures
        stage(s, u).rejection(call_at(s, u)) is None,
        stage(s, u).after(call_at(s, u)) == stage(s, u + 1),
{
    let n = s.records.len() as int;
    let c = u - n;
    let prev = stage(s, u);
    let call = call_at(s, u);
    let ids = ids_of(s.records);
    let id = s.released[c];
    assert(ids_of(prev.records) =~= ids);
    assert(s.bucket_ok(EscrowStatus::Released));
    assert(s.has_record(s.released[c]));
    lemma_position(s, id);
    let p = s.position(id);
    lemma_one_more(s.released, c, id);
    assert(s.refunded.subrange(0, 0) =~= Seq::<u64>::empty());
    assert(prev.records[p].status == EscrowStatus::Locked);
    assert(prev.rejection(call) is None);
    law_call_keeps_invariant(prev, call);
    let next = prev.after(call);
    let goal = stage(s, u + 1);
    assert(next.records =~= goal.records) by {
        assert forall|j: int| 0 <= j < n implies next.records[j] == goal.records[j] by {
            lemma_one_more(s.released, c, s.records[j].bounty_id);
            if j != p {
                assert(ids[j] != ids[p]);
            }
        }
    }
    assert(next.released =~= goal.released);
    lemma_same_state(next, goal);
}

/// The next refund is accepted and leads to the next stage.
proof fn lemma_refund_step(s: EscrowState, u: int)
    requires
        s.inv(),
        s.config is Some,
        s.records.len() + s.released.len() <= u < s.records.len() + s.released.len()
            + s.history.len(),
        stage(s, u).inv(),
    ensures
        stage(s, u).rejection(call_at(s, u)) is None,
        stage(s, u).after(call_at(s, u)) == stage(s, u + 1),
{
    let n = s.records.len() as int;
    let k = s.released.len() as int;
    let m = u - n - k;
    let prev = stage(s, u);
    let call = call_at(s, u);
    let ids = ids_of(s.records);
    let line = s.history[m];
    let id = line.bounty_id;
    assert(ids_of(prev.records) =~= ids);
    assert(s.released.subrange(0, k) =~= s.released);
    assert(s.refunded[m] == id);
    assert(s.has_record(id));
    lemma_position(s, id);
    let p = s.position(id);
    assert(s.bucket_ok(EscrowStatus::Refunded));
    assert(s.record(s.refunded[m]).status == EscrowStatus::Refunded);
    assert(!s.released.contains(id)) by {
        if s.released.contains(id) {
            let j = choose|j: int| 0 <= j < s.released.len() && s.released[j] == id;
            assert(s.bucket_ok(EscrowStatus::Released));
            assert(s.record(s.released[j]).status == EscrowStatus::Released);
        }
    }
    lemma_one_more(s.refunded, m, id);
    assert(prev.records[p].status == EscrowStatus::Locked);
    assert(prev.rejection(call) is None);
    assert(prev.refund_entry(id, line.refunded_at) == line);
    law_call_keeps_invariant(prev, call);
    let next = prev.after(call);
    let goal = stage(s, u + 1);
    assert(next.records =~= goal.records) by {
        assert forall|j: int| 0 <= j < n implies next.records[j] == goal.records[j] by {
            lemma_one_more(s.refunded, m, s.records[j].bounty_id);
            if j != p {
                assert(ids[j] != ids[p]);
            }
        }
    }
    assert(next.refunded =~= goal.refunded);
    assert(next.history =~= goal.history);
    lemma_same_state(next, goal);
}

/// The first `t` calls lead to the stage `t`.
proof fn lemma_stage(s: EscrowState, t: int)
    requires
        s.inv(),
        s.config is Some,
        0 <= t <= s.records.len() + s.released.len() + s.history.len(),
    ensures
        EscrowState::initial().run(calls_to(s, t)) == stage(s, t),
        stage(s, t).inv(),
    decreases t,
{
    let start = EscrowState::initial();
    law_invariant(start, calls_to(s, t));
    if t == 0 {
        lemma_setup(s);
    } else {
        let u = t - 1;
        lemma_stage(s, u);
        lemma_run_push(start, calls_to(s, u), call_at(s, u));
        if u < s.records.len() {
            lemma_lock_step(s, u);
        } else if u < s.records.len() + s.released.len() {
            lemma_release_step(s, u);
        } else {
            lemma_refund_step(s, u);
        }
    }
}

/// Every state with the invariant is reached from the initial state by some
/// sequence of calls: the invariant holds of the reachable states and of no
/// others.
pub proof fn law_invariant_is_reachability(s: EscrowState)
    requires
        s.inv(),
    ensures
        exists|calls: Seq<Call>| #[trigger] EscrowState::initial().run(calls) == s,
{
    let start = EscrowState::initial();
    if s.config is None {
        assert(s.bucket_ok(EscrowStatus::Released));
        assert(s.bucket_ok(EscrowStatus::Refunded));
        if s.released.len() > 0 {
            assert(s.has_record(s.released[0]));
        }
        if s.refunded.len() > 0 {
            assert(s.has_record(s.refunded[0]));
        }
        assert(s.records =~= start.records);
        assert(s.released =~= start.released);
        assert(s.refunded =~= start.refunded);
        assert(s.history =~= start.history);
        assert(s == start);
        assert(start.run(Seq::<Call>::empty()) == s);
    } else {
        let n = s.records.len() as int;
        let k = s.released.len() as int;
        let m = s.history.len() as int;
        let t = n + k + m;
        lemma_stage(s, t);
        let last = stage(s, t);
        assert(last == on_the_way(s, n, k, m));
        assert(s.released.subrange(0, k) =~= s.released);
        assert(s.refunded.subrange(0, m) =~= s.refunded);
        assert(s.history.subrange(0, m) =~= s.history);
        assert(last.records =~= s.records) by {
            assert forall|j: int| 0 <= j < n implies last.records[j] == s.records[j] by {
                let x = s.records[j].bounty_id;
                let status = s.records[j].status;
                lemma_record_at(s, j);
                assert(s.bucket_ok(status));
                assert(s.bucket_ok(EscrowStatus::Released));
                assert(s.bucket_ok(EscrowStatus::Refunded));
                assert(s.bucket(status).contains(s.records[j].bounty_id));
                if s.released.contains(x) {
                    let w = choose|w: int| 0 <= w < s.released.len() && s.released[w] == x;
                    assert(s.record(s.released[w]).status == EscrowStatus::Released);
                } else if s.refunded.contains(x) {
                    let w = choose|w: int| 0 <= w < s.refunded.len() && s.refunded[w] == x;
                    assert(s.record(s.refunded[w]).status == EscrowStatus::Refunded);
                }
            }
        }
        lemma_same_state(last, s);
        assert(start.run(calls_to(s, t)) == s);
    }
}

} // verus!
