//! Rebuilding the escrow from what a store keeps of it: the configuration,
//! the records, the order of the releases and the refund log. Everything
//! else is derived from these. A snapshot is accepted exactly when the state
//! that it describes has the invariant of the model and deposits within the
//! range of an amount.

use vstd::prelude::*;
use crate::escrow::BountyEscrowContract;
use crate::lemmas::{lemma_aggregates_push, lemma_position, lemma_record_at};
use crate::model::{ids_of, locked_of, total_deposited, with_status, EscrowState};
use crate::types::{Config, EscrowRecord, EscrowStatus, GatewayOutcome, RefundHistoryEntry};

verus! {

/// The bounty identifiers of the lines of a refund log, in order.
pub open spec fn refunded_of(history: Seq<RefundHistoryEntry>) -> Seq<u64> {
    Seq::new(history.len(), |k: int| history[k].bounty_id)
}

/// The state that a snapshot describes: the locked identifiers are those of
/// the locked records in creation order, and the refunded ones those of the
/// refund log.
pub open spec fn state_of(
    config: Option<Config>,
    records: Seq<EscrowRecord>,
    released: Seq<u64>,
    history: Seq<RefundHistoryEntry>,
) -> EscrowState {
    EscrowState {
        config,
        records,
        locked: locked_of(records),
        released,
        refunded: refunded_of(history),
        history,
    }
}

/// The records agree in everything but, possibly, their status.
pub open spec fn same_but_status(built: Seq<EscrowRecord>, records: Seq<EscrowRecord>) -> bool {
    &&& built.len() == records.len()
    &&& forall|i: int|
        0 <= i < built.len() ==> #[trigger] built[i] == with_status(records[i], built[i].status)
}

/// Records with the same amounts have the same sum of deposits.
proof fn lemma_deposited_by_amounts(a: Seq<EscrowRecord>, b: Seq<EscrowRecord>)
    requires
        a.len() == b.len(),
        forall|i: int| 0 <= i < a.len() ==> (#[trigger] a[i]).amount == b[i].amount,
    ensures
        total_deposited(a) == total_deposited(b),
    decreases a.len(),
{
    if a.len() > 0 {
        assert(a.last().amount == b[a.len() - 1].amount);
        assert forall|i: int| 0 <= i < a.drop_last().len() implies (#[trigger] a.drop_last()[i]).amount
            == b.drop_last()[i].amount by {
            assert(a[i].amount == b[i].amount);
        }
        lemma_deposited_by_amounts(a.drop_last(), b.drop_last());
    }
}

/// Where every amount is positive, the deposits of the first records, and
/// those with the next one, do not exceed the deposits of all.
proof fn lemma_deposited_prefix(records: Seq<EscrowRecord>, i: int)
    requires
        forall|j: int| 0 <= j < records.len() ==> (#[trigger] records[j]).amount > 0,
        0 <= i <= records.len(),
    ensures
        total_deposited(records.subrange(0, i)) <= total_deposited(records),
        i < records.len() ==> total_deposited(records.subrange(0, i)) + records[i].amount
            <= total_deposited(records),
    decreases records.len() - i,
{
    if i == records.len() {
        assert(records.subrange(0, i) =~= records);
    } else {
        lemma_deposited_prefix(records, i + 1);
        assert(records.subrange(0, i + 1) =~= records.subrange(0, i).push(records[i]));
        lemma_aggregates_push(records.subrange(0, i), records[i], EscrowStatus::Locked);
    }
}

impl BountyEscrowContract {
    /// The escrow that the snapshot describes, with its aggregates and
    /// indices rebuilt; `None` where the state that the snapshot describes
    /// lacks the invariant or holds more deposits than an amount can count.
    pub fn restore(
        config: Option<Config>,
        records: &Vec<EscrowRecord>,
        released: &Vec<u64>,
        history: &Vec<RefundHistoryEntry>,
    ) -> (r: Option<BountyEscrowContract>)
        ensures
            match r {
                Some(c) => c.wf() && c@ == state_of(config, records@, released@, history@),
                None => !(state_of(config, records@, released@, history@).inv() && state_of(
                    config,
                    records@,
                    released@,
                    history@,
                ).within_limits()),
            },
    {
        let ghost target = state_of(config, records@, released@, history@);
        let mut c = BountyEscrowContract::new();
        let admin = match config {
            None => {
                if records.len() > 0 || released.len() > 0 || history.len() > 0 {
                    proof {
                        if target.inv() {
                            if released.len() > 0 {
                                assert(target.bucket_ok(EscrowStatus::Released));
                                assert(target.has_record(target.released[0]));
                            }
                            if history.len() > 0 {
                                assert(target.has_record(target.history[0].bounty_id));
                            }
                        }
                    }
                    return None;
                }
                proof {
                    assert(records@ =~= Seq::<EscrowRecord>::empty());
                    assert(released@ =~= Seq::<u64>::empty());
                    assert(history@ =~= Seq::<RefundHistoryEntry>::empty());
                    assert(refunded_of(history@) =~= Seq::<u64>::empty());
                    assert(c@ == target);
                }
                return Some(c);
            },
            Some(config) => {
                let _ = c.init(config.admin, config.token);
                let _ = c.set_refund_mode(config.admin, config.refund_mode);
                config.admin
            },
        };
        assert(c@.config == config);
        let n = records.len();
        let mut i: usize = 0;
        while i < n
            invariant
                n == records.len(),
                target == state_of(config, records@, released@, history@),
                config is Some,
                i <= n,
                c.wf(),
                c@.config == config,
                c@.records.len() == i,
                forall|j: int|
                    0 <= j < i ==> #[trigger] c@.records[j] == with_status(
                        records@[j],
                        EscrowStatus::Locked,
                    ),
                c@.released == Seq::<u64>::empty(),
                c@.refunded == Seq::<u64>::empty(),
                c@.history == Seq::<RefundHistoryEntry>::empty(),
            decreases n - i,
        {
            let record = records[i];
            proof {
                if target.inv() {
                    lemma_deposited_prefix(records@, i as int);
                    lemma_deposited_by_amounts(c@.records, records@.subrange(0, i as int));
                }
            }
            if !c.has_room_for(record.amount) {
                return None;
            }
            let ghost before = c@;
            match c.lock_funds(
                record.depositor,
                record.depositor,
                record.bounty_id,
                record.amount,
                record.deadline,
                record.created_at,
                GatewayOutcome::Completed,
            ) {
                Err(_) => {
                    proof {
                        if target.inv() {
                            if before.has_record(record.bounty_id) {
                                lemma_position(before, record.bounty_id);
                                let j = before.position(record.bounty_id);
                                assert(before.records[j] == with_status(
                                    records@[j],
                                    EscrowStatus::Locked,
                                ));
                                let ids = ids_of(records@);
                                assert(ids[j] == ids[i as int]);
                            } else {
                                assert(records@[i as int].amount > 0);
                            }
                        }
                    }
                    return None;
                },
                Ok(_) => {},
            }
            i += 1;
        }
        assert(same_but_status(c@.records, records@));
        let mut k: usize = 0;
        while k < released.len()
            invariant
                target == state_of(config, records@, released@, history@),
                config == Some(Config { admin, ..config->0 }),
                k <= released.len(),
                c.wf(),
                c@.config == config,
                same_but_status(c@.records, records@),
                c@.released == released@.subrange(0, k as int),
                c@.refunded == Seq::<u64>::empty(),
                c@.history == Seq::<RefundHistoryEntry>::empty(),
            decreases released.len() - k,
        {
            let id = released[k];
            let ghost before = c@;
            proof {
                assert(ids_of(before.records) =~= ids_of(records@));
            }
            match c.release_funds(admin, id, admin, GatewayOutcome::Completed) {
                Err(_) => {
                    proof {
                        if target.inv() {
                            assert(target.bucket_ok(EscrowStatus::Released));
                            assert(target.has_record(target.released[k as int]));
                            assert(before.has_record(id));
                            lemma_position(before, id);
                            let p = before.position(id);
                            let status = before.records[p].status;
                            assert(status != EscrowStatus::Locked);
                            assert(before.bucket_ok(status));
                            assert(before.bucket(status).contains(before.records[p].bounty_id));
                            assert(status == EscrowStatus::Released);
                            let j = choose|j: int|
                                0 <= j < before.released.len() && before.released[j] == id;
                            assert(released@[j] == released@[k as int]);
                        }
                    }
                    return None;
                },
                Ok(_) => {},
            }
            proof {
                lemma_position(before, id);
                assert(c@.released == released@.subrange(0, k + 1));
                assert(same_but_status(c@.records, records@)) by {
                    assert forall|i: int| 0 <= i < c@.records.len() implies #[trigger] c@.records[i]
                        == with_status(records@[i], c@.records[i].status) by {
                        assert(before.records[i] == with_status(records@[i], before.records[i].status));
                    }
                }
            }
            k += 1;
        }
        assert(c@.released == released@);
        let mut k: usize = 0;
        while k < history.len()
            invariant
                target == state_of(config, records@, released@, history@),
                k <= history.len(),
                c.wf(),
                c@.config == config,
                config is Some,
                same_but_status(c@.records, records@),
                c@.released == released@,
                c@.refunded == refunded_of(history@).subrange(0, k as int),
                c@.history == history@.subrange(0, k as int),
            decreases history.len() - k,
        {
            let line = history[k];
            let id = line.bounty_id;
            let ghost before = c@;
            proof {
                assert(ids_of(before.records) =~= ids_of(records@));
                assert(target.refunded[k as int] == id);
                if target.inv() {
                    assert(target.history[k as int] == line);
                    assert(target.has_record(id));
                    lemma_position(before, id);
                    assert(before.record(id) == with_status(
                        target.record(id),
                        before.record(id).status,
                    ));
                }
            }
            let record = match c.get_escrow_info(id) {
                Err(_) => {
                    return None;
                },
                Ok(record) => record,
            };
            if record.depositor != line.depositor || record.amount != line.amount {
                return None;
            }
            match c.refund(record.depositor, id, line.refunded_at, GatewayOutcome::Completed) {
                Err(_) => {
                    proof {
                        if target.inv() {
                            lemma_position(before, id);
                            let p = before.position(id);
                            let status = before.records[p].status;
                            assert(status != EscrowStatus::Locked);
                            assert(before.bucket_ok(status));
                            assert(before.bucket(status).contains(before.records[p].bounty_id));
                            assert(target.bucket_ok(EscrowStatus::Refunded));
                            assert(target.record(target.refunded[k as int]).status
                                == EscrowStatus::Refunded);
                            if status == EscrowStatus::Released {
                                let j = choose|j: int|
                                    0 <= j < before.released.len() && before.released[j] == id;
                                assert(target.bucket_ok(EscrowStatus::Released));
                                assert(target.record(target.released[j]).status
                                    == EscrowStatus::Released);
                            } else {
                                let j = choose|j: int|
                                    0 <= j < before.refunded.len() && before.refunded[j] == id;
                                assert(target.refunded[j] == target.refunded[k as int]);
                            }
                        }
                    }
                    return None;
                },
                Ok(_) => {},
            }
            proof {
                lemma_position(before, id);
                assert(before.refund_entry(id, line.refunded_at) == line);
                assert(c@.history == history@.subrange(0, k + 1));
                assert(c@.refunded == refunded_of(history@).subrange(0, k + 1));
                assert(same_but_status(c@.records, records@)) by {
                    assert forall|i: int| 0 <= i < c@.records.len() implies #[trigger] c@.records[i]
                        == with_status(records@[i], c@.records[i].status) by {
                        assert(before.records[i] == with_status(records@[i], before.records[i].status));
                    }
                }
            }
            k += 1;
        }
        assert(c@.history == history@);
        assert(c@.refunded == refunded_of(history@));
        let built = c.records();
        let mut i: usize = 0;
        while i < n
            invariant
                n == records.len(),
                target == state_of(config, records@, released@, history@),
                i <= n,
                c.wf(),
                built@ == c@.records,
                same_but_status(c@.records, records@),
                c@.released == released@,
                c@.refunded == refunded_of(history@),
                forall|j: int| 0 <= j < i ==> (#[trigger] built@[j]).status == records@[j].status,
            decreases n - i,
        {
            if built[i].status != records[i].status {
                proof {
                    if target.inv() {
                        let s = c@;
                        let id = records@[i as int].bounty_id;
                        assert(ids_of(s.records) =~= ids_of(records@));
                        assert(s.records[i as int] == with_status(
                            records@[i as int],
                            s.records[i as int].status,
                        ));
                        lemma_record_at(s, i as int);
                        lemma_record_at(target, i as int);
                        let mine = s.records[i as int].status;
                        let theirs = records@[i as int].status;
                        assert(s.bucket_ok(mine));
                        assert(target.bucket_ok(theirs));
                        assert(s.bucket(mine).contains(s.records[i as int].bounty_id));
                        assert(target.bucket(theirs).contains(target.records[i as int].bounty_id));
                        if theirs != EscrowStatus::Locked {
                            let j = choose|j: int|
                                0 <= j < target.bucket(theirs).len() && target.bucket(theirs)[j]
                                    == id;
                            assert(s.record(s.bucket(theirs)[j]).status == theirs);
                        } else {
                            let j = choose|j: int|
                                0 <= j < s.bucket(mine).len() && s.bucket(mine)[j] == id;
                            assert(target.record(target.bucket(mine)[j]).status == mine);
                        }
                    }
                }
                return None;
            }
            i += 1;
        }
        proof {
            assert(c@.records =~= records@) by {
                assert forall|j: int| 0 <= j < n implies c@.records[j] == records@[j] by {
                    assert(built@[j].status == records@[j].status);
                    assert(c@.records[j] == with_status(records@[j], c@.records[j].status));
                }
            }
            assert(c@ == target);
        }
        Some(c)
    }
}

} // verus!
