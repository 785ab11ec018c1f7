//! The escrow itself: the records, the indices kept beside them, and the
//! operations that move funds in and out of custody.
//!
//! The escrow never moves funds by itself. Each operation that needs a
//! transfer comes in two parts: a question that validates the call and says
//! which transfer the token gateway is to perform, and the operation proper,
//! which takes the gateway's report and either commits every change or none.

use std::collections::HashMap;
use vstd::prelude::*;
use crate::account::AccountId;
use crate::analytics::{
    index_ok, lemma_index_insert, lemma_index_update, lemma_positions_deposits,
    lemma_positions_push, lemma_positions_update, lemma_range_answer, mirrors, positions_of,
};
use crate::depositor_index::DepositorIndex;
use crate::range_index::RangeIndex;
use crate::lemmas::{
    lemma_aggregates_nonnegative, lemma_aggregates_partition, lemma_aggregates_push,
    lemma_aggregates_update, lemma_ids_push, lemma_ids_update, lemma_index_of_unique,
    lemma_lock_preserves, lemma_position, lemma_record_at, lemma_refund_preserves,
    lemma_release_preserves,
};
use crate::model::{
    count_in, deposits_of, ids_of, new_record, total_deposited, total_in, with_status, EscrowState,
};
use crate::types::{
    AggregateStats, Call, Config, Error, EscrowEvent, EscrowRecord, EscrowStatus, GatewayOutcome,
    Party, RangeKey, RefundHistoryEntry, RefundMode, Transfer,
};

verus! {

broadcast use vstd::std_specs::hash::group_hash_axioms;

/// The escrow: every record ever created, with the aggregates and indices
/// that are kept in step with them.
pub struct BountyEscrowContract {
    config: Option<Config>,
    records: Vec<EscrowRecord>,
    positions: HashMap<u64, usize>,
    locked: Vec<u64>,
    released: Vec<u64>,
    refunded: Vec<u64>,
    history: Vec<RefundHistoryEntry>,
    stats: AggregateStats,
    by_amount: RangeIndex,
    by_deadline: RangeIndex,
    by_depositor: DepositorIndex,
}

impl View for BountyEscrowContract {
    type V = EscrowState;

    closed spec fn view(&self) -> EscrowState {
        EscrowState {
            config: self.config,
            records: self.records@,
            locked: self.locked@,
            released: self.released@,
            refunded: self.refunded@,
            history: self.history@,
        }
    }
}

/// The position of the first occurrence of `id` in `ids`.
fn first_index(ids: &Vec<u64>, id: u64) -> (k: usize)
    requires
        ids@.contains(id),
    ensures
        k < ids.len(),
        ids[k as int] == id,
{
    let mut k: usize = 0;
    while ids[k] != id
        invariant
            k < ids.len(),
            ids@.contains(id),
            forall|j: int| 0 <= j < k ==> ids[j] != id,
        decreases ids.len() - k,
    {
        k += 1;
        proof {
            let w = choose|w: int| 0 <= w < ids@.len() && ids@[w] == id;
            assert(w >= k);
        }
    }
    k
}

impl BountyEscrowContract {
    /// The position index, the running aggregates and the secondary indices
    /// agree with the records.
    pub closed spec fn indexed(&self) -> bool {
        let records = self.records@;
        let ids = ids_of(records);
        &&& forall|i: int|
            0 <= i < ids.len() ==> self.positions@.contains_key(#[trigger] ids[i])
                && self.positions@[ids[i]] == i
        &&& forall|id: u64| #[trigger]
            self.positions@.contains_key(id) ==> 0 <= self.positions@[id] < ids.len()
                && ids[self.positions@[id] as int] == id
        &&& self.stats.total_locked == total_in(records, EscrowStatus::Locked)
        &&& self.stats.total_released == total_in(records, EscrowStatus::Released)
        &&& self.stats.total_refunded == total_in(records, EscrowStatus::Refunded)
        &&& self.stats.count_locked == count_in(records, EscrowStatus::Locked)
        &&& self.stats.count_released == count_in(records, EscrowStatus::Released)
        &&& self.stats.count_refunded == count_in(records, EscrowStatus::Refunded)
        &&& index_ok(self.by_amount@, records, RangeKey::Amount)
        &&& index_ok(self.by_deadline@, records, RangeKey::Deadline)
        &&& self.by_depositor.wf()
        &&& forall|d: AccountId|
            mirrors(#[trigger] self.by_depositor.positions(d), positions_of(records, d))
    }

    /// The state has the invariant of the model, the sum of the deposits is
    /// within the range of an amount, and what is kept beside the records
    /// agrees with them.
    pub open spec fn wf(&self) -> bool {
        &&& self@.inv()
        &&& self@.within_limits()
        &&& self.indexed()
    }

    /// An escrow that holds nothing and awaits `init`.
    pub fn new() -> (c: BountyEscrowContract)
        ensures
            c.wf(),
            c@ == EscrowState::initial(),
    {
        let c = BountyEscrowContract {
            config: None,
            records: Vec::new(),
            positions: HashMap::new(),
            locked: Vec::new(),
            released: Vec::new(),
            refunded: Vec::new(),
            history: Vec::new(),
            stats: AggregateStats {
                total_locked: 0,
                total_released: 0,
                total_refunded: 0,
                count_locked: 0,
                count_released: 0,
                count_refunded: 0,
            },
            by_amount: RangeIndex::new(),
            by_deadline: RangeIndex::new(),
            by_depositor: DepositorIndex::new(),
        };
        assert(c@ == EscrowState::initial());
        c
    }

    /// The position of the record of `bounty_id`, if there is one.
    fn find(&self, bounty_id: u64) -> (r: Option<usize>)
        requires
            self.wf(),
        ensures
            match r {
                Some(p) => self@.has_record(bounty_id) && p == self@.position(bounty_id) && p
                    < self.records.len() && self.records[p as int] == self@.record(bounty_id),
                None => !self@.has_record(bounty_id),
            },
    {
        let ghost ids = ids_of(self.records@);
        match self.positions.get(&bounty_id) {
            Some(p) => {
                proof {
                    assert(self.positions@.contains_key(bounty_id));
                    assert(ids[*p as int] == bounty_id);
                    lemma_record_at(self@, *p as int);
                }
                Some(*p)
            },
            None => {
                proof {
                    if self@.has_record(bounty_id) {
                        lemma_position(self@, bounty_id);
                        let i = self@.position(bounty_id);
                        assert(ids[i] == bounty_id);
                    }
                }
                None
            },
        }
    }

    /// Stores the administrator and the token. Accepted once.
    pub fn init(&mut self, admin: AccountId, token: AccountId) -> (r: Result<(), Error>)
        requires
            old(self).wf(),
        ensures
            final(self).wf(),
            match old(self)@.init_error() {
                Some(e) => r == Err::<(), Error>(e) && final(self)@ == old(self)@,
                None => r == Ok::<(), Error>(()) && final(self)@ == old(self)@.after_init(
                    admin,
                    token,
                ),
            },
    {
        if self.config.is_some() {
            return Err(Error::AlreadyInitialized);
        }
        self.config = Some(Config { admin, token, refund_mode: RefundMode::AnyoneAfterDeadline });
        assert(self@ == old(self)@.after_init(admin, token));
        Ok(())
    }
}

impl BountyEscrowContract {
    /// Changes who may ask for refunds. Only the administrator may do so.
    pub fn set_refund_mode(&mut self, caller: AccountId, mode: RefundMode) -> (r: Result<
        (),
        Error,
    >)
        requires
            old(self).wf(),
        ensures
            final(self).wf(),
            match old(self)@.mode_error(caller) {
                Some(e) => r == Err::<(), Error>(e) && final(self)@ == old(self)@,
                None => r == Ok::<(), Error>(()) && final(self)@ == old(self)@.after_set_mode(mode),
            },
    {
        match self.config {
            None => Err(Error::NotInitialized),
            Some(config) => {
                if caller != config.admin {
                    return Err(Error::Unauthorized);
                }
                self.config = Some(Config { refund_mode: mode, ..config });
                assert(self@ == old(self)@.after_set_mode(mode));
                Ok(())
            },
        }
    }

    /// Validates a lock and says which transfer it needs: `amount` from the
    /// depositor into custody. Nothing changes.
    pub fn lock_transfer(
        &self,
        caller: AccountId,
        depositor: AccountId,
        bounty_id: u64,
        amount: i128,
    ) -> (r: Result<Transfer, Error>)
        requires
            self.wf(),
        ensures
            match self@.lock_error(caller, depositor, bounty_id, amount) {
                Some(e) => r == Err::<Transfer, Error>(e),
                None => r == Ok::<Transfer, Error>(self@.lock_request(depositor, amount)),
            },
    {
        match self.config {
            None => Err(Error::NotInitialized),
            Some(config) => {
                if caller != depositor {
                    return Err(Error::Unauthorized);
                }
                if self.find(bounty_id).is_some() {
                    return Err(Error::DuplicateBountyId);
                }
                if amount <= 0 {
                    return Err(Error::InvalidAmount);
                }
                Ok(
                    Transfer {
                        token: config.token,
                        from: Party::Account(depositor),
                        to: Party::Custody,
                        amount,
                    },
                )
            },
        }
    }

    /// Whether the books can take a further deposit of `amount`: the sum of
    /// all deposits must stay within the range of an amount.
    pub fn has_room_for(&self, amount: i128) -> (b: bool)
        requires
            self.wf(),
        ensures
            b == (total_deposited(self@.records) + amount <= i128::MAX),
    {
        proof {
            lemma_aggregates_partition(self.records@);
            lemma_aggregates_nonnegative(self.records@, EscrowStatus::Locked);
            lemma_aggregates_nonnegative(self.records@, EscrowStatus::Released);
            lemma_aggregates_nonnegative(self.records@, EscrowStatus::Refunded);
        }
        let total: i128 = self.stats.total_locked + self.stats.total_released
            + self.stats.total_refunded;
        amount <= i128::MAX - total
    }

    /// Locks `amount` for `bounty_id` until `deadline`, given the gateway's
    /// report on the transfer that `lock_transfer` asked for.
    ///
    /// A call that `lock_transfer` rejects is rejected here with the same
    /// error; a transfer that failed gives `GatewayFailure`. In both cases
    /// nothing changes. Otherwise the record is created as `Locked` with
    /// `now` as its creation time, and the event to emit is returned.
    pub fn lock_funds(
        &mut self,
        caller: AccountId,
        depositor: AccountId,
        bounty_id: u64,
        amount: i128,
        deadline: u64,
        now: u64,
        outcome: GatewayOutcome,
    ) -> (r: Result<EscrowEvent, Error>)
        requires
            old(self).wf(),
            total_deposited(old(self)@.records) + amount <= i128::MAX,
        ensures
            final(self).wf(),
            match old(self)@.lock_error(caller, depositor, bounty_id, amount) {
                Some(e) => r == Err::<EscrowEvent, Error>(e) && final(self)@ == old(self)@,
                None => match outcome {
                    GatewayOutcome::Failed => r == Err::<EscrowEvent, Error>(Error::GatewayFailure)
                        && final(self)@ == old(self)@,
                    GatewayOutcome::Completed => r == Ok::<EscrowEvent, Error>(
                        EscrowEvent::FundsLocked { bounty_id, depositor, amount, deadline },
                    ) && final(self)@ == old(self)@.after_lock(
                        new_record(depositor, bounty_id, amount, deadline, now),
                    ),
                },
            },
    {
        match self.lock_transfer(caller, depositor, bounty_id, amount) {
            Err(e) => {
                return Err(e);
            },
            Ok(_) => {},
        }
        if outcome == GatewayOutcome::Failed {
            return Err(Error::GatewayFailure);
        }
        let record = EscrowRecord {
            bounty_id,
            depositor,
            amount,
            deadline,
            status: EscrowStatus::Locked,
            created_at: now,
        };
        let ghost before = self@;
        let position = self.records.len();
        proof {
            lemma_aggregates_push(before.records, record, EscrowStatus::Locked);
            lemma_aggregates_push(before.records, record, EscrowStatus::Released);
            lemma_aggregates_push(before.records, record, EscrowStatus::Refunded);
            lemma_aggregates_partition(before.records);
            lemma_aggregates_partition(before.records.push(record));
            lemma_aggregates_nonnegative(before.records, EscrowStatus::Locked);
            lemma_aggregates_nonnegative(before.records, EscrowStatus::Released);
            lemma_aggregates_nonnegative(before.records, EscrowStatus::Refunded);
            lemma_ids_push(before.records, record);
            lemma_lock_preserves(before, record);
        }
        self.records.push(record);
        assert(position < self.records.len());
        self.positions.insert(bounty_id, position);
        self.locked.push(bounty_id);
        let place = self.by_amount.insert(amount, position);
        proof {
            lemma_index_insert(
                old(self).by_amount@,
                before.records,
                RangeKey::Amount,
                record,
                place as int,
                self.by_amount@,
            );
        }
        let place = self.by_deadline.insert(deadline as i128, position);
        proof {
            lemma_index_insert(
                old(self).by_deadline@,
                before.records,
                RangeKey::Deadline,
                record,
                place as int,
                self.by_deadline@,
            );
        }
        self.by_depositor.add(depositor, position);
        proof {
            assert forall|d: AccountId|
                mirrors(#[trigger] self.by_depositor.positions(d), positions_of(self.records@, d)) by {
                lemma_positions_push(before.records, record, d);
                assert(mirrors(old(self).by_depositor.positions(d), positions_of(before.records, d)));
            }
        }
        assert(self.stats.count_locked < self.records.len());
        self.stats.total_locked = self.stats.total_locked + amount;
        self.stats.count_locked = self.stats.count_locked + 1;
        proof {
            assert(self@ == before.after_lock(record));
            let ids = ids_of(self.records@);
            let old_ids = ids_of(before.records);
            assert forall|i: int| 0 <= i < ids.len() implies self.positions@.contains_key(
                #[trigger] ids[i],
            ) && self.positions@[ids[i]] == i by {
                if i < old_ids.len() {
                    assert(ids[i] == old_ids[i]);
                    assert(old_ids.contains(old_ids[i]));
                }
            }
            assert forall|id: u64| #[trigger] self.positions@.contains_key(id) implies 0
                <= self.positions@[id] < ids.len() && ids[self.positions@[id] as int] == id by {
                if id != bounty_id {
                    assert(old(self).positions@.contains_key(id));
                    let p = old(self).positions@[id] as int;
                    assert(ids[p] == old_ids[p]);
                }
            }
        }
        Ok(EscrowEvent::FundsLocked { bounty_id, depositor, amount, deadline })
    }
}

impl BountyEscrowContract {
    /// Moves the locked record of `bounty_id`, which stands at `p`, to the
    /// terminal state `status`, with the buckets and the aggregates. The
    /// refund log is left to the caller.
    fn finalize(&mut self, bounty_id: u64, p: usize, status: EscrowStatus)
        requires
            old(self).wf(),
            old(self)@.has_record(bounty_id),
            p == old(self)@.position(bounty_id),
            old(self)@.record(bounty_id).status == EscrowStatus::Locked,
            status != EscrowStatus::Locked,
        ensures
            final(self)@ == old(self)@.after_finalize(bounty_id, status),
            final(self)@.within_limits(),
            final(self).indexed(),
    {
        let ghost before = self@;
        proof {
            lemma_position(before, bounty_id);
        }
        let record = self.records[p];
        let amount = record.amount;
        let changed = EscrowRecord { status, ..record };
        proof {
            let after = before.records.update(p as int, changed);
            assert(changed == with_status(before.records[p as int], status));
            lemma_aggregates_update(before.records, p as int, changed, EscrowStatus::Locked);
            lemma_aggregates_update(before.records, p as int, changed, EscrowStatus::Released);
            lemma_aggregates_update(before.records, p as int, changed, EscrowStatus::Refunded);
            lemma_aggregates_partition(before.records);
            lemma_aggregates_partition(after);
            assert forall|i: int| 0 <= i < after.len() implies (#[trigger] after[i]).amount > 0 by {
                assert(before.records[i].amount > 0);
            }
            lemma_aggregates_nonnegative(after, EscrowStatus::Locked);
            lemma_aggregates_nonnegative(after, EscrowStatus::Released);
            lemma_aggregates_nonnegative(after, EscrowStatus::Refunded);
            lemma_ids_update(before.records, p as int, changed);
            lemma_index_update(self.by_amount@, before.records, RangeKey::Amount, p as int, changed);
            lemma_index_update(
                self.by_deadline@,
                before.records,
                RangeKey::Deadline,
                p as int,
                changed,
            );
            assert forall|d: AccountId|
                mirrors(#[trigger] self.by_depositor.positions(d), positions_of(after, d)) by {
                lemma_positions_update(before.records, p as int, changed, d);
                assert(mirrors(self.by_depositor.positions(d), positions_of(before.records, d)));
            }
            assert(before.bucket_ok(EscrowStatus::Locked));
            assert(before.records[p as int].status == EscrowStatus::Locked);
            assert(before.locked.contains(bounty_id));
        }
        self.records.set(p, changed);
        let k = first_index(&self.locked, bounty_id);
        proof {
            lemma_index_of_unique(before.locked, k as int);
        }
        self.locked.remove(k);
        self.stats.total_locked = self.stats.total_locked - amount;
        self.stats.count_locked = self.stats.count_locked - 1;
        match status {
            EscrowStatus::Released => {
                self.released.push(bounty_id);
                self.stats.total_released = self.stats.total_released + amount;
                assert(self.stats.count_released < self.records.len());
                self.stats.count_released = self.stats.count_released + 1;
            },
            EscrowStatus::Refunded => {
                self.refunded.push(bounty_id);
                self.stats.total_refunded = self.stats.total_refunded + amount;
                assert(self.stats.count_refunded < self.records.len());
                self.stats.count_refunded = self.stats.count_refunded + 1;
            },
            EscrowStatus::Locked => {},
        }
        assert(self@ == before.after_finalize(bounty_id, status));
    }

    /// Validates a release and says which transfer it needs: the amount of
    /// the record, from custody to `recipient`. Nothing changes.
    pub fn release_transfer(&self, caller: AccountId, bounty_id: u64, recipient: AccountId) -> (r:
        Result<Transfer, Error>)
        requires
            self.wf(),
        ensures
            match self@.release_error(caller, bounty_id) {
                Some(e) => r == Err::<Transfer, Error>(e),
                None => r == Ok::<Transfer, Error>(self@.release_request(bounty_id, recipient)),
            },
    {
        match self.config {
            None => Err(Error::NotInitialized),
            Some(config) => {
                if caller != config.admin {
                    return Err(Error::Unauthorized);
                }
                match self.find(bounty_id) {
                    None => Err(Error::NotFound),
                    Some(p) => {
                        let record = self.records[p];
                        if record.status != EscrowStatus::Locked {
                            return Err(Error::InvalidStatus);
                        }
                        Ok(
                            Transfer {
                                token: config.token,
                                from: Party::Custody,
                                to: Party::Account(recipient),
                                amount: record.amount,
                            },
                        )
                    },
                }
            },
        }
    }

    /// Releases the funds of `bounty_id` to `recipient`, given the gateway's
    /// report on the transfer that `release_transfer` asked for.
    ///
    /// A call that `release_transfer` rejects is rejected here with the same
    /// error; a transfer that failed gives `GatewayFailure`. In both cases
    /// nothing changes. Otherwise the record becomes `Released`, and the
    /// event to emit is returned.
    pub fn release_funds(
        &mut self,
        caller: AccountId,
        bounty_id: u64,
        recipient: AccountId,
        outcome: GatewayOutcome,
    ) -> (r: Result<EscrowEvent, Error>)
        requires
            old(self).wf(),
        ensures
            final(self).wf(),
            match old(self)@.release_error(caller, bounty_id) {
                Some(e) => r == Err::<EscrowEvent, Error>(e) && final(self)@ == old(self)@,
                None => match outcome {
                    GatewayOutcome::Failed => r == Err::<EscrowEvent, Error>(Error::GatewayFailure)
                        && final(self)@ == old(self)@,
                    GatewayOutcome::Completed => r == Ok::<EscrowEvent, Error>(
                        old(self)@.release_event(bounty_id, recipient),
                    ) && final(self)@ == old(self)@.after_release(bounty_id),
                },
            },
    {
        let amount = match self.release_transfer(caller, bounty_id, recipient) {
            Err(e) => {
                return Err(e);
            },
            Ok(transfer) => transfer.amount,
        };
        if outcome == GatewayOutcome::Failed {
            return Err(Error::GatewayFailure);
        }
        let p = match self.find(bounty_id) {
            Some(p) => p,
            None => {
                return Err(Error::NotFound);
            },
        };
        proof {
            lemma_release_preserves(self@, bounty_id);
        }
        self.finalize(bounty_id, p, EscrowStatus::Released);
        Ok(EscrowEvent::FundsReleased { bounty_id, recipient, amount })
    }

    /// Validates a refund at time `now` and says which transfer it needs:
    /// the amount of the record, from custody back to its depositor. Nothing
    /// changes.
    pub fn refund_transfer(&self, caller: AccountId, bounty_id: u64, now: u64) -> (r: Result<
        Transfer,
        Error,
    >)
        requires
            self.wf(),
        ensures
            match self@.refund_error(caller, bounty_id, now) {
                Some(e) => r == Err::<Transfer, Error>(e),
                None => r == Ok::<Transfer, Error>(self@.refund_request(bounty_id)),
            },
    {
        match self.config {
            None => Err(Error::NotInitialized),
            Some(config) => {
                match self.find(bounty_id) {
                    None => Err(Error::NotFound),
                    Some(p) => {
                        let record = self.records[p];
                        if config.refund_mode == RefundMode::DepositorOnly && caller
                            != record.depositor {
                            return Err(Error::Unauthorized);
                        }
                        if record.status != EscrowStatus::Locked {
                            return Err(Error::InvalidStatus);
                        }
                        if now < record.deadline {
                            return Err(Error::DeadlineNotPassed);
                        }
                        Ok(
                            Transfer {
                                token: config.token,
                                from: Party::Custody,
                                to: Party::Account(record.depositor),
                                amount: record.amount,
                            },
                        )
                    },
                }
            },
        }
    }

    /// Refunds the funds of `bounty_id` to its depositor at time `now`,
    /// given the gateway's report on the transfer that `refund_transfer`
    /// asked for.
    ///
    /// A call that `refund_transfer` rejects is rejected here with the same
    /// error; a transfer that failed gives `GatewayFailure`. In both cases
    /// nothing changes. Otherwise the record becomes `Refunded`, a line is
    /// added to the refund log, and the event to emit is returned.
    pub fn refund(&mut self, caller: AccountId, bounty_id: u64, now: u64, outcome: GatewayOutcome) -> (r:
        Result<EscrowEvent, Error>)
        requires
            old(self).wf(),
        ensures
            final(self).wf(),
            match old(self)@.refund_error(caller, bounty_id, now) {
                Some(e) => r == Err::<EscrowEvent, Error>(e) && final(self)@ == old(self)@,
                None => match outcome {
                    GatewayOutcome::Failed => r == Err::<EscrowEvent, Error>(Error::GatewayFailure)
                        && final(self)@ == old(self)@,
                    GatewayOutcome::Completed => r == Ok::<EscrowEvent, Error>(
                        old(self)@.refund_event(bounty_id),
                    ) && final(self)@ == old(self)@.after_refund(bounty_id, now),
                },
            },
    {
        match self.refund_transfer(caller, bounty_id, now) {
            Err(e) => {
                return Err(e);
            },
            Ok(_) => {},
        }
        if outcome == GatewayOutcome::Failed {
            return Err(Error::GatewayFailure);
        }
        let p = match self.find(bounty_id) {
            Some(p) => p,
            None => {
                return Err(Error::NotFound);
            },
        };
        let record = self.records[p];
        proof {
            lemma_refund_preserves(self@, bounty_id, now);
        }
        self.finalize(bounty_id, p, EscrowStatus::Refunded);
        self.history.push(
            RefundHistoryEntry {
                bounty_id,
                depositor: record.depositor,
                amount: record.amount,
                refunded_at: now,
            },
        );
        assert(self@ == old(self)@.after_refund(bounty_id, now));
        Ok(
            EscrowEvent::FundsRefunded {
                bounty_id,
                depositor: record.depositor,
                amount: record.amount,
            },
        )
    }
}

impl BountyEscrowContract {
    /// Performs `call`, whichever operation it is: the state moves as the
    /// rules say, and the result is the error of a rejected call or the
    /// event of an accepted one.
    pub fn apply(&mut self, call: Call) -> (r: Result<Option<EscrowEvent>, Error>)
        requires
            old(self).wf(),
            call matches Call::LockFunds { amount, .. } ==> total_deposited(old(self)@.records)
                + amount <= i128::MAX,
        ensures
            final(self).wf(),
            final(self)@ == old(self)@.after(call),
            match old(self)@.rejection(call) {
                Some(e) => r == Err::<Option<EscrowEvent>, Error>(e),
                None => r == Ok::<Option<EscrowEvent>, Error>(old(self)@.event(call)),
            },
    {
        match call {
            Call::Init { admin, token } => match self.init(admin, token) {
                Ok(_) => Ok(None),
                Err(e) => Err(e),
            },
            Call::SetRefundMode { caller, mode } => match self.set_refund_mode(caller, mode) {
                Ok(_) => Ok(None),
                Err(e) => Err(e),
            },
            Call::LockFunds { caller, depositor, bounty_id, amount, deadline, now, outcome } => {
                match self.lock_funds(caller, depositor, bounty_id, amount, deadline, now, outcome) {
                    Ok(event) => Ok(Some(event)),
                    Err(e) => Err(e),
                }
            },
            Call::ReleaseFunds { caller, bounty_id, recipient, outcome } => {
                match self.release_funds(caller, bounty_id, recipient, outcome) {
                    Ok(event) => Ok(Some(event)),
                    Err(e) => Err(e),
                }
            },
            Call::Refund { caller, bounty_id, now, outcome } => {
                match self.refund(caller, bounty_id, now, outcome) {
                    Ok(event) => Ok(Some(event)),
                    Err(e) => Err(e),
                }
            },
        }
    }

    /// The configuration, once `init` has been accepted.
    pub fn config(&self) -> (r: Option<Config>)
        ensures
            r == self@.config,
    {
        self.config
    }

    /// Every record, in creation order.
    pub fn records(&self) -> (all: Vec<EscrowRecord>)
        ensures
            all@ == self@.records,
    {
        let mut all: Vec<EscrowRecord> = Vec::new();
        let mut i: usize = 0;
        while i < self.records.len()
            invariant
                i <= self.records.len(),
                all@ == self.records@.subrange(0, i as int),
            decreases self.records.len() - i,
        {
            all.push(self.records[i]);
            i += 1;
        }
        assert(all@ == self.records@);
        all
    }

    /// The record of `bounty_id` as it stands now.
    pub fn get_escrow_info(&self, bounty_id: u64) -> (r: Result<EscrowRecord, Error>)
        requires
            self.wf(),
        ensures
            self@.has_record(bounty_id) ==> r == Ok::<EscrowRecord, Error>(self@.record(bounty_id)),
            !self@.has_record(bounty_id) ==> r == Err::<EscrowRecord, Error>(Error::NotFound),
    {
        match self.find(bounty_id) {
            Some(p) => Ok(self.records[p]),
            None => Err(Error::NotFound),
        }
    }

    /// The totals and counts of the escrows in each state.
    pub fn get_aggregate_stats(&self) -> (r: AggregateStats)
        requires
            self.wf(),
        ensures
            r.total_locked == total_in(self@.records, EscrowStatus::Locked),
            r.total_released == total_in(self@.records, EscrowStatus::Released),
            r.total_refunded == total_in(self@.records, EscrowStatus::Refunded),
            r.count_locked == count_in(self@.records, EscrowStatus::Locked),
            r.count_released == count_in(self@.records, EscrowStatus::Released),
            r.count_refunded == count_in(self@.records, EscrowStatus::Refunded),
    {
        self.stats
    }

    /// The number of escrows ever created.
    pub fn get_escrow_count(&self) -> (n: u64)
        ensures
            n == self@.records.len(),
    {
        self.records.len() as u64
    }

    /// The bounty identifiers in the given state, in the order in which the
    /// escrows entered it.
    pub fn get_escrow_ids_by_status(&self, status: EscrowStatus) -> (ids: Vec<u64>)
        ensures
            ids@ == self@.bucket(status),
    {
        let bucket = match status {
            EscrowStatus::Locked => &self.locked,
            EscrowStatus::Released => &self.released,
            EscrowStatus::Refunded => &self.refunded,
        };
        let mut ids: Vec<u64> = Vec::new();
        let mut k: usize = 0;
        while k < bucket.len()
            invariant
                k <= bucket.len(),
                ids@ == bucket@.subrange(0, k as int),
            decreases bucket.len() - k,
        {
            ids.push(bucket[k]);
            k += 1;
        }
        assert(ids@ == bucket@);
        ids
    }

    /// The records in the given state, in the order in which the escrows
    /// entered it.
    pub fn query_escrows_by_status(&self, status: EscrowStatus) -> (found: Vec<EscrowRecord>)
        requires
            self.wf(),
        ensures
            found@ == self@.records_in(status),
    {
        let bucket = match status {
            EscrowStatus::Locked => &self.locked,
            EscrowStatus::Released => &self.released,
            EscrowStatus::Refunded => &self.refunded,
        };
        assert(self@.bucket_ok(status));
        let mut found: Vec<EscrowRecord> = Vec::new();
        let mut k: usize = 0;
        while k < bucket.len()
            invariant
                self.wf(),
                bucket@ == self@.bucket(status),
                self@.bucket_ok(status),
                k <= bucket.len(),
                found@ == self@.records_in(status).subrange(0, k as int),
            decreases bucket.len() - k,
        {
            match self.find(bucket[k]) {
                Some(p) => {
                    found.push(self.records[p]);
                },
                None => {
                    assert(self@.has_record(bucket@[k as int]));
                },
            }
            k += 1;
        }
        assert(found@ == self@.records_in(status));
        found
    }

    /// Whether `bounty_id` could be refunded at time `now`: it exists, is
    /// locked, and `now` has reached its deadline. An unknown identifier
    /// gives `false`.
    pub fn get_refund_eligibility(&self, bounty_id: u64, now: u64) -> (eligible: bool)
        requires
            self.wf(),
        ensures
            eligible == self@.refund_eligible(bounty_id, now),
    {
        match self.find(bounty_id) {
            Some(p) => {
                let record = self.records[p];
                record.status == EscrowStatus::Locked && now >= record.deadline
            },
            None => false,
        }
    }

    /// The refund log, oldest entry first.
    pub fn get_refund_history(&self) -> (log: Vec<RefundHistoryEntry>)
        ensures
            log@ == self@.history,
    {
        let mut log: Vec<RefundHistoryEntry> = Vec::new();
        let mut k: usize = 0;
        while k < self.history.len()
            invariant
                k <= self.history.len(),
                log@ == self.history@.subrange(0, k as int),
            decreases self.history.len() - k,
        {
            log.push(self.history[k]);
            k += 1;
        }
        assert(log@ == self.history@);
        log
    }
}

impl BountyEscrowContract {
    /// The records whose key on `which` lies between `min` and `max`, both
    /// inclusive, in key order.
    fn query_range(&self, which: RangeKey, min: i128, max: i128) -> (found: Vec<EscrowRecord>)
        requires
            self.wf(),
        ensures
            self@.is_range_answer(which, min, max, found@),
    {
        let index = match which {
            RangeKey::Amount => &self.by_amount,
            RangeKey::Deadline => &self.by_deadline,
        };
        let lo = index.division(min, false);
        let hi = index.division(max, true);
        let mut found: Vec<EscrowRecord> = Vec::new();
        let mut j: usize = lo;
        while j < hi
            invariant
                self.wf(),
                index_ok(index@, self.records@, which),
                lo <= j,
                hi <= index@.len(),
                j == lo || j <= hi,
                found@.len() == j - lo,
                forall|t: int|
                    0 <= t < found@.len() ==> #[trigger] found@[t] == self.records@[index@[lo
                        + t].position as int],
            decreases hi - j,
        {
            let entry = index.entry(j);
            found.push(self.records[entry.position]);
            j += 1;
        }
        proof {
            lemma_range_answer(self@, index@, which, min, max, lo as int, hi as int, found@);
        }
        found
    }

    /// The records whose amount lies between `min` and `max`, both
    /// inclusive, whatever their state: smaller amounts first, and among
    /// equal amounts the record created earlier first.
    pub fn query_escrows_by_amount(&self, min: i128, max: i128) -> (found: Vec<EscrowRecord>)
        requires
            self.wf(),
        ensures
            self@.is_range_answer(RangeKey::Amount, min, max, found@),
    {
        self.query_range(RangeKey::Amount, min, max)
    }

    /// The records whose deadline lies between `min` and `max`, both
    /// inclusive, whatever their state: earlier deadlines first, and among
    /// equal deadlines the record created earlier first.
    pub fn query_escrows_by_deadline(&self, min: u64, max: u64) -> (found: Vec<EscrowRecord>)
        requires
            self.wf(),
        ensures
            self@.is_range_answer(RangeKey::Deadline, min as i128, max as i128, found@),
    {
        self.query_range(RangeKey::Deadline, min as i128, max as i128)
    }

    /// The records that `depositor` created, whatever their state, in
    /// creation order.
    pub fn query_escrows_by_depositor(&self, depositor: AccountId) -> (found: Vec<EscrowRecord>)
        requires
            self.wf(),
        ensures
            found@ == deposits_of(self@.records, depositor),
    {
        let mut found: Vec<EscrowRecord> = Vec::new();
        proof {
            lemma_positions_deposits(self.records@, depositor);
            assert(mirrors(
                self.by_depositor.positions(depositor),
                positions_of(self.records@, depositor),
            ));
        }
        match self.by_depositor.slot(&depositor) {
            None => {},
            Some(k) => {
                let n = self.by_depositor.list_len(k);
                let mut t: usize = 0;
                while t < n
                    invariant
                        self.wf(),
                        k < self.by_depositor.names().len(),
                        self.by_depositor.list(k as int) == self.by_depositor.positions(depositor),
                        n == self.by_depositor.list(k as int).len(),
                        t <= n,
                        found@ == deposits_of(self@.records, depositor).subrange(0, t as int),
                    decreases n - t,
                {
                    proof {
                        lemma_positions_deposits(self.records@, depositor);
                        assert(mirrors(
                            self.by_depositor.positions(depositor),
                            positions_of(self.records@, depositor),
                        ));
                    }
                    let p = self.by_depositor.at(k, t);
                    found.push(self.records[p]);
                    t += 1;
                }
            },
        }
        assert(found@ == deposits_of(self@.records, depositor));
        found
    }
}

} // verus!
