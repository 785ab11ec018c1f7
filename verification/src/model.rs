//! The mathematical model of the escrow: its state, the rules by which calls
//! are accepted or rejected, the state that an accepted call leaves, and the
//! aggregates that the analytics views report.

use vstd::prelude::*;
use crate::account::AccountId;
use crate::types::{
    Call, Config, Error, EscrowEvent, EscrowRecord, EscrowStatus, GatewayOutcome, Party, RangeKey,
    RefundHistoryEntry, RefundMode, Transfer,
};

verus! {

/// The sum of the amounts of the records that are in the given state.
pub open spec fn total_in(records: Seq<EscrowRecord>, status: EscrowStatus) -> int
    decreases records.len(),
{
    if records.len() == 0 {
        0
    } else {
        total_in(records.drop_last(), status) + if records.last().status == status {
            records.last().amount as int
        } else {
            0
        }
    }
}

/// The number of records that are in the given state.
pub open spec fn count_in(records: Seq<EscrowRecord>, status: EscrowStatus) -> int
    decreases records.len(),
{
    if records.len() == 0 {
        0
    } else {
        count_in(records.drop_last(), status) + if records.last().status == status {
            1int
        } else {
            0
        }
    }
}

/// The sum of the amounts of all records, whatever their state.
pub open spec fn total_deposited(records: Seq<EscrowRecord>) -> int
    decreases records.len(),
{
    if records.len() == 0 {
        0
    } else {
        total_deposited(records.drop_last()) + records.last().amount
    }
}

/// The bounty identifiers of the records, in creation order.
pub open spec fn ids_of(records: Seq<EscrowRecord>) -> Seq<u64> {
    Seq::new(records.len(), |i: int| records[i].bounty_id)
}

/// The bounty identifiers of the locked records, in creation order.
pub open spec fn locked_of(records: Seq<EscrowRecord>) -> Seq<u64>
    decreases records.len(),
{
    if records.len() == 0 {
        Seq::empty()
    } else if records.last().status == EscrowStatus::Locked {
        locked_of(records.drop_last()).push(records.last().bounty_id)
    } else {
        locked_of(records.drop_last())
    }
}

/// The sequence without its first occurrence of `id`; the sequence itself
/// where `id` does not occur.
pub open spec fn without(ids: Seq<u64>, id: u64) -> Seq<u64> {
    if ids.contains(id) {
        ids.remove(ids.index_of(id))
    } else {
        ids
    }
}

/// The value by which a range query on `which` selects a record.
pub open spec fn key_of(record: EscrowRecord, which: RangeKey) -> i128 {
    match which {
        RangeKey::Amount => record.amount,
        RangeKey::Deadline => record.deadline as i128,
    }
}

/// The records of one depositor, in creation order.
pub open spec fn deposits_of(records: Seq<EscrowRecord>, depositor: AccountId) -> Seq<EscrowRecord>
    decreases records.len(),
{
    if records.len() == 0 {
        Seq::empty()
    } else if records.last().depositor == depositor {
        deposits_of(records.drop_last(), depositor).push(records.last())
    } else {
        deposits_of(records.drop_last(), depositor)
    }
}

/// The verdict on a call that needs a transfer: the error of the rules
/// where they reject the call, else `GatewayFailure` where the transfer
/// failed.
pub open spec fn gateway_verdict(by_rules: Option<Error>, outcome: GatewayOutcome) -> Option<Error> {
    if by_rules is Some {
        by_rules
    } else if outcome == GatewayOutcome::Failed {
        Some(Error::GatewayFailure)
    } else {
        None
    }
}

/// The record that a successful lock creates.
pub open spec fn new_record(
    depositor: AccountId,
    bounty_id: u64,
    amount: i128,
    deadline: u64,
    now: u64,
) -> EscrowRecord {
    EscrowRecord {
        bounty_id,
        depositor,
        amount,
        deadline,
        status: EscrowStatus::Locked,
        created_at: now,
    }
}

/// The record with another status and everything else unchanged.
pub open spec fn with_status(record: EscrowRecord, status: EscrowStatus) -> EscrowRecord {
    EscrowRecord { status, ..record }
}

/// The whole state of the escrow.
///
/// `records` is the system of record, in the order in which the escrows were
/// created. `locked`, `released` and `refunded` list the bounty identifiers
/// in each state, each in the order in which the escrows entered that state.
/// `history` is the refund log, oldest entry first.
pub struct EscrowState {
    pub config: Option<Config>,
    pub records: Seq<EscrowRecord>,
    pub locked: Seq<u64>,
    pub released: Seq<u64>,
    pub refunded: Seq<u64>,
    pub history: Seq<RefundHistoryEntry>,
}

impl EscrowState {
    /// The state before `init`: no configuration and no escrows.
    pub open spec fn initial() -> EscrowState {
        EscrowState {
            config: None,
            records: Seq::empty(),
            locked: Seq::empty(),
            released: Seq::empty(),
            refunded: Seq::empty(),
            history: Seq::empty(),
        }
    }

    /// There is a record of bounty `id`.
    pub open spec fn has_record(self, id: u64) -> bool {
        ids_of(self.records).contains(id)
    }

    /// The position of the record of bounty `id` in creation order.
    pub open spec fn position(self, id: u64) -> int {
        ids_of(self.records).index_of(id)
    }

    /// The record of bounty `id`.
    pub open spec fn record(self, id: u64) -> EscrowRecord {
        self.records[self.position(id)]
    }

    /// The bounty identifiers in the given state, in the order in which they
    /// entered it.
    pub open spec fn bucket(self, status: EscrowStatus) -> Seq<u64> {
        match status {
            EscrowStatus::Locked => self.locked,
            EscrowStatus::Released => self.released,
            EscrowStatus::Refunded => self.refunded,
        }
    }

    /// The records in the given state, in the order of their bucket.
    pub open spec fn records_in(self, status: EscrowStatus) -> Seq<EscrowRecord> {
        Seq::new(self.bucket(status).len(), |k: int| self.record(self.bucket(status)[k]))
    }

    /// The order in which a range query on `which` lists two records: by
    /// key, and among equal keys the record created earlier first.
    pub open spec fn in_key_order(self, which: RangeKey, a: EscrowRecord, b: EscrowRecord) -> bool {
        key_of(a, which) < key_of(b, which) || (key_of(a, which) == key_of(b, which)
            && self.position(a.bounty_id) < self.position(b.bounty_id))
    }

    /// Whether `found` is the answer to the range query on `which` with the
    /// bounds `min` and `max`, both inclusive: it holds the records whose
    /// key lies within the bounds, and no others, in key order.
    pub open spec fn is_range_answer(
        self,
        which: RangeKey,
        min: i128,
        max: i128,
        found: Seq<EscrowRecord>,
    ) -> bool {
        &&& forall|r: EscrowRecord|
            #![trigger found.contains(r)]
            #![trigger self.records.contains(r)]
            found.contains(r) <==> (self.records.contains(r) && min <= key_of(r, which) <= max)
        &&& forall|a: int, b: int|
            #![trigger found[a], found[b]]
            0 <= a < b < found.len() ==> self.in_key_order(which, found[a], found[b])
    }

    /// The bucket of `status` lists each bounty in that state once, and
    /// nothing else.
    pub open spec fn bucket_ok(self, status: EscrowStatus) -> bool {
        let b = self.bucket(status);
        &&& b.no_duplicates()
        &&& forall|k: int|
            0 <= k < b.len() ==> self.has_record(#[trigger] b[k]) && self.record(b[k]).status
                == status
        &&& forall|i: int|
            0 <= i < self.records.len() && (#[trigger] self.records[i]).status == status
                ==> b.contains(self.records[i].bounty_id)
    }

    /// The refund log has one entry for each refunded bounty, in the order of
    /// the refunds, with the depositor and the amount of its record, and no
    /// refund was made before the deadline.
    pub open spec fn history_ok(self) -> bool {
        &&& self.history.len() == self.refunded.len()
        &&& forall|k: int|
            0 <= k < self.history.len() ==> {
                let h = #[trigger] self.history[k];
                &&& h.bounty_id == self.refunded[k]
                &&& self.has_record(h.bounty_id)
                &&& h.depositor == self.record(h.bounty_id).depositor
                &&& h.amount == self.record(h.bounty_id).amount
                &&& h.refunded_at >= self.record(h.bounty_id).deadline
            }
    }

    /// What holds of every state that the escrow can reach.
    pub open spec fn inv(self) -> bool {
        &&& ids_of(self.records).no_duplicates()
        &&& forall|i: int| 0 <= i < self.records.len() ==> (#[trigger] self.records[i]).amount > 0
        &&& self.config is None ==> self.records.len() == 0
        &&& self.locked == locked_of(self.records)
        &&& self.bucket_ok(EscrowStatus::Locked)
        &&& self.bucket_ok(EscrowStatus::Released)
        &&& self.bucket_ok(EscrowStatus::Refunded)
        &&& self.history_ok()
    }

    /// The sum of all deposits fits the type of an amount.
    pub open spec fn within_limits(self) -> bool {
        total_deposited(self.records) <= i128::MAX
    }

    // ----- init -----

    /// Why `init` is rejected, if it is.
    pub open spec fn init_error(self) -> Option<Error> {
        if self.config is Some {
            Some(Error::AlreadyInitialized)
        } else {
            None
        }
    }

    /// The state after an accepted `init`.
    pub open spec fn after_init(self, admin: AccountId, token: AccountId) -> EscrowState {
        EscrowState {
            config: Some(Config { admin, token, refund_mode: RefundMode::AnyoneAfterDeadline }),
            ..self
        }
    }

    // ----- refund mode -----

    /// Why a change of the refund mode is rejected, if it is: only the
    /// administrator may change it.
    pub open spec fn mode_error(self, caller: AccountId) -> Option<Error> {
        if self.config is None {
            Some(Error::NotInitialized)
        } else if caller != self.config->0.admin {
            Some(Error::Unauthorized)
        } else {
            None
        }
    }

    /// The state after an accepted change of the refund mode.
    pub open spec fn after_set_mode(self, mode: RefundMode) -> EscrowState {
        EscrowState { config: Some(Config { refund_mode: mode, ..self.config->0 }), ..self }
    }

    // ----- lock -----

    /// Why a lock is rejected before the token gateway is asked, if it is.
    /// The caller must be the depositor; the bounty must be new; the amount
    /// must be positive. The first failing check decides.
    pub open spec fn lock_error(
        self,
        caller: AccountId,
        depositor: AccountId,
        bounty_id: u64,
        amount: i128,
    ) -> Option<Error> {
        if self.config is None {
            Some(Error::NotInitialized)
        } else if caller != depositor {
            Some(Error::Unauthorized)
        } else if self.has_record(bounty_id) {
            Some(Error::DuplicateBountyId)
        } else if amount <= 0 {
            Some(Error::InvalidAmount)
        } else {
            None
        }
    }

    /// The transfer that a lock asks of the token gateway: the amount, from
    /// the depositor into custody.
    pub open spec fn lock_request(self, depositor: AccountId, amount: i128) -> Transfer {
        Transfer {
            token: self.config->0.token,
            from: Party::Account(depositor),
            to: Party::Custody,
            amount,
        }
    }

    /// The state after a lock that created `record`.
    pub open spec fn after_lock(self, record: EscrowRecord) -> EscrowState {
        EscrowState {
            records: self.records.push(record),
            locked: self.locked.push(record.bounty_id),
            ..self
        }
    }

    // ----- release -----

    /// Why a release is rejected before the token gateway is asked, if it
    /// is. The caller must be the administrator; the bounty must exist and be
    /// locked. The first failing check decides.
    pub open spec fn release_error(self, caller: AccountId, bounty_id: u64) -> Option<Error> {
        if self.config is None {
            Some(Error::NotInitialized)
        } else if caller != self.config->0.admin {
            Some(Error::Unauthorized)
        } else if !self.has_record(bounty_id) {
            Some(Error::NotFound)
        } else if self.record(bounty_id).status != EscrowStatus::Locked {
            Some(Error::InvalidStatus)
        } else {
            None
        }
    }

    /// The state after the locked bounty `bounty_id` has left `Locked` for
    /// the terminal state `status`.
    pub open spec fn after_finalize(self, bounty_id: u64, status: EscrowStatus) -> EscrowState {
        let p = self.position(bounty_id);
        let records = self.records.update(p, with_status(self.records[p], status));
        let locked = without(self.locked, bounty_id);
        match status {
            EscrowStatus::Released => EscrowState {
                records,
                locked,
                released: self.released.push(bounty_id),
                ..self
            },
            EscrowStatus::Refunded => EscrowState {
                records,
                locked,
                refunded: self.refunded.push(bounty_id),
                ..self
            },
            EscrowStatus::Locked => self,
        }
    }

    /// The transfer that a release asks of the token gateway: the amount of
    /// the record, from custody to the recipient.
    pub open spec fn release_request(self, bounty_id: u64, recipient: AccountId) -> Transfer {
        Transfer {
            token: self.config->0.token,
            from: Party::Custody,
            to: Party::Account(recipient),
            amount: self.record(bounty_id).amount,
        }
    }

    /// The notification of a release.
    pub open spec fn release_event(self, bounty_id: u64, recipient: AccountId) -> EscrowEvent {
        EscrowEvent::FundsReleased { bounty_id, recipient, amount: self.record(bounty_id).amount }
    }

    /// The state after an accepted release.
    pub open spec fn after_release(self, bounty_id: u64) -> EscrowState {
        self.after_finalize(bounty_id, EscrowStatus::Released)
    }

    // ----- refund -----

    /// Whether `caller` may ask for the refund of `record` under the
    /// configured refund mode.
    pub open spec fn may_refund(self, caller: AccountId, record: EscrowRecord) -> bool {
        self.config->0.refund_mode == RefundMode::AnyoneAfterDeadline || caller
            == record.depositor
    }

    /// Why a refund is rejected before the token gateway is asked, if it is.
    /// The bounty must exist; the caller must be allowed by the refund mode;
    /// the bounty must be locked; the time must have reached the deadline.
    /// The first failing check decides.
    pub open spec fn refund_error(self, caller: AccountId, bounty_id: u64, now: u64) -> Option<
        Error,
    > {
        if self.config is None {
            Some(Error::NotInitialized)
        } else if !self.has_record(bounty_id) {
            Some(Error::NotFound)
        } else if !self.may_refund(caller, self.record(bounty_id)) {
            Some(Error::Unauthorized)
        } else if self.record(bounty_id).status != EscrowStatus::Locked {
            Some(Error::InvalidStatus)
        } else if now < self.record(bounty_id).deadline {
            Some(Error::DeadlineNotPassed)
        } else {
            None
        }
    }

    /// The transfer that a refund asks of the token gateway: the amount of
    /// the record, from custody back to the depositor.
    pub open spec fn refund_request(self, bounty_id: u64) -> Transfer {
        Transfer {
            token: self.config->0.token,
            from: Party::Custody,
            to: Party::Account(self.record(bounty_id).depositor),
            amount: self.record(bounty_id).amount,
        }
    }

    /// The notification of a refund.
    pub open spec fn refund_event(self, bounty_id: u64) -> EscrowEvent {
        EscrowEvent::FundsRefunded {
            bounty_id,
            depositor: self.record(bounty_id).depositor,
            amount: self.record(bounty_id).amount,
        }
    }

    /// The line that the refund of bounty `bounty_id` at time `now` adds to
    /// the refund log.
    pub open spec fn refund_entry(self, bounty_id: u64, now: u64) -> RefundHistoryEntry {
        RefundHistoryEntry {
            bounty_id,
            depositor: self.record(bounty_id).depositor,
            amount: self.record(bounty_id).amount,
            refunded_at: now,
        }
    }

    /// The state after an accepted refund at time `now`.
    pub open spec fn after_refund(self, bounty_id: u64, now: u64) -> EscrowState {
        EscrowState {
            history: self.history.push(self.refund_entry(bounty_id, now)),
            ..self.after_finalize(bounty_id, EscrowStatus::Refunded)
        }
    }

    // ----- calls in general -----

    /// Why `call` is rejected in this state, if it is: by the rules of the
    /// operation, or because the gateway reported that the transfer failed.
    pub open spec fn rejection(self, call: Call) -> Option<Error> {
        match call {
            Call::Init { admin, token } => self.init_error(),
            Call::SetRefundMode { caller, mode } => self.mode_error(caller),
            Call::LockFunds { caller, depositor, bounty_id, amount, deadline, now, outcome } => {
                gateway_verdict(self.lock_error(caller, depositor, bounty_id, amount), outcome)
            },
            Call::ReleaseFunds { caller, bounty_id, recipient, outcome } => {
                gateway_verdict(self.release_error(caller, bounty_id), outcome)
            },
            Call::Refund { caller, bounty_id, now, outcome } => {
                gateway_verdict(self.refund_error(caller, bounty_id, now), outcome)
            },
        }
    }

    /// The state that `call` leaves: this state where the call is rejected,
    /// the state after the operation where it is accepted.
    pub open spec fn after(self, call: Call) -> EscrowState {
        if self.rejection(call) is Some {
            self
        } else {
            match call {
                Call::Init { admin, token } => self.after_init(admin, token),
                Call::SetRefundMode { caller, mode } => self.after_set_mode(mode),
                Call::LockFunds { caller, depositor, bounty_id, amount, deadline, now, outcome } => {
                    self.after_lock(new_record(depositor, bounty_id, amount, deadline, now))
                },
                Call::ReleaseFunds { caller, bounty_id, recipient, outcome } => {
                    self.after_release(bounty_id)
                },
                Call::Refund { caller, bounty_id, now, outcome } => self.after_refund(
                    bounty_id,
                    now,
                ),
            }
        }
    }

    /// The notification that goes out when `call` is accepted in this state;
    /// none for the calls that only configure.
    pub open spec fn event(self, call: Call) -> Option<EscrowEvent> {
        match call {
            Call::Init { admin, token } => None,
            Call::SetRefundMode { caller, mode } => None,
            Call::LockFunds { caller, depositor, bounty_id, amount, deadline, now, outcome } => Some(
                EscrowEvent::FundsLocked { bounty_id, depositor, amount, deadline },
            ),
            Call::ReleaseFunds { caller, bounty_id, recipient, outcome } => Some(
                self.release_event(bounty_id, recipient),
            ),
            Call::Refund { caller, bounty_id, now, outcome } => Some(self.refund_event(bounty_id)),
        }
    }

    /// The state that a sequence of calls leaves, first call first.
    pub open spec fn run(self, calls: Seq<Call>) -> EscrowState
        decreases calls.len(),
    {
        if calls.len() == 0 {
            self
        } else {
            self.run(calls.drop_last()).after(calls.last())
        }
    }

    /// What `call` adds to the deposits in this state: its amount where it
    /// is an accepted lock, nothing otherwise.
    pub open spec fn deposit_of(self, call: Call) -> int {
        match call {
            Call::LockFunds { caller, depositor, bounty_id, amount, deadline, now, outcome } => {
                if self.rejection(call) is None {
                    amount as int
                } else {
                    0
                }
            },
            _ => 0,
        }
    }

    /// The sum of the amounts of the locks that are accepted when `calls`
    /// run from this state.
    pub open spec fn deposits_by(self, calls: Seq<Call>) -> int
        decreases calls.len(),
    {
        if calls.len() == 0 {
            0
        } else {
            self.deposits_by(calls.drop_last()) + self.run(calls.drop_last()).deposit_of(
                calls.last(),
            )
        }
    }

    /// Whether bounty `bounty_id` could be refunded at time `now`: it exists,
    /// is locked, and the time has reached its deadline.
    pub open spec fn refund_eligible(self, bounty_id: u64, now: u64) -> bool {
        &&& self.has_record(bounty_id)
        &&& self.record(bounty_id).status == EscrowStatus::Locked
        &&& now >= self.record(bounty_id).deadline
    }
}

} // verus!
