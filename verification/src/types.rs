//! The plain data that the escrow keeps and exchanges with its surroundings.

use vstd::prelude::*;
use crate::account::AccountId;

verus! {

/// The state of one escrow. `Locked` is the only state that can be left;
/// `Released` and `Refunded` are terminal.
#[derive(Clone, Copy, Debug, PartialEq, Eq, Structural)]
pub enum EscrowStatus {
    Locked,
    Released,
    Refunded,
}

/// What is kept about one bounty: who paid how much, until when the funds
/// are held, and what became of them.
#[derive(Clone, Copy, Debug, PartialEq, Eq)]
pub struct EscrowRecord {
    pub bounty_id: u64,
    pub depositor: AccountId,
    pub amount: i128,
    pub deadline: u64,
    pub status: EscrowStatus,
    pub created_at: u64,
}

/// Running totals and counts of the escrows in each state.
#[derive(Clone, Copy, Debug, PartialEq, Eq, Structural)]
pub struct AggregateStats {
    pub total_locked: i128,
    pub total_released: i128,
    pub total_refunded: i128,
    pub count_locked: u64,
    pub count_released: u64,
    pub count_refunded: u64,
}

/// One line of the refund log, written when a refund succeeds.
#[derive(Clone, Copy, Debug, PartialEq, Eq)]
pub struct RefundHistoryEntry {
    pub bounty_id: u64,
    pub depositor: AccountId,
    pub amount: i128,
    pub refunded_at: u64,
}

/// Who may ask for a refund once the deadline has passed.
#[derive(Clone, Copy, Debug, PartialEq, Eq, Structural)]
pub enum RefundMode {
    /// Any caller.
    AnyoneAfterDeadline,
    /// Only the account that deposited the funds.
    DepositorOnly,
}

/// Why an operation was rejected.
#[derive(Clone, Copy, Debug, PartialEq, Eq, Structural)]
pub enum Error {
    AlreadyInitialized,
    NotInitialized,
    DuplicateBountyId,
    NotFound,
    InvalidAmount,
    InvalidStatus,
    DeadlineNotPassed,
    Unauthorized,
    GatewayFailure,
}

/// The field by which a range query selects records.
#[derive(Clone, Copy, Debug, PartialEq, Eq, Structural)]
pub enum RangeKey {
    Amount,
    Deadline,
}

/// The administrator, the token whose units are held, and the refund policy.
#[derive(Clone, Copy, Debug, PartialEq, Eq)]
pub struct Config {
    pub admin: AccountId,
    pub token: AccountId,
    pub refund_mode: RefundMode,
}

/// One end of a transfer: the escrow's own custody, or an account.
#[derive(Clone, Copy, Debug, PartialEq, Eq)]
pub enum Party {
    Custody,
    Account(AccountId),
}

/// A movement of funds that the token gateway is asked to perform. The
/// gateway moves exactly `amount` units of `token` from `from` to `to`, or
/// nothing at all.
#[derive(Clone, Copy, Debug, PartialEq, Eq)]
pub struct Transfer {
    pub token: AccountId,
    pub from: Party,
    pub to: Party,
    pub amount: i128,
}

/// What the token gateway reported about a requested transfer.
#[derive(Clone, Copy, Debug, PartialEq, Eq, Structural)]
pub enum GatewayOutcome {
    Completed,
    Failed,
}

/// The notification that goes out after a successful transition.
#[derive(Clone, Copy, Debug, PartialEq, Eq)]
pub enum EscrowEvent {
    FundsLocked { bounty_id: u64, depositor: AccountId, amount: i128, deadline: u64 },
    FundsReleased { bounty_id: u64, recipient: AccountId, amount: i128 },
    FundsRefunded { bounty_id: u64, depositor: AccountId, amount: i128 },
}

/// A call on the escrow, with everything that decides its result: the
/// caller who proved its identity, the ledger time, and the gateway's report
/// on the transfer that the call needs.
#[derive(Clone, Copy, Debug, PartialEq, Eq)]
pub enum Call {
    Init { admin: AccountId, token: AccountId },
    SetRefundMode { caller: AccountId, mode: RefundMode },
    LockFunds {
        caller: AccountId,
        depositor: AccountId,
        bounty_id: u64,
        amount: i128,
        deadline: u64,
        now: u64,
        outcome: GatewayOutcome,
    },
    ReleaseFunds { caller: AccountId, bounty_id: u64, recipient: AccountId, outcome: GatewayOutcome },
    Refund { caller: AccountId, bounty_id: u64, now: u64, outcome: GatewayOutcome },
}

} // verus!
