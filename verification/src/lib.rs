//! Custody of bounty funds.
//!
//! A depositor locks funds for a bounty until a deadline; the funds are
//! later released to a contributor or, once the deadline has passed,
//! refunded to the depositor. The crate holds the escrow state machine, the
//! aggregates and indices that are kept in step with it, and the proofs
//! that they never diverge from the records.
//!
//! - [`model`] is the mathematical model: the state, the rules of each
//!   operation, and what the views report.
//! - [`escrow`] is the executable escrow, with contracts over the model.
//! - [`snapshot`] rebuilds an escrow from what a store keeps of it.
//! - [`laws`] states what holds in every state that calls can lead to, and
//!   [`reachability`] that the invariant of the model holds of those states
//!   and of no others.
//! - [`lemmas`] holds the facts about the model that the proofs share.
//! - [`range_index`] and [`depositor_index`] are the secondary indices, and
//!   [`analytics`] says what makes them true to the records.
//! - [`governance`] holds the records of the upgrade governance.

pub mod account;
pub mod analytics;
pub mod depositor_index;
pub mod escrow;
pub mod governance;
pub mod laws;
pub mod lemmas;
pub mod model;
pub mod range_index;
pub mod reachability;
pub mod snapshot;
pub mod types;

pub use account::AccountId;
pub use escrow::BountyEscrowContract;
pub use governance::{GovernanceConfig, Proposal, ProposalStatus, Vote, VoteType, VotingScheme};
pub use types::{
    AggregateStats, Call, Config, Error, EscrowEvent, EscrowRecord, EscrowStatus, GatewayOutcome,
    Party, RangeKey, RefundHistoryEntry, RefundMode, Transfer,
};
