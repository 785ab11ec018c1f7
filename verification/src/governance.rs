//! Governance proposal and voting records.
//!
//! These are data definitions only: the records that an upgrade-governance
//! process keeps about proposals and votes. No transition logic lives here.

use vstd::prelude::*;
use crate::account::AccountId;

verus! {

/// Where a proposal stands in its life cycle.
#[derive(Clone, Copy, Debug, PartialEq, Eq, Structural)]
pub enum ProposalStatus {
    Pending,
    Active,
    Approved,
    Rejected,
    Executed,
    Expired,
}

/// The choice a voter makes on a proposal.
#[derive(Clone, Copy, Debug, PartialEq, Eq, Structural)]
pub enum VoteType {
    For,
    Against,
    Abstain,
}

/// How voting power is counted.
#[derive(Clone, Copy, Debug, PartialEq, Eq, Structural)]
pub enum VotingScheme {
    OnePersonOneVote,
    TokenWeighted,
}

/// A proposal to replace the contract code by the code with the given hash.
#[derive(Debug)]
pub struct Proposal {
    pub id: u32,
    pub proposer: AccountId,
    pub new_wasm_hash: [u8; 32],
    pub description: String,
    pub created_at: u64,
    pub voting_start: u64,
    pub voting_end: u64,
    pub execution_delay: u64,
    pub status: ProposalStatus,
    pub votes_for: i128,
    pub votes_against: i128,
    pub votes_abstain: i128,
    pub total_votes: u32,
}

impl Clone for Proposal {
    fn clone(&self) -> (copy: Proposal)
        ensures
            copy == *self,
    {
        Proposal {
            id: self.id,
            proposer: self.proposer,
            new_wasm_hash: self.new_wasm_hash,
            description: self.description.clone(),
            created_at: self.created_at,
            voting_start: self.voting_start,
            voting_end: self.voting_end,
            execution_delay: self.execution_delay,
            status: self.status,
            votes_for: self.votes_for,
            votes_against: self.votes_against,
            votes_abstain: self.votes_abstain,
            total_votes: self.total_votes,
        }
    }
}

/// The parameters of the governance process. Percentages are in basis
/// points: 5000 is 50%, 6667 is 66.67%.
#[derive(Clone, Copy, Debug)]
pub struct GovernanceConfig {
    pub voting_period: u64,
    pub execution_delay: u64,
    pub quorum_percentage: u32,
    pub approval_threshold: u32,
    pub min_proposal_stake: i128,
    pub voting_scheme: VotingScheme,
}

/// One vote cast on a proposal.
#[derive(Clone, Copy, Debug)]
pub struct Vote {
    pub voter: AccountId,
    pub proposal_id: u32,
    pub vote_type: VoteType,
    pub voting_power: i128,
    pub timestamp: u64,
}

} // verus!
