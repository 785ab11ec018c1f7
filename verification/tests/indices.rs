use bounty_escrow::depositor_index::DepositorIndex;
use bounty_escrow::range_index::RangeIndex;
use bounty_escrow::{
    AccountId, GovernanceConfig, Proposal, ProposalStatus, Vote, VoteType, VotingScheme,
};

fn account(tag: u8) -> AccountId {
    let mut key = [b'B'; 56];
    key[0] = b'C';
    key[1] = tag;
    AccountId::new(key)
}

fn keys(index: &RangeIndex) -> Vec<(i128, usize)> {
    (0..index.len()).map(|j| (index.entry(j).key, index.entry(j).position)).collect()
}

#[test]
fn range_index_keeps_keys_in_order_and_ties_in_arrival_order() {
    let mut index = RangeIndex::new();
    assert_eq!(index.len(), 0);
    assert_eq!(index.insert(50, 0), 0);
    assert_eq!(index.insert(20, 1), 0);
    assert_eq!(index.insert(50, 2), 2);
    assert_eq!(index.insert(70, 3), 3);
    assert_eq!(index.insert(20, 4), 1);
    assert_eq!(index.insert(-3, 5), 0);
    assert_eq!(index.insert(50, 6), 5);
    assert_eq!(
        keys(&index),
        vec![(-3, 5), (20, 1), (20, 4), (50, 0), (50, 2), (50, 6), (70, 3)]
    );
}

#[test]
fn range_index_division_finds_the_first_entry_not_before_the_key() {
    let mut index = RangeIndex::new();
    assert_eq!(index.division(5, false), 0);
    assert_eq!(index.division(5, true), 0);
    for (position, key) in [10i128, 20, 20, 20, 30, 40].into_iter().enumerate() {
        index.insert(key, position);
    }
    assert_eq!(index.division(20, false), 1);
    assert_eq!(index.division(20, true), 4);
    assert_eq!(index.division(9, false), 0);
    assert_eq!(index.division(9, true), 0);
    assert_eq!(index.division(10, false), 0);
    assert_eq!(index.division(10, true), 1);
    assert_eq!(index.division(25, false), 4);
    assert_eq!(index.division(25, true), 4);
    assert_eq!(index.division(40, true), 6);
    assert_eq!(index.division(i128::MAX, false), 6);
    assert_eq!(index.division(i128::MIN, true), 0);
}

#[test]
fn depositor_index_groups_positions_by_depositor() {
    let mut index = DepositorIndex::new();
    assert_eq!(index.slot(&account(1)), None);
    index.add(account(1), 0);
    index.add(account(2), 1);
    index.add(account(1), 2);
    index.add(account(3), 3);
    index.add(account(1), 7);

    let list = |index: &DepositorIndex, who: u8| -> Vec<usize> {
        match index.slot(&account(who)) {
            None => Vec::new(),
            Some(k) => (0..index.list_len(k)).map(|t| index.at(k, t)).collect(),
        }
    };
    assert_eq!(index.slot(&account(1)), Some(0));
    assert_eq!(index.slot(&account(2)), Some(1));
    assert_eq!(index.slot(&account(3)), Some(2));
    assert_eq!(index.slot(&account(4)), None);
    assert_eq!(list(&index, 1), vec![0, 2, 7]);
    assert_eq!(list(&index, 2), vec![1]);
    assert_eq!(list(&index, 3), vec![3]);
    assert_eq!(list(&index, 4), Vec::<usize>::new());
}

#[test]
fn governance_records_hold_what_they_are_given() {
    let config = GovernanceConfig {
        voting_period: 7 * 24 * 3600,
        execution_delay: 3600,
        quorum_percentage: 5000,
        approval_threshold: 6667,
        min_proposal_stake: 1_000,
        voting_scheme: VotingScheme::TokenWeighted,
    };
    assert_eq!(config.quorum_percentage, 5000);
    assert_eq!(config.voting_scheme, VotingScheme::TokenWeighted);
    assert_ne!(config.voting_scheme, VotingScheme::OnePersonOneVote);

    let proposal = Proposal {
        id: 1,
        proposer: account(9),
        new_wasm_hash: [7u8; 32],
        description: String::from("upgrade"),
        created_at: 10,
        voting_start: 20,
        voting_end: 30,
        execution_delay: 5,
        status: ProposalStatus::Pending,
        votes_for: 0,
        votes_against: 0,
        votes_abstain: 0,
        total_votes: 0,
    };
    let copy = proposal.clone();
    assert_eq!(copy.id, 1);
    assert!(copy.proposer == account(9));
    assert_eq!(copy.new_wasm_hash, [7u8; 32]);
    assert_eq!(copy.description, "upgrade");
    assert_eq!(copy.status, ProposalStatus::Pending);
    assert_ne!(ProposalStatus::Active, ProposalStatus::Expired);

    let vote = Vote {
        voter: account(3),
        proposal_id: 1,
        vote_type: VoteType::Against,
        voting_power: 12,
        timestamp: 25,
    };
    assert_eq!(vote.vote_type, VoteType::Against);
    assert_ne!(vote.vote_type, VoteType::Abstain);
    assert_ne!(VoteType::For, VoteType::Abstain);
    assert_eq!(vote.voting_power, 12);
}
