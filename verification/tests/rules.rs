use bounty_escrow::account::AccountId;
use bounty_escrow::escrow::BountyEscrowContract;
use bounty_escrow::types::{
    Call, Config, Error, EscrowEvent, EscrowRecord, EscrowStatus, GatewayOutcome, Party,
    RefundHistoryEntry, RefundMode, Transfer,
};

const DONE: GatewayOutcome = GatewayOutcome::Completed;

fn account(tag: u8) -> AccountId {
    let mut key = [b'A'; 56];
    key[0] = b'G';
    key[55] = tag;
    AccountId::new(key)
}

fn admin() -> AccountId {
    account(1)
}

fn token() -> AccountId {
    account(200)
}

fn alice() -> AccountId {
    account(2)
}

fn bob() -> AccountId {
    account(3)
}

fn fresh() -> BountyEscrowContract {
    let mut escrow = BountyEscrowContract::new();
    escrow.init(admin(), token()).unwrap();
    escrow
}

fn lock(escrow: &mut BountyEscrowContract, who: AccountId, id: u64, amount: i128, deadline: u64) {
    assert!(escrow.has_room_for(amount));
    escrow.lock_funds(who, who, id, amount, deadline, 0, DONE).unwrap();
}

fn total(escrow: &BountyEscrowContract) -> i128 {
    let stats = escrow.get_aggregate_stats();
    stats.total_locked + stats.total_released + stats.total_refunded
}

fn ids(records: &[EscrowRecord]) -> Vec<u64> {
    records.iter().map(|r| r.bounty_id).collect()
}

#[test]
fn account_ids_compare_by_key() {
    let a = account(7);
    assert!(a.same(&account(7)));
    assert!(!a.same(&account(8)));
    assert!(a == account(7));
    assert!(a != account(8));
    assert_eq!(AccountId::new([9u8; 56]).key, [9u8; 56]);
}

#[test]
fn init_is_accepted_once() {
    let mut escrow = BountyEscrowContract::new();
    assert_eq!(escrow.config(), None);
    assert_eq!(escrow.init(admin(), token()), Ok(()));
    assert_eq!(
        escrow.config(),
        Some(Config { admin: admin(), token: token(), refund_mode: RefundMode::AnyoneAfterDeadline })
    );
    assert_eq!(escrow.init(bob(), token()), Err(Error::AlreadyInitialized));
    assert_eq!(escrow.config().unwrap().admin, admin());
}

#[test]
fn nothing_works_before_init() {
    let mut escrow = BountyEscrowContract::new();
    assert_eq!(escrow.lock_transfer(alice(), alice(), 1, 500), Err(Error::NotInitialized));
    assert_eq!(escrow.lock_funds(alice(), alice(), 1, 500, 10, 0, DONE), Err(Error::NotInitialized));
    assert_eq!(escrow.release_funds(admin(), 1, bob(), DONE), Err(Error::NotInitialized));
    assert_eq!(escrow.refund(alice(), 1, 100, DONE), Err(Error::NotInitialized));
    assert_eq!(
        escrow.set_refund_mode(admin(), RefundMode::DepositorOnly),
        Err(Error::NotInitialized)
    );
    assert_eq!(escrow.get_escrow_count(), 0);
}

#[test]
fn lock_asks_for_the_amount_from_the_depositor_into_custody() {
    let escrow = fresh();
    assert_eq!(
        escrow.lock_transfer(alice(), alice(), 1, 500),
        Ok(Transfer { token: token(), from: Party::Account(alice()), to: Party::Custody, amount: 500 })
    );
}

#[test]
fn lock_creates_a_locked_record_and_reports_it() {
    let mut escrow = fresh();
    let event = escrow.lock_funds(alice(), alice(), 1, 500, 1000, 40, DONE);
    assert_eq!(
        event,
        Ok(EscrowEvent::FundsLocked { bounty_id: 1, depositor: alice(), amount: 500, deadline: 1000 })
    );
    assert_eq!(
        escrow.get_escrow_info(1),
        Ok(EscrowRecord {
            bounty_id: 1,
            depositor: alice(),
            amount: 500,
            deadline: 1000,
            status: EscrowStatus::Locked,
            created_at: 40,
        })
    );
}

#[test]
fn lock_by_someone_else_is_unauthorized() {
    let mut escrow = fresh();
    assert_eq!(escrow.lock_transfer(bob(), alice(), 1, 500), Err(Error::Unauthorized));
    assert_eq!(escrow.lock_funds(bob(), alice(), 1, 500, 1000, 0, DONE), Err(Error::Unauthorized));
    assert_eq!(escrow.get_escrow_count(), 0);
}

#[test]
fn lock_of_nothing_or_less_is_an_invalid_amount() {
    let mut escrow = fresh();
    assert_eq!(escrow.lock_funds(alice(), alice(), 1, 0, 1000, 0, DONE), Err(Error::InvalidAmount));
    assert_eq!(escrow.lock_funds(alice(), alice(), 1, -5, 1000, 0, DONE), Err(Error::InvalidAmount));
    assert_eq!(escrow.get_escrow_info(1), Err(Error::NotFound));
    assert_eq!(escrow.lock_funds(alice(), alice(), 1, 1, 1000, 0, DONE).is_ok(), true);
}

#[test]
fn second_lock_of_a_bounty_is_a_duplicate_whatever_its_state() {
    let mut escrow = fresh();
    lock(&mut escrow, alice(), 1, 500, 10);
    lock(&mut escrow, alice(), 2, 500, 10);
    lock(&mut escrow, alice(), 3, 500, 10);
    escrow.release_funds(admin(), 2, bob(), DONE).unwrap();
    escrow.refund(bob(), 3, 10, DONE).unwrap();
    for id in [1u64, 2, 3] {
        assert_eq!(
            escrow.lock_funds(bob(), bob(), id, 70, 99, 5, DONE),
            Err(Error::DuplicateBountyId)
        );
        // The duplicate is found before the amount is looked at.
        assert_eq!(
            escrow.lock_funds(alice(), alice(), id, 0, 99, 5, DONE),
            Err(Error::DuplicateBountyId)
        );
    }
    assert_eq!(escrow.get_escrow_count(), 3);
    assert_eq!(total(&escrow), 1500);
}

#[test]
fn failed_transfer_leaves_no_trace() {
    let mut escrow = fresh();
    lock(&mut escrow, alice(), 1, 500, 10);
    let before = escrow.get_aggregate_stats();

    let failed = GatewayOutcome::Failed;
    assert_eq!(escrow.lock_funds(alice(), alice(), 2, 300, 10, 0, failed), Err(Error::GatewayFailure));
    assert_eq!(escrow.release_funds(admin(), 1, bob(), failed), Err(Error::GatewayFailure));
    assert_eq!(escrow.refund(alice(), 1, 10, failed), Err(Error::GatewayFailure));

    assert_eq!(escrow.get_aggregate_stats(), before);
    assert_eq!(escrow.get_escrow_count(), 1);
    assert_eq!(escrow.get_escrow_info(2), Err(Error::NotFound));
    assert_eq!(escrow.get_escrow_info(1).unwrap().status, EscrowStatus::Locked);
    assert_eq!(escrow.get_escrow_ids_by_status(EscrowStatus::Locked), vec![1]);
    assert!(escrow.get_refund_history().is_empty());
    assert!(escrow.query_escrows_by_amount(300, 300).is_empty());
    assert!(escrow.query_escrows_by_depositor(alice()).len() == 1);
}

#[test]
fn release_asks_for_the_amount_from_custody_to_the_recipient() {
    let mut escrow = fresh();
    lock(&mut escrow, alice(), 1, 500, 10);
    assert_eq!(
        escrow.release_transfer(admin(), 1, bob()),
        Ok(Transfer { token: token(), from: Party::Custody, to: Party::Account(bob()), amount: 500 })
    );
    assert_eq!(
        escrow.release_funds(admin(), 1, bob(), DONE),
        Ok(EscrowEvent::FundsReleased { bounty_id: 1, recipient: bob(), amount: 500 })
    );
    assert_eq!(escrow.get_escrow_info(1).unwrap().status, EscrowStatus::Released);
}

#[test]
fn release_by_other_than_the_administrator_is_unauthorized() {
    let mut escrow = fresh();
    lock(&mut escrow, alice(), 1, 500, 1000);
    assert_eq!(escrow.release_transfer(alice(), 1, bob()), Err(Error::Unauthorized));
    assert_eq!(escrow.release_funds(account(4), 1, bob(), DONE), Err(Error::Unauthorized));
    assert_eq!(escrow.get_escrow_info(1).unwrap().status, EscrowStatus::Locked);
    assert_eq!(escrow.get_aggregate_stats().count_released, 0);
}

#[test]
fn release_and_refund_of_an_unknown_bounty_are_not_found() {
    let mut escrow = fresh();
    assert_eq!(escrow.release_funds(admin(), 9, bob(), DONE), Err(Error::NotFound));
    assert_eq!(escrow.refund(alice(), 9, 100, DONE), Err(Error::NotFound));
    assert_eq!(escrow.refund_transfer(alice(), 9, 100), Err(Error::NotFound));
    assert_eq!(escrow.get_escrow_info(9), Err(Error::NotFound));
}

#[test]
fn finalized_records_reject_release_and_refund() {
    let mut escrow = fresh();
    lock(&mut escrow, alice(), 1, 500, 10);
    lock(&mut escrow, alice(), 2, 700, 10);
    escrow.release_funds(admin(), 1, bob(), DONE).unwrap();
    escrow.refund(bob(), 2, 10, DONE).unwrap();
    let before = escrow.get_aggregate_stats();
    for id in [1u64, 2] {
        assert_eq!(escrow.release_funds(admin(), id, bob(), DONE), Err(Error::InvalidStatus));
        assert_eq!(escrow.refund(alice(), id, 5000, DONE), Err(Error::InvalidStatus));
        assert_eq!(escrow.release_transfer(admin(), id, bob()), Err(Error::InvalidStatus));
        assert_eq!(escrow.refund_transfer(alice(), id, 5000), Err(Error::InvalidStatus));
    }
    assert_eq!(escrow.get_escrow_info(1).unwrap().status, EscrowStatus::Released);
    assert_eq!(escrow.get_escrow_info(2).unwrap().status, EscrowStatus::Refunded);
    assert_eq!(escrow.get_aggregate_stats(), before);
}

#[test]
fn refund_is_gated_by_the_deadline_inclusively() {
    let mut escrow = fresh();
    lock(&mut escrow, alice(), 1, 500, 1000);
    assert_eq!(escrow.refund(bob(), 1, 0, DONE), Err(Error::DeadlineNotPassed));
    assert_eq!(escrow.refund(bob(), 1, 999, DONE), Err(Error::DeadlineNotPassed));
    assert_eq!(escrow.refund_transfer(bob(), 1, 999), Err(Error::DeadlineNotPassed));
    assert_eq!(
        escrow.refund_transfer(bob(), 1, 1000),
        Ok(Transfer { token: token(), from: Party::Custody, to: Party::Account(alice()), amount: 500 })
    );
    assert_eq!(
        escrow.refund(bob(), 1, 1000, DONE),
        Ok(EscrowEvent::FundsRefunded { bounty_id: 1, depositor: alice(), amount: 500 })
    );
    assert_eq!(escrow.get_escrow_info(1).unwrap().status, EscrowStatus::Refunded);
}

#[test]
fn refund_mode_decides_who_may_ask() {
    let mut escrow = fresh();
    lock(&mut escrow, alice(), 1, 500, 10);
    lock(&mut escrow, alice(), 2, 500, 10);
    assert_eq!(escrow.set_refund_mode(alice(), RefundMode::DepositorOnly), Err(Error::Unauthorized));
    assert_eq!(escrow.config().unwrap().refund_mode, RefundMode::AnyoneAfterDeadline);
    assert_eq!(escrow.set_refund_mode(admin(), RefundMode::DepositorOnly), Ok(()));
    assert_eq!(escrow.config().unwrap().refund_mode, RefundMode::DepositorOnly);

    assert_eq!(escrow.refund(bob(), 1, 10, DONE), Err(Error::Unauthorized));
    assert_eq!(escrow.refund(admin(), 1, 10, DONE), Err(Error::Unauthorized));
    // The caller is judged before the deadline is.
    assert_eq!(escrow.refund(bob(), 1, 0, DONE), Err(Error::Unauthorized));
    assert_eq!(escrow.refund(alice(), 1, 9, DONE), Err(Error::DeadlineNotPassed));
    assert!(escrow.refund(alice(), 1, 10, DONE).is_ok());

    assert_eq!(escrow.set_refund_mode(admin(), RefundMode::AnyoneAfterDeadline), Ok(()));
    assert!(escrow.refund(bob(), 2, 10, DONE).is_ok());
}

#[test]
fn totals_add_up_to_the_accepted_locks() {
    let mut escrow = fresh();
    let mut locked: i128 = 0;
    for (id, amount) in [(1u64, 500i128), (2, 700), (3, 300), (4, 1), (5, 12_345)] {
        lock(&mut escrow, alice(), id, amount, 10);
        locked += amount;
        assert_eq!(total(&escrow), locked);
    }
    let _ = escrow.lock_funds(alice(), alice(), 1, 900, 10, 0, DONE);
    let _ = escrow.lock_funds(alice(), alice(), 6, 0, 10, 0, DONE);
    let _ = escrow.lock_funds(alice(), alice(), 7, 10, 10, 0, GatewayOutcome::Failed);
    assert_eq!(total(&escrow), locked);
    escrow.release_funds(admin(), 2, bob(), DONE).unwrap();
    assert_eq!(total(&escrow), locked);
    escrow.refund(bob(), 3, 10, DONE).unwrap();
    assert_eq!(total(&escrow), locked);
    escrow.refund(bob(), 5, 11, DONE).unwrap();
    assert_eq!(total(&escrow), locked);

    let stats = escrow.get_aggregate_stats();
    assert_eq!(stats.total_locked, 501);
    assert_eq!(stats.total_released, 700);
    assert_eq!(stats.total_refunded, 12_645);
}

#[test]
fn counts_are_the_numbers_of_records_in_each_state() {
    let mut escrow = fresh();
    for id in 1..=6u64 {
        lock(&mut escrow, alice(), id, 100, 10);
    }
    escrow.release_funds(admin(), 2, bob(), DONE).unwrap();
    escrow.release_funds(admin(), 5, bob(), DONE).unwrap();
    escrow.refund(bob(), 3, 10, DONE).unwrap();

    let stats = escrow.get_aggregate_stats();
    let all = escrow.records();
    let count = |s: EscrowStatus| all.iter().filter(|r| r.status == s).count() as u64;
    assert_eq!(stats.count_locked, count(EscrowStatus::Locked));
    assert_eq!(stats.count_released, count(EscrowStatus::Released));
    assert_eq!(stats.count_refunded, count(EscrowStatus::Refunded));
    assert_eq!((stats.count_locked, stats.count_released, stats.count_refunded), (3, 2, 1));
}

#[test]
fn escrow_count_never_decreases() {
    let mut escrow = fresh();
    let mut last = escrow.get_escrow_count();
    assert_eq!(last, 0);
    let steps: Vec<Call> = vec![
        Call::LockFunds { caller: alice(), depositor: alice(), bounty_id: 1, amount: 5, deadline: 10, now: 0, outcome: DONE },
        Call::LockFunds { caller: alice(), depositor: alice(), bounty_id: 1, amount: 5, deadline: 10, now: 0, outcome: DONE },
        Call::LockFunds { caller: bob(), depositor: alice(), bounty_id: 2, amount: 5, deadline: 10, now: 0, outcome: DONE },
        Call::LockFunds { caller: alice(), depositor: alice(), bounty_id: 2, amount: 5, deadline: 10, now: 0, outcome: GatewayOutcome::Failed },
        Call::LockFunds { caller: alice(), depositor: alice(), bounty_id: 2, amount: 8, deadline: 10, now: 0, outcome: DONE },
        Call::ReleaseFunds { caller: admin(), bounty_id: 1, recipient: bob(), outcome: DONE },
        Call::ReleaseFunds { caller: admin(), bounty_id: 1, recipient: bob(), outcome: DONE },
        Call::Refund { caller: bob(), bounty_id: 2, now: 9, outcome: DONE },
        Call::Refund { caller: bob(), bounty_id: 2, now: 10, outcome: DONE },
        Call::Init { admin: bob(), token: token() },
        Call::Refund { caller: bob(), bounty_id: 7, now: 10, outcome: DONE },
    ];
    let expected = [1u64, 1, 1, 1, 2, 2, 2, 2, 2, 2, 2];
    for (call, want) in steps.into_iter().zip(expected) {
        let _ = escrow.apply(call);
        let count = escrow.get_escrow_count();
        assert!(count >= last);
        assert_eq!(count, want);
        last = count;
    }
}

#[test]
fn apply_does_what_the_operations_do() {
    let mut escrow = BountyEscrowContract::new();
    assert_eq!(escrow.apply(Call::Init { admin: admin(), token: token() }), Ok(None));
    assert_eq!(
        escrow.apply(Call::SetRefundMode { caller: admin(), mode: RefundMode::DepositorOnly }),
        Ok(None)
    );
    assert_eq!(
        escrow.apply(Call::LockFunds {
            caller: alice(),
            depositor: alice(),
            bounty_id: 4,
            amount: 250,
            deadline: 60,
            now: 3,
            outcome: DONE,
        }),
        Ok(Some(EscrowEvent::FundsLocked { bounty_id: 4, depositor: alice(), amount: 250, deadline: 60 }))
    );
    assert_eq!(
        escrow.apply(Call::Refund { caller: bob(), bounty_id: 4, now: 60, outcome: DONE }),
        Err(Error::Unauthorized)
    );
    assert_eq!(
        escrow.apply(Call::ReleaseFunds { caller: admin(), bounty_id: 4, recipient: bob(), outcome: DONE }),
        Ok(Some(EscrowEvent::FundsReleased { bounty_id: 4, recipient: bob(), amount: 250 }))
    );
    assert_eq!(escrow.get_escrow_info(4).unwrap().created_at, 3);
    assert_eq!(escrow.get_aggregate_stats().total_released, 250);
}

#[test]
fn room_for_deposits_ends_at_the_largest_amount() {
    let mut escrow = fresh();
    assert!(escrow.has_room_for(i128::MAX));
    lock(&mut escrow, alice(), 1, i128::MAX - 10, 10);
    assert!(escrow.has_room_for(10));
    assert!(!escrow.has_room_for(11));
    escrow.release_funds(admin(), 1, bob(), DONE).unwrap();
    assert!(!escrow.has_room_for(11));
    lock(&mut escrow, alice(), 2, 10, 10);
    assert!(!escrow.has_room_for(1));
    assert!(escrow.has_room_for(0));
    assert_eq!(total(&escrow), i128::MAX);
}

#[test]
fn refund_log_keeps_the_order_of_the_refunds() {
    let mut escrow = fresh();
    lock(&mut escrow, alice(), 1, 100, 10);
    lock(&mut escrow, bob(), 2, 200, 20);
    lock(&mut escrow, alice(), 3, 300, 30);
    assert!(escrow.get_refund_history().is_empty());
    escrow.refund(admin(), 3, 31, DONE).unwrap();
    escrow.release_funds(admin(), 1, bob(), DONE).unwrap();
    escrow.refund(admin(), 2, 45, DONE).unwrap();
    assert_eq!(
        escrow.get_refund_history(),
        vec![
            RefundHistoryEntry { bounty_id: 3, depositor: alice(), amount: 300, refunded_at: 31 },
            RefundHistoryEntry { bounty_id: 2, depositor: bob(), amount: 200, refunded_at: 45 },
        ]
    );
}

#[test]
fn refund_eligibility_follows_state_and_time() {
    let mut escrow = fresh();
    lock(&mut escrow, alice(), 1, 100, 50);
    lock(&mut escrow, alice(), 2, 100, 50);
    assert!(!escrow.get_refund_eligibility(99, 1000));
    assert!(!escrow.get_refund_eligibility(1, 49));
    assert!(escrow.get_refund_eligibility(1, 50));
    assert!(escrow.get_refund_eligibility(1, 51));
    escrow.release_funds(admin(), 1, bob(), DONE).unwrap();
    assert!(!escrow.get_refund_eligibility(1, 51));
    escrow.refund(bob(), 2, 50, DONE).unwrap();
    assert!(!escrow.get_refund_eligibility(2, 51));
}

#[test]
fn views_by_status_agree_and_keep_the_order_of_arrival() {
    let mut escrow = fresh();
    for id in [5u64, 3, 9, 1, 7] {
        lock(&mut escrow, alice(), id, 10 * id as i128, 10);
    }
    escrow.release_funds(admin(), 9, bob(), DONE).unwrap();
    escrow.refund(bob(), 1, 10, DONE).unwrap();
    escrow.release_funds(admin(), 5, bob(), DONE).unwrap();

    assert_eq!(escrow.get_escrow_ids_by_status(EscrowStatus::Locked), vec![3, 7]);
    assert_eq!(escrow.get_escrow_ids_by_status(EscrowStatus::Released), vec![9, 5]);
    assert_eq!(escrow.get_escrow_ids_by_status(EscrowStatus::Refunded), vec![1]);
    for status in [EscrowStatus::Locked, EscrowStatus::Released, EscrowStatus::Refunded] {
        let records = escrow.query_escrows_by_status(status);
        assert_eq!(ids(&records), escrow.get_escrow_ids_by_status(status));
        assert!(records.iter().all(|r| r.status == status));
    }
    assert_eq!(escrow.query_escrows_by_status(EscrowStatus::Released)[0].amount, 90);
}

#[test]
fn query_by_amount_is_inclusive_and_ordered() {
    let mut escrow = fresh();
    lock(&mut escrow, alice(), 1, 500, 10);
    lock(&mut escrow, alice(), 2, 700, 10);
    lock(&mut escrow, alice(), 3, 300, 10);
    lock(&mut escrow, bob(), 4, 500, 10);
    lock(&mut escrow, bob(), 5, 100, 10);
    escrow.release_funds(admin(), 4, bob(), DONE).unwrap();

    assert_eq!(ids(&escrow.query_escrows_by_amount(300, 500)), vec![3, 1, 4]);
    assert_eq!(ids(&escrow.query_escrows_by_amount(0, i128::MAX)), vec![5, 3, 1, 4, 2]);
    assert_eq!(ids(&escrow.query_escrows_by_amount(i128::MIN, 100)), vec![5]);
    assert_eq!(ids(&escrow.query_escrows_by_amount(700, 700)), vec![2]);
    assert_eq!(ids(&escrow.query_escrows_by_amount(501, 699)), Vec::<u64>::new());
    assert_eq!(ids(&escrow.query_escrows_by_amount(500, 300)), Vec::<u64>::new());
    let found = escrow.query_escrows_by_amount(500, 500);
    assert_eq!(found[1].status, EscrowStatus::Released);
    assert_eq!(found[0].status, EscrowStatus::Locked);
}

#[test]
fn query_by_deadline_is_inclusive_and_ordered() {
    let mut escrow = fresh();
    lock(&mut escrow, alice(), 1, 5, 300);
    lock(&mut escrow, alice(), 2, 5, 100);
    lock(&mut escrow, alice(), 3, 5, u64::MAX);
    lock(&mut escrow, alice(), 4, 5, 100);
    lock(&mut escrow, alice(), 5, 5, 0);
    escrow.refund(bob(), 2, 100, DONE).unwrap();

    assert_eq!(ids(&escrow.query_escrows_by_deadline(100, 300)), vec![2, 4, 1]);
    assert_eq!(ids(&escrow.query_escrows_by_deadline(0, u64::MAX)), vec![5, 2, 4, 1, 3]);
    assert_eq!(ids(&escrow.query_escrows_by_deadline(301, u64::MAX)), vec![3]);
    assert_eq!(ids(&escrow.query_escrows_by_deadline(1, 99)), Vec::<u64>::new());
    assert_eq!(ids(&escrow.query_escrows_by_deadline(300, 100)), Vec::<u64>::new());
}

#[test]
fn query_by_depositor_lists_its_records_in_creation_order() {
    let mut escrow = fresh();
    lock(&mut escrow, alice(), 10, 1, 10);
    lock(&mut escrow, bob(), 11, 2, 10);
    lock(&mut escrow, alice(), 12, 3, 10);
    lock(&mut escrow, alice(), 13, 4, 10);
    escrow.release_funds(admin(), 12, bob(), DONE).unwrap();
    escrow.refund(bob(), 10, 10, DONE).unwrap();

    let of_alice = escrow.query_escrows_by_depositor(alice());
    assert_eq!(ids(&of_alice), vec![10, 12, 13]);
    assert_eq!(
        of_alice.iter().map(|r| r.status).collect::<Vec<_>>(),
        vec![EscrowStatus::Refunded, EscrowStatus::Released, EscrowStatus::Locked]
    );
    assert_eq!(ids(&escrow.query_escrows_by_depositor(bob())), vec![11]);
    assert!(escrow.query_escrows_by_depositor(admin()).is_empty());
}

#[test]
fn snapshot_restores_the_same_escrow() {
    let mut escrow = fresh();
    escrow.set_refund_mode(admin(), RefundMode::DepositorOnly).unwrap();
    lock(&mut escrow, alice(), 5, 500, 10);
    lock(&mut escrow, bob(), 3, 700, 20);
    lock(&mut escrow, alice(), 9, 300, 30);
    lock(&mut escrow, alice(), 1, 300, 40);
    escrow.release_funds(admin(), 9, bob(), DONE).unwrap();
    escrow.refund(bob(), 3, 25, DONE).unwrap();
    escrow.release_funds(admin(), 5, bob(), DONE).unwrap();

    let restored = BountyEscrowContract::restore(
        escrow.config(),
        &escrow.records(),
        &escrow.get_escrow_ids_by_status(EscrowStatus::Released),
        &escrow.get_refund_history(),
    )
    .unwrap();

    assert_eq!(restored.config(), escrow.config());
    assert_eq!(restored.records(), escrow.records());
    assert_eq!(restored.get_aggregate_stats(), escrow.get_aggregate_stats());
    assert_eq!(restored.get_refund_history(), escrow.get_refund_history());
    for status in [EscrowStatus::Locked, EscrowStatus::Released, EscrowStatus::Refunded] {
        assert_eq!(
            restored.get_escrow_ids_by_status(status),
            escrow.get_escrow_ids_by_status(status)
        );
    }
    assert_eq!(restored.get_escrow_ids_by_status(EscrowStatus::Released), vec![9, 5]);
    assert_eq!(ids(&restored.query_escrows_by_amount(300, 500)), vec![9, 1, 5]);
    assert_eq!(ids(&restored.query_escrows_by_depositor(alice())), vec![5, 9, 1]);
    assert_eq!(restored.get_escrow_info(3).unwrap().status, EscrowStatus::Refunded);
}

#[test]
fn snapshot_that_no_run_could_leave_is_refused() {
    let config = Some(Config {
        admin: admin(),
        token: token(),
        refund_mode: RefundMode::AnyoneAfterDeadline,
    });
    let record = |id: u64, amount: i128, status: EscrowStatus| EscrowRecord {
        bounty_id: id,
        depositor: alice(),
        amount,
        deadline: 10,
        status,
        created_at: 0,
    };
    let line = |id: u64, amount: i128, at: u64| RefundHistoryEntry {
        bounty_id: id,
        depositor: alice(),
        amount,
        refunded_at: at,
    };
    let locked = EscrowStatus::Locked;
    let released = EscrowStatus::Released;
    let refunded = EscrowStatus::Refunded;
    let restore = |config: Option<Config>,
                   records: Vec<EscrowRecord>,
                   released: Vec<u64>,
                   history: Vec<RefundHistoryEntry>| {
        BountyEscrowContract::restore(config, &records, &released, &history).is_some()
    };

    assert!(restore(None, vec![], vec![], vec![]));
    assert!(restore(config, vec![], vec![], vec![]));
    assert!(restore(config, vec![record(1, 5, locked)], vec![], vec![]));
    assert!(restore(config, vec![record(1, 5, released)], vec![1], vec![]));
    assert!(restore(config, vec![record(1, 5, refunded)], vec![], vec![line(1, 5, 10)]));

    // Records without a configuration.
    assert!(!restore(None, vec![record(1, 5, locked)], vec![], vec![]));
    // Two records of one bounty.
    assert!(!restore(config, vec![record(1, 5, locked), record(1, 6, locked)], vec![], vec![]));
    // An amount that is not positive.
    assert!(!restore(config, vec![record(1, 0, locked)], vec![], vec![]));
    // Deposits beyond the range of an amount.
    assert!(!restore(
        config,
        vec![record(1, i128::MAX, locked), record(2, 1, locked)],
        vec![],
        vec![]
    ));
    // A released record that the release order does not name, and the reverse.
    assert!(!restore(config, vec![record(1, 5, released)], vec![], vec![]));
    assert!(!restore(config, vec![record(1, 5, locked)], vec![1], vec![]));
    assert!(!restore(config, vec![record(1, 5, released)], vec![1, 1], vec![]));
    assert!(!restore(config, vec![record(1, 5, released)], vec![2], vec![]));
    // A refund log that disagrees with the records.
    assert!(!restore(config, vec![record(1, 5, refunded)], vec![], vec![]));
    assert!(!restore(config, vec![record(1, 5, refunded)], vec![], vec![line(1, 6, 10)]));
    assert!(!restore(config, vec![record(1, 5, refunded)], vec![], vec![line(1, 5, 9)]));
    assert!(!restore(config, vec![record(1, 5, released)], vec![1], vec![line(1, 5, 10)]));
    assert!(!restore(config, vec![record(1, 5, locked)], vec![], vec![line(1, 5, 10)]));
}
