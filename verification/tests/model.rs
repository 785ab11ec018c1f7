use bounty_escrow::{
    AccountId, BountyEscrowContract, Call, Error, EscrowRecord, EscrowStatus, GatewayOutcome,
    RefundHistoryEntry, RefundMode,
};

/// A plain restatement of the rules, kept as simple as possible: a list of
/// records, the order of the releases and the refund log.
struct Reference {
    initialized: bool,
    admin: AccountId,
    mode: RefundMode,
    records: Vec<EscrowRecord>,
    released: Vec<u64>,
    history: Vec<RefundHistoryEntry>,
}

fn account(tag: u8) -> AccountId {
    let mut key = [b'Z'; 56];
    key[7] = tag;
    AccountId::new(key)
}

impl Reference {
    fn find(&self, id: u64) -> Option<usize> {
        self.records.iter().position(|r| r.bounty_id == id)
    }

    fn apply(&mut self, call: &Call) -> Result<(), Error> {
        match *call {
            Call::Init { admin, .. } => {
                if self.initialized {
                    return Err(Error::AlreadyInitialized);
                }
                self.initialized = true;
                self.admin = admin;
                Ok(())
            }
            Call::SetRefundMode { caller, mode } => {
                if !self.initialized {
                    return Err(Error::NotInitialized);
                }
                if caller != self.admin {
                    return Err(Error::Unauthorized);
                }
                self.mode = mode;
                Ok(())
            }
            Call::LockFunds { caller, depositor, bounty_id, amount, deadline, now, outcome } => {
                if !self.initialized {
                    return Err(Error::NotInitialized);
                }
                if caller != depositor {
                    return Err(Error::Unauthorized);
                }
                if self.find(bounty_id).is_some() {
                    return Err(Error::DuplicateBountyId);
                }
                if amount <= 0 {
                    return Err(Error::InvalidAmount);
                }
                if outcome == GatewayOutcome::Failed {
                    return Err(Error::GatewayFailure);
                }
                self.records.push(EscrowRecord {
                    bounty_id,
                    depositor,
                    amount,
                    deadline,
                    status: EscrowStatus::Locked,
                    created_at: now,
                });
                Ok(())
            }
            Call::ReleaseFunds { caller, bounty_id, outcome, .. } => {
                if !self.initialized {
                    return Err(Error::NotInitialized);
                }
                if caller != self.admin {
                    return Err(Error::Unauthorized);
                }
                let p = self.find(bounty_id).ok_or(Error::NotFound)?;
                if self.records[p].status != EscrowStatus::Locked {
                    return Err(Error::InvalidStatus);
                }
                if outcome == GatewayOutcome::Failed {
                    return Err(Error::GatewayFailure);
                }
                self.records[p].status = EscrowStatus::Released;
                self.released.push(bounty_id);
                Ok(())
            }
            Call::Refund { caller, bounty_id, now, outcome } => {
                if !self.initialized {
                    return Err(Error::NotInitialized);
                }
                let p = self.find(bounty_id).ok_or(Error::NotFound)?;
                let record = self.records[p];
                if self.mode == RefundMode::DepositorOnly && caller != record.depositor {
                    return Err(Error::Unauthorized);
                }
                if record.status != EscrowStatus::Locked {
                    return Err(Error::InvalidStatus);
                }
                if now < record.deadline {
                    return Err(Error::DeadlineNotPassed);
                }
                if outcome == GatewayOutcome::Failed {
                    return Err(Error::GatewayFailure);
                }
                self.records[p].status = EscrowStatus::Refunded;
                self.history.push(RefundHistoryEntry {
                    bounty_id,
                    depositor: record.depositor,
                    amount: record.amount,
                    refunded_at: now,
                });
                Ok(())
            }
        }
    }

    fn in_state(&self, status: EscrowStatus) -> Vec<EscrowRecord> {
        let by_id = |id: &u64| self.records[self.find(*id).unwrap()];
        match status {
            EscrowStatus::Locked => {
                self.records.iter().filter(|r| r.status == status).copied().collect()
            }
            EscrowStatus::Released => self.released.iter().map(by_id).collect(),
            EscrowStatus::Refunded => self.history.iter().map(|h| by_id(&h.bounty_id)).collect(),
        }
    }

    fn in_range(&self, key: fn(&EscrowRecord) -> i128, min: i128, max: i128) -> Vec<EscrowRecord> {
        let mut found: Vec<EscrowRecord> =
            self.records.iter().filter(|r| min <= key(r) && key(r) <= max).copied().collect();
        // A stable sort keeps records with equal keys in creation order.
        found.sort_by_key(key);
        found
    }
}

/// A small generator of numbers that gives the same sequence every time.
struct Numbers(u64);

impl Numbers {
    fn next(&mut self, below: u64) -> u64 {
        self.0 = self.0.wrapping_mul(6364136223846793005).wrapping_add(1442695040888963407);
        (self.0 >> 33) % below
    }
}

fn some_call(numbers: &mut Numbers) -> Call {
    let who = |n: &mut Numbers| account(1 + n.next(4) as u8);
    let outcome = |n: &mut Numbers| {
        if n.next(8) == 0 {
            GatewayOutcome::Failed
        } else {
            GatewayOutcome::Completed
        }
    };
    match numbers.next(16) {
        0 => Call::Init { admin: account(1), token: account(100) },
        1 => Call::SetRefundMode {
            caller: who(numbers),
            mode: if numbers.next(2) == 0 {
                RefundMode::AnyoneAfterDeadline
            } else {
                RefundMode::DepositorOnly
            },
        },
        2..=8 => {
            let depositor = who(numbers);
            let caller = if numbers.next(8) == 0 { who(numbers) } else { depositor };
            Call::LockFunds {
                caller,
                depositor,
                bounty_id: numbers.next(40),
                amount: numbers.next(12) as i128 - 1,
                deadline: numbers.next(30),
                now: numbers.next(30),
                outcome: outcome(numbers),
            }
        }
        9..=11 => Call::ReleaseFunds {
            caller: if numbers.next(6) == 0 { who(numbers) } else { account(1) },
            bounty_id: numbers.next(40),
            recipient: who(numbers),
            outcome: outcome(numbers),
        },
        _ => Call::Refund {
            caller: who(numbers),
            bounty_id: numbers.next(40),
            now: numbers.next(40),
            outcome: outcome(numbers),
        },
    }
}

fn compare(escrow: &BountyEscrowContract, reference: &Reference, numbers: &mut Numbers) {
    assert_eq!(escrow.records(), reference.records);
    assert_eq!(escrow.get_escrow_count(), reference.records.len() as u64);
    assert_eq!(escrow.get_refund_history(), reference.history);
    assert_eq!(escrow.config().is_some(), reference.initialized);

    let stats = escrow.get_aggregate_stats();
    let sum = |s: EscrowStatus| -> i128 {
        reference.records.iter().filter(|r| r.status == s).map(|r| r.amount).sum()
    };
    let count = |s: EscrowStatus| reference.records.iter().filter(|r| r.status == s).count() as u64;
    assert_eq!(stats.total_locked, sum(EscrowStatus::Locked));
    assert_eq!(stats.total_released, sum(EscrowStatus::Released));
    assert_eq!(stats.total_refunded, sum(EscrowStatus::Refunded));
    assert_eq!(stats.count_locked, count(EscrowStatus::Locked));
    assert_eq!(stats.count_released, count(EscrowStatus::Released));
    assert_eq!(stats.count_refunded, count(EscrowStatus::Refunded));

    for status in [EscrowStatus::Locked, EscrowStatus::Released, EscrowStatus::Refunded] {
        let expected = reference.in_state(status);
        assert_eq!(escrow.query_escrows_by_status(status), expected);
        assert_eq!(
            escrow.get_escrow_ids_by_status(status),
            expected.iter().map(|r| r.bounty_id).collect::<Vec<_>>()
        );
    }
    for tag in 1..=5u8 {
        let expected: Vec<EscrowRecord> =
            reference.records.iter().filter(|r| r.depositor == account(tag)).copied().collect();
        assert_eq!(escrow.query_escrows_by_depositor(account(tag)), expected);
    }
    for _ in 0..4 {
        let (a, b) = (numbers.next(14) as i128 - 2, numbers.next(14) as i128 - 2);
        assert_eq!(escrow.query_escrows_by_amount(a, b), reference.in_range(|r| r.amount, a, b));
        let (a, b) = (numbers.next(32), numbers.next(32));
        assert_eq!(
            escrow.query_escrows_by_deadline(a, b),
            reference.in_range(|r| r.deadline as i128, a as i128, b as i128)
        );
    }
    for _ in 0..4 {
        let (id, now) = (numbers.next(40), numbers.next(40));
        let expected = reference
            .find(id)
            .map(|p| reference.records[p])
            .map(|r| r.status == EscrowStatus::Locked && now >= r.deadline)
            .unwrap_or(false);
        assert_eq!(escrow.get_refund_eligibility(id, now), expected);
        assert_eq!(
            escrow.get_escrow_info(id),
            reference.find(id).map(|p| reference.records[p]).ok_or(Error::NotFound)
        );
    }
}

#[test]
fn escrow_agrees_with_a_plain_restatement_of_the_rules() {
    for seed in 1..=12u64 {
        let mut numbers = Numbers(seed);
        let mut escrow = BountyEscrowContract::new();
        let mut reference = Reference {
            initialized: false,
            admin: account(0),
            mode: RefundMode::AnyoneAfterDeadline,
            records: Vec::new(),
            released: Vec::new(),
            history: Vec::new(),
        };
        for step in 0..150 {
            let call = if step == 5 {
                Call::Init { admin: account(1), token: account(100) }
            } else {
                some_call(&mut numbers)
            };
            let expected = reference.apply(&call);
            let got = escrow.apply(call).map(|_| ());
            assert_eq!(got, expected);
            compare(&escrow, &reference, &mut numbers);
        }
        assert!(reference.records.len() > 10);
        assert!(!reference.released.is_empty());
        assert!(!reference.history.is_empty());

        let restored = BountyEscrowContract::restore(
            escrow.config(),
            &escrow.records(),
            &escrow.get_escrow_ids_by_status(EscrowStatus::Released),
            &escrow.get_refund_history(),
        )
        .unwrap();
        compare(&restored, &reference, &mut numbers);
    }
}
