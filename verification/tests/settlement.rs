use ore_pool::address::Address;
use ore_pool::aggregator::{Aggregator, Contribution};
use ore_pool::attribution::{build_settlement, AttributionRecord, Settlement};
use ore_pool::error::{OreError, ProgramError};
use ore_pool::ledger::{checked_credit_sum, find_member, Applied, Ledger};
use ore_pool::scheduler::{Action, AttributionLoop, Phase};
use ore_pool::stake::{BoostStatus, StakeCommitter};
use ore_pool::state::{Member, Pool};
use ore_pool::submit::{
    classify, read_amount, read_reply, write_request, LedgerFault, Resolution, RetryPolicy, Step, SubmitOutcome,
    REQUEST_RESERVOIR, REQUEST_SUBMIT,
};

fn key(n: u8) -> Address {
    Address::new([n; 32])
}

fn member(n: u8, balance: u64) -> Member {
    Member { authority: key(n), pool: key(200), balance }
}

fn ledger(reservoir: u64, balances: &[(u8, u64)]) -> Ledger {
    Ledger {
        pool: Pool { authority: key(100), total_members: balances.len() as u64, reservoir, next_epoch: 0 },
        members: balances.iter().map(|(n, b)| member(*n, *b)).collect(),
    }
}

fn settlement(epoch: u64, credits: &[(u8, u64)]) -> Settlement {
    Settlement {
        epoch,
        credits: credits.iter().map(|(n, a)| AttributionRecord { member: key(*n), amount: *a }).collect(),
        debit: credits.iter().map(|(_, a)| *a).sum(),
    }
}

fn policy() -> RetryPolicy {
    RetryPolicy { max_attempts: 5, base_delay_ms: 100, max_delay_ms: 1000 }
}

#[test]
fn settlement_credits_members_and_debits_reservoir() {
    let mut l = ledger(120, &[(1, 5), (2, 0), (3, 7)]);
    let s = settlement(0, &[(1, 20), (2, 40), (3, 60)]);
    assert_eq!(l.apply_settlement(&s), Ok(Applied::Settled));
    assert_eq!(l.balance(&key(1)), 25);
    assert_eq!(l.balance(&key(2)), 40);
    assert_eq!(l.balance(&key(3)), 67);
    assert_eq!(l.balance(&key(9)), 0);
    assert_eq!(l.pool.reservoir, 0);
    assert_eq!(l.pool.next_epoch, 1);
    assert_eq!(l.pool.total_members, 3);
}

#[test]
fn resubmitted_settlement_counts_once() {
    let mut l = ledger(50, &[(1, 0), (2, 0)]);
    let s = settlement(3, &[(1, 10), (2, 5)]);
    assert_eq!(l.apply_settlement(&s), Ok(Applied::Settled));
    let after_first = ledger_copy(&l);
    assert_eq!(l.apply_settlement(&s), Ok(Applied::Duplicate));
    assert_eq!(l.apply_settlement(&s), Ok(Applied::Duplicate));
    assert_eq!(l, after_first);
    assert_eq!(l.balance(&key(1)), 10);
    assert_eq!(l.balance(&key(2)), 5);
    assert_eq!(l.pool.reservoir, 35);
    assert_eq!(l.pool.next_epoch, 4);
}

fn ledger_copy(l: &Ledger) -> Ledger {
    Ledger { pool: l.pool, members: l.members.clone() }
}

#[test]
fn settlement_beyond_reservoir_is_refused_whole() {
    let mut l = ledger(14, &[(1, 0), (2, 0)]);
    let before = ledger_copy(&l);
    let s = settlement(0, &[(1, 10), (2, 5)]);
    assert_eq!(l.apply_settlement(&s), Err(ProgramError::Custom(4)));
    assert_eq!(l.apply_settlement(&s), Err(ProgramError::from(OreError::BusRewardsInsufficient)));
    assert_eq!(l, before);
}

#[test]
fn settlement_for_unknown_member_is_refused_whole() {
    let mut l = ledger(100, &[(1, 0)]);
    let before = ledger_copy(&l);
    let s = settlement(0, &[(1, 10), (2, 5)]);
    assert_eq!(l.apply_settlement(&s), Err(ProgramError::InvalidAccountData));
    assert_eq!(l, before);
}

#[test]
fn settlement_that_overflows_a_balance_is_refused_whole() {
    let mut l = ledger(100, &[(1, 0), (2, u64::MAX - 4)]);
    let before = ledger_copy(&l);
    let s = settlement(0, &[(1, 10), (2, 5)]);
    assert_eq!(l.apply_settlement(&s), Err(ProgramError::ArithmeticOverflow));
    assert_eq!(l, before);
}

#[test]
fn settlement_with_wrong_debit_is_refused() {
    let mut l = ledger(100, &[(1, 0)]);
    let before = ledger_copy(&l);
    let mut s = settlement(0, &[(1, 10)]);
    s.debit = 9;
    assert_eq!(l.apply_settlement(&s), Err(ProgramError::InvalidInstructionData));
    let last = settlement(u64::MAX, &[(1, 10)]);
    assert_eq!(l.apply_settlement(&last), Err(ProgramError::InvalidInstructionData));
    let huge = Settlement {
        epoch: 0,
        credits: vec![
            AttributionRecord { member: key(1), amount: u64::MAX },
            AttributionRecord { member: key(1), amount: 1 },
        ],
        debit: 0,
    };
    assert_eq!(checked_credit_sum(&huge.credits), None);
    assert_eq!(l.apply_settlement(&huge), Err(ProgramError::InvalidInstructionData));
    assert_eq!(l, before);
}

#[test]
fn later_epoch_settles_after_earlier_one() {
    let mut l = ledger(100, &[(1, 0)]);
    assert_eq!(l.apply_settlement(&settlement(2, &[(1, 10)])), Ok(Applied::Settled));
    assert_eq!(l.apply_settlement(&settlement(1, &[(1, 10)])), Ok(Applied::Duplicate));
    assert_eq!(l.apply_settlement(&settlement(5, &[(1, 7)])), Ok(Applied::Settled));
    assert_eq!(l.balance(&key(1)), 17);
    assert_eq!(l.pool.reservoir, 83);
    assert_eq!(l.pool.next_epoch, 6);
}

#[test]
fn find_member_gives_first_account_or_len() {
    let members = vec![member(1, 0), member(2, 0), member(1, 9)];
    assert_eq!(find_member(&members, &key(1)), 0);
    assert_eq!(find_member(&members, &key(2)), 1);
    assert_eq!(find_member(&members, &key(3)), 3);
    assert_eq!(checked_credit_sum(&settlement(0, &[(1, 2), (2, 3)]).credits), Some(5));
}

#[test]
fn faults_are_classified() {
    assert_eq!(classify(Ok(())), SubmitOutcome::Confirmed);
    assert_eq!(classify(Err(LedgerFault::Network)), SubmitOutcome::TransientError);
    assert_eq!(classify(Err(LedgerFault::Timeout)), SubmitOutcome::TransientError);
    assert_eq!(classify(Err(LedgerFault::StaleReference)), SubmitOutcome::TransientError);
    assert_eq!(
        classify(Err(LedgerFault::Rejected(ProgramError::Custom(4)))),
        SubmitOutcome::PermanentError
    );
    assert_eq!(
        classify(Err(LedgerFault::Rejected(ProgramError::InvalidAccountData))),
        SubmitOutcome::PermanentError
    );
}

#[test]
fn requests_carry_kind_length_and_body() {
    assert_eq!(write_request(REQUEST_SUBMIT, &[7, 8, 9]), Some(vec![0, 3, 0, 0, 0, 7, 8, 9]));
    assert_eq!(write_request(REQUEST_RESERVOIR, &[]), Some(vec![1, 0, 0, 0, 0]));
    let body = vec![5u8; 258];
    let request = write_request(REQUEST_SUBMIT, &body).unwrap();
    assert_eq!(&request[..5], &[0, 2, 1, 0, 0]);
    assert_eq!(&request[5..], &body[..]);
}

#[test]
fn replies_are_read() {
    assert_eq!(read_reply(&[0]), Ok(()));
    assert_eq!(read_reply(&[0, 1, 2]), Ok(()));
    assert_eq!(read_reply(&[1]), Err(LedgerFault::StaleReference));
    assert_eq!(read_reply(&[2, 4, 0, 0, 0]), Err(LedgerFault::Rejected(ProgramError::Custom(4))));
    assert_eq!(read_reply(&[2, 1, 1, 0, 0]), Err(LedgerFault::Rejected(ProgramError::Custom(257))));
    assert_eq!(read_reply(&[2]), Err(LedgerFault::Rejected(ProgramError::InvalidInstructionData)));
    assert_eq!(read_reply(&[2, 0, 0]), Err(LedgerFault::Rejected(ProgramError::InvalidInstructionData)));
    assert_eq!(read_reply(&[]), Err(LedgerFault::Network));
    assert_eq!(read_reply(&[3]), Err(LedgerFault::Network));
    assert_eq!(read_amount(&500u64.to_le_bytes()), Ok(500));
    assert_eq!(read_amount(&[1, 2, 3]), Err(LedgerFault::Network));
    assert_eq!(read_amount(&[]), Err(LedgerFault::Network));
    assert_eq!(classify(read_reply(&[2, 4, 0, 0, 0])), SubmitOutcome::PermanentError);
    assert_eq!(classify(read_reply(&[9])), SubmitOutcome::TransientError);
}

#[test]
fn backoff_doubles_up_to_the_cap() {
    let p = policy();
    assert_eq!(p.backoff_delay(1), 100);
    assert_eq!(p.backoff_delay(2), 200);
    assert_eq!(p.backoff_delay(3), 400);
    assert_eq!(p.backoff_delay(4), 800);
    assert_eq!(p.backoff_delay(5), 1000);
    assert_eq!(p.backoff_delay(100), 1000);
    let zero = RetryPolicy { max_attempts: 3, base_delay_ms: 0, max_delay_ms: 10 };
    assert_eq!(zero.backoff_delay(70), 0);
    let wide = RetryPolicy { max_attempts: 3, base_delay_ms: 1, max_delay_ms: u64::MAX };
    assert_eq!(wide.backoff_delay(64), 1u64 << 63);
    assert_eq!(wide.backoff_delay(65), u64::MAX);
    let low = RetryPolicy { max_attempts: 3, base_delay_ms: 50, max_delay_ms: 20 };
    assert_eq!(low.backoff_delay(1), 20);
}

#[test]
fn next_step_retries_transient_failures_only() {
    let p = policy();
    assert_eq!(p.next_step(1, SubmitOutcome::Confirmed), Step::Done(SubmitOutcome::Confirmed));
    assert_eq!(p.next_step(1, SubmitOutcome::PermanentError), Step::Done(SubmitOutcome::PermanentError));
    assert_eq!(p.next_step(1, SubmitOutcome::TransientError), Step::Retry { delay_ms: 100 });
    assert_eq!(p.next_step(4, SubmitOutcome::TransientError), Step::Retry { delay_ms: 800 });
    assert_eq!(p.next_step(5, SubmitOutcome::TransientError), Step::Done(SubmitOutcome::TransientError));
}

#[test]
fn resolve_stops_at_first_final_report() {
    let p = policy();
    let t = SubmitOutcome::TransientError;
    assert_eq!(
        p.resolve(&vec![t, t, SubmitOutcome::Confirmed, t]),
        Resolution { outcome: SubmitOutcome::Confirmed, attempts: 3 }
    );
    assert_eq!(
        p.resolve(&vec![SubmitOutcome::PermanentError, SubmitOutcome::Confirmed]),
        Resolution { outcome: SubmitOutcome::PermanentError, attempts: 1 }
    );
    assert_eq!(p.resolve(&vec![t, t, t, t, t, t, t]), Resolution { outcome: t, attempts: 5 });
    assert_eq!(p.resolve(&vec![t, t]), Resolution { outcome: t, attempts: 2 });
}

#[test]
fn two_transient_failures_then_success_credit_exactly_once() {
    let mut aggregator = Aggregator::new();
    for (n, w) in [(1u8, 10u64), (2, 20), (3, 30)] {
        aggregator.record(Contribution { member: key(n), score: w, timestamp: 0 });
    }
    let mut l = ledger(120, &[(1, 0), (2, 0), (3, 0)]);
    let mut attribution = AttributionLoop::new();
    assert_eq!(attribution.on_tick(&mut aggregator, l.pool.reservoir), Action::Submit);
    let sent = attribution.pending().clone().unwrap();

    // first attempt: the ledger books the settlement, the confirmation is lost
    assert_eq!(l.apply_settlement(&sent), Ok(Applied::Settled));
    let first = classify(Err(LedgerFault::Timeout));
    // second attempt: the ledger is not reached
    let second = classify(Err(LedgerFault::Network));
    // third attempt: the ledger answers
    let third = classify(l.apply_settlement(&sent).map(|_| ()).map_err(LedgerFault::Rejected));
    let resolution = policy().resolve(&vec![first, second, third]);
    assert_eq!(resolution, Resolution { outcome: SubmitOutcome::Confirmed, attempts: 3 });
    assert_eq!(attribution.on_outcome(resolution.outcome), Action::Rest);
    assert_eq!(attribution.current_phase(), Phase::Idle);
    assert!(attribution.pending().is_none());

    assert_eq!(l.balance(&key(1)), 20);
    assert_eq!(l.balance(&key(2)), 40);
    assert_eq!(l.balance(&key(3)), 60);
    assert_eq!(l.pool.reservoir, 0);
}

#[test]
fn retry_resubmits_the_kept_settlement_without_draining() {
    let mut aggregator = Aggregator::new();
    aggregator.record(Contribution { member: key(1), score: 2, timestamp: 0 });
    let mut attribution = AttributionLoop::new();
    assert_eq!(attribution.on_tick(&mut aggregator, 10), Action::Submit);
    let kept = attribution.pending().clone().unwrap();
    assert_eq!(kept, settlement(0, &[(1, 10)]));
    assert_eq!(attribution.current_phase(), Phase::Submitting);

    // a tick while the submission is under way does nothing
    aggregator.record(Contribution { member: key(2), score: 5, timestamp: 0 });
    assert_eq!(attribution.on_tick(&mut aggregator, 99), Action::Rest);
    assert_eq!(aggregator.current_epoch(), 1);
    assert_eq!(aggregator.query(&key(2)), 5);

    assert_eq!(attribution.on_outcome(SubmitOutcome::TransientError), Action::Rest);
    assert_eq!(attribution.current_phase(), Phase::RetryPending);
    assert_eq!(attribution.on_tick(&mut aggregator, 99), Action::Submit);
    assert_eq!(attribution.current_phase(), Phase::Submitting);
    assert_eq!(attribution.pending().clone().unwrap(), kept);
    assert_eq!(aggregator.current_epoch(), 1);
    assert_eq!(aggregator.query(&key(2)), 5);

    assert_eq!(attribution.on_outcome(SubmitOutcome::Confirmed), Action::Rest);
    assert_eq!(attribution.current_phase(), Phase::Idle);
    assert_eq!(attribution.on_tick(&mut aggregator, 99), Action::Submit);
    assert_eq!(attribution.pending().clone().unwrap(), settlement(1, &[(2, 99)]));
}

#[test]
fn refused_settlement_is_held_until_released() {
    let mut aggregator = Aggregator::new();
    aggregator.record(Contribution { member: key(1), score: 2, timestamp: 0 });
    let mut attribution = AttributionLoop::new();
    assert_eq!(attribution.release(), None);
    assert_eq!(attribution.on_tick(&mut aggregator, 10), Action::Submit);
    assert_eq!(attribution.release(), None);
    assert_eq!(attribution.on_outcome(SubmitOutcome::PermanentError), Action::Alert);
    assert_eq!(attribution.current_phase(), Phase::Failed);
    aggregator.record(Contribution { member: key(1), score: 3, timestamp: 0 });
    assert_eq!(attribution.on_tick(&mut aggregator, 10), Action::Alert);
    assert_eq!(attribution.on_outcome(SubmitOutcome::Confirmed), Action::Rest);
    assert_eq!(attribution.current_phase(), Phase::Failed);
    assert_eq!(aggregator.query(&key(1)), 3);
    assert_eq!(attribution.release(), Some(settlement(0, &[(1, 10)])));
    assert_eq!(attribution.current_phase(), Phase::Idle);
    assert!(attribution.pending().is_none());
}

#[test]
fn idle_tick_without_contributions_rests() {
    let mut aggregator = Aggregator::new();
    let mut attribution = AttributionLoop::new();
    assert_eq!(attribution.on_tick(&mut aggregator, 10), Action::Rest);
    assert_eq!(attribution.current_phase(), Phase::Idle);
    assert_eq!(aggregator.current_epoch(), 1);
    assert_eq!(attribution.on_outcome(SubmitOutcome::PermanentError), Action::Rest);
    assert_eq!(attribution.current_phase(), Phase::Idle);
}

#[test]
fn one_boost_failing_leaves_the_other_committed() {
    let mut c = StakeCommitter::new(vec![key(1), key(2), key(3)]);
    assert!(c.is_active());
    assert_eq!(c.len(), 3);
    assert_eq!(c.boost(1), key(2));
    c.on_outcome(0, SubmitOutcome::PermanentError);
    c.on_outcome(1, SubmitOutcome::Confirmed);
    assert_eq!(c.status(0), BoostStatus::Failed);
    assert_eq!(c.status(1), BoostStatus::Committed);
    assert_eq!(c.status(2), BoostStatus::Due);
    assert_eq!(c.failures(), vec![key(1)]);

    let mut d = StakeCommitter::new(vec![key(1), key(2), key(3)]);
    d.on_outcome(1, SubmitOutcome::Confirmed);
    d.on_outcome(0, SubmitOutcome::PermanentError);
    assert_eq!(d.status(0), BoostStatus::Failed);
    assert_eq!(d.status(1), BoostStatus::Committed);

    c.on_outcome(2, SubmitOutcome::TransientError);
    assert_eq!(c.status(2), BoostStatus::RetryPending);
    c.on_tick();
    assert_eq!(c.status(0), BoostStatus::Due);
    assert_eq!(c.status(1), BoostStatus::Due);
    assert_eq!(c.status(2), BoostStatus::Due);
    assert!(c.failures().is_empty());
}

#[test]
fn stake_loop_without_boosts_is_inactive() {
    let c = StakeCommitter::new(Vec::new());
    assert!(!c.is_active());
    assert_eq!(c.len(), 0);
    assert!(c.failures().is_empty());
}

#[test]
fn built_settlement_applies_to_the_ledger() {
    let mut aggregator = Aggregator::new();
    for (n, w) in [(1u8, 1u64), (2, 1), (3, 1)] {
        aggregator.record(Contribution { member: key(n), score: w, timestamp: 0 });
    }
    let mut l = ledger(10, &[(1, 0), (2, 0), (3, 0)]);
    let snapshot = aggregator.drain_and_reset(l.pool.reservoir);
    let s = build_settlement(&snapshot).unwrap();
    assert_eq!(l.apply_settlement(&s), Ok(Applied::Settled));
    assert_eq!(l.balance(&key(1)), 3);
    assert_eq!(l.balance(&key(2)), 3);
    assert_eq!(l.balance(&key(3)), 3);
    assert_eq!(l.pool.reservoir, 1);
}
