use airdrop::canister::Airdrop;
use airdrop::distribution::{DistributionRun, LedgerCall, Phase, Step, MAX_TRANSFER_ATTEMPTS};
use airdrop::payout::{compute_rate, payout_schedule, sum_shares};
use airdrop::types::{AirdropError, Identity};

fn user(n: u8) -> Identity {
    Identity::from_bytes(vec![n, 2, 2])
}

fn ledger() -> Identity {
    Identity::from_bytes(vec![7, 7, 7])
}

fn configured(shares: Vec<(Identity, u64)>) -> Airdrop {
    let mut a = Airdrop::new(Identity::from_bytes(vec![9, 9]));
    assert_eq!(a.set_token_canister_id(true, ledger()), Ok(()));
    assert_eq!(a.add_share_allocations(true, shares), Ok(()));
    a
}

/// Runs a distribution to its end against a ledger that reports `balance`
/// and `fee` and answers each transfer with `transfer`; returns the run's
/// result and every transfer asked for, in order.
fn drive(
    a: &mut Airdrop,
    start: (DistributionRun, Step),
    balance: Result<u64, AirdropError>,
    fee: Result<u64, AirdropError>,
    mut transfer: impl FnMut(&Identity, u64) -> Result<(), AirdropError>,
) -> (Result<(), AirdropError>, Vec<(Vec<u8>, u64)>) {
    let (mut run, mut step) = start;
    let mut transfers = Vec::new();
    loop {
        step = match step {
            Step::Done(r) => {
                assert_eq!(run.phase(), Phase::Finished);
                return (r, transfers);
            }
            Step::Call(LedgerCall::BalanceOf { ledger: l, account }) => {
                assert!(l.same_as(&ledger()));
                assert!(account.same_as(&Identity::from_bytes(vec![9, 9])));
                a.receive_balance(&mut run, balance.clone())
            }
            Step::Call(LedgerCall::Fee { ledger: l }) => {
                assert!(l.same_as(&ledger()));
                a.receive_fee(&mut run, fee.clone())
            }
            Step::Call(LedgerCall::Transfer { ledger: l, to, amount }) => {
                assert!(l.same_as(&ledger()));
                transfers.push((to.as_bytes().clone(), amount));
                let reply = transfer(&to, amount);
                a.receive_transfer(&mut run, reply)
            }
        };
    }
}

#[test]
fn proportional_payout_with_no_fee() {
    let shares = vec![(user(1), 1), (user(2), 3)];
    assert_eq!(compute_rate(&shares, 100, 0), Ok(25));
    let mut a = configured(shares);
    let start = a.distribute(true);
    let (r, transfers) = drive(&mut a, start, Ok(100), Ok(0), |_, _| Ok(()));
    assert_eq!(r, Ok(()));
    assert_eq!(transfers, vec![(vec![1, 2, 2], 25), (vec![2, 2, 2], 75)]);
    assert_eq!(a.get_user_share_allocation(user(1)), None);
    assert_eq!(a.get_user_share_allocation(user(2)), None);
    assert_eq!(a.get_user_token_allocation(user(1)), Some(25));
    assert_eq!(a.get_user_token_allocation(user(2)), Some(75));
    assert_eq!(a.get_tokens_list(0).len(), 2);
    assert_eq!(a.get_interrupted_distributions().len(), 0);
}

#[test]
fn single_recipient_pays_the_rest_after_the_fee() {
    let shares = vec![(user(1), 1)];
    assert_eq!(compute_rate(&shares, 2, 1), Ok(1));
    let mut a = configured(shares);
    let start = a.distribute(true);
    let (r, transfers) = drive(&mut a, start, Ok(2), Ok(1), |_, _| Ok(()));
    assert_eq!(r, Ok(()));
    assert_eq!(transfers, vec![(vec![1, 2, 2], 1)]);
    assert_eq!(a.get_user_token_allocation(user(1)), Some(1));
}

#[test]
fn persistent_failure_is_parked_and_the_run_goes_on() {
    let mut a = configured(vec![(user(1), 1), (user(3), 1), (user(2), 2)]);
    let start = a.distribute(true);
    let (r, transfers) = drive(&mut a, start, Ok(40), Ok(0), |to, _| {
        if to.same_as(&user(3)) {
            Err(AirdropError::TokenCanisterError("bad account".to_string()))
        } else {
            Ok(())
        }
    });
    assert_eq!(r, Ok(()));
    let to_c = transfers.iter().filter(|t| t.0 == vec![3, 2, 2]).count();
    assert_eq!(to_c as u64, MAX_TRANSFER_ATTEMPTS);
    assert_eq!(to_c, 3);
    assert_eq!(a.get_user_share_allocation(user(3)), None);
    assert_eq!(a.get_user_token_allocation(user(3)), None);
    let parked = a.get_interrupted_distributions();
    assert_eq!(parked.len(), 1);
    assert!(parked[0].0.same_as(&user(3)));
    assert_eq!(parked[0].1, 10);
    assert_eq!(a.get_user_token_allocation(user(1)), Some(10));
    assert_eq!(a.get_user_token_allocation(user(2)), Some(20));
    assert_eq!(a.get_shares_list(0).len(), 0);
}

#[test]
fn transfer_that_succeeds_on_the_last_attempt_is_recorded_as_paid() {
    let mut a = configured(vec![(user(1), 2)]);
    let mut failures = 2;
    let start = a.distribute(true);
    let (r, transfers) = drive(&mut a, start, Ok(10), Ok(1), |_, _| {
        if failures > 0 {
            failures -= 1;
            Err(AirdropError::Unknown("busy".to_string()))
        } else {
            Ok(())
        }
    });
    assert_eq!(r, Ok(()));
    assert_eq!(transfers.len(), 3);
    assert_eq!(a.get_user_token_allocation(user(1)), Some(8));
    assert_eq!(a.get_interrupted_distributions().len(), 0);
}

#[test]
fn payouts_stay_within_balance_less_fees() {
    let shares = vec![(user(1), 1), (user(2), 2)];
    let rate = compute_rate(&shares, 100, 3).unwrap();
    assert_eq!(rate, 31);
    let schedule = payout_schedule(&shares, 100, 3, rate);
    let paid: u64 = schedule.iter().map(|e| e.1).sum();
    assert_eq!(paid, 93);
    assert!(paid <= 100 - 2 * 3);
    let exact = vec![(user(1), 1), (user(2), 1)];
    let rate = compute_rate(&exact, 104, 2).unwrap();
    let schedule = payout_schedule(&exact, 104, 2, rate);
    let paid: u64 = schedule.iter().map(|e| e.1).sum();
    assert_eq!(paid, 100);
}

#[test]
fn share_sum_is_exact_for_large_shares() {
    let shares = vec![(user(1), u64::MAX), (user(2), u64::MAX)];
    assert_eq!(sum_shares(&shares), 2 * (u64::MAX as u128));
    assert_eq!(compute_rate(&shares, u64::MAX, 0), Err(AirdropError::ZeroPayoutRate));
}

#[test]
fn plan_errors_in_order() {
    let none: Vec<(Identity, u64)> = Vec::new();
    assert_eq!(compute_rate(&none, 100, 0), Err(AirdropError::EmptyAllocationList));
    let zero = vec![(user(1), 0)];
    assert_eq!(compute_rate(&zero, 100, 0), Err(AirdropError::ZeroShareSum));
    let one = vec![(user(1), 1), (user(2), 1)];
    assert_eq!(compute_rate(&one, 5, 3), Err(AirdropError::InsufficientBalance));
    assert_eq!(compute_rate(&one, 6, 3), Err(AirdropError::ZeroPayoutRate));
    assert_eq!(compute_rate(&one, 7, 3), Err(AirdropError::ZeroPayoutRate));
    assert_eq!(compute_rate(&one, 8, 3), Ok(1));
}

#[test]
fn distribution_refuses_unauthorized_callers_and_unset_ledgers() {
    let mut a = Airdrop::new(Identity::from_bytes(vec![9, 9]));
    assert_eq!(a.add_share_allocations(true, vec![(user(1), 1)]), Ok(()));
    let start = a.distribute(false);
    let (r, t) = drive(&mut a, start, Ok(10), Ok(0), |_, _| Ok(()));
    assert_eq!(r, Err(AirdropError::Unauthorized));
    assert!(t.is_empty());
    let start = a.distribute(true);
    let (r, _) = drive(&mut a, start, Ok(10), Ok(0), |_, _| Ok(()));
    assert_eq!(r, Err(AirdropError::ConfigurationError));
    let start = a.validate_distribute(true);
    let (r, _) = drive(&mut a, start, Ok(10), Ok(0), |_, _| Ok(()));
    assert_eq!(r, Err(AirdropError::ConfigurationError));
    assert_eq!(a.get_user_share_allocation(user(1)), Some(1));
}

#[test]
fn distribution_reports_remote_and_planning_failures() {
    let mut a = configured(vec![(user(1), 1), (user(2), 1)]);
    let start = a.distribute(true);
    let (r, _) = drive(&mut a, start, Err(AirdropError::Unknown("down".to_string())), Ok(0), |_, _| Ok(()));
    assert_eq!(r, Err(AirdropError::Unknown("down".to_string())));
    let start = a.distribute(true);
    let (r, _) = drive(&mut a, start, Ok(10), Err(AirdropError::Unknown("fee".to_string())), |_, _| Ok(()));
    assert_eq!(r, Err(AirdropError::Unknown("fee".to_string())));
    let start = a.distribute(true);
    let (r, t) = drive(&mut a, start, Ok(5), Ok(3), |_, _| Ok(()));
    assert_eq!(r, Err(AirdropError::InsufficientBalance));
    assert!(t.is_empty());
    let start = a.distribute(true);
    let (r, _) = drive(&mut a, start, Ok(7), Ok(3), |_, _| Ok(()));
    assert_eq!(r, Err(AirdropError::ZeroPayoutRate));
    assert_eq!(a.get_shares_list(0).len(), 2);

    let mut empty = configured(Vec::new());
    let start = empty.distribute(true);
    let (r, _) = drive(&mut empty, start, Ok(10), Ok(0), |_, _| Ok(()));
    assert_eq!(r, Err(AirdropError::EmptyAllocationList));
}

#[test]
fn validate_distribute_decides_alike_and_changes_nothing() {
    let mut a = configured(vec![(user(1), 1), (user(2), 3)]);
    let start = a.validate_distribute(true);
    assert!(!start.0.is_paying());
    let (r, t) = drive(&mut a, start, Ok(100), Ok(0), |_, _| Ok(()));
    assert_eq!(r, Ok(()));
    assert!(t.is_empty());
    assert_eq!(a.get_user_share_allocation(user(1)), Some(1));
    assert_eq!(a.get_user_token_allocation(user(1)), None);
    for (balance, fee) in [(5u64, 3u64), (7, 3), (100, 1)] {
        let start = a.validate_distribute(true);
        let (checked, _) = drive(&mut a, start, Ok(balance), Ok(fee), |_, _| Ok(()));
        let mut copy = configured(vec![(user(1), 1), (user(2), 3)]);
        let start = copy.distribute(true);
        let (paid, _) = drive(&mut copy, start, Ok(balance), Ok(fee), |_, _| Ok(()));
        assert_eq!(checked, paid);
    }
    assert_eq!(a.get_shares_list(0).len(), 2);
}
