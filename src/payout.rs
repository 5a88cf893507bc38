use vstd::prelude::*;

use crate::allocation_map::{entries_view, Entries};
use crate::types::{AirdropError, Identity};

verus! {

/// The sum of the amounts of the entries.
pub open spec fn share_sum(s: Entries) -> int
    decreases s.len(),
{
    if s.len() == 0 {
        0
    } else {
        share_sum(s.drop_last()) + s.last().1
    }
}

/// What the transfer fees of a run over `n` recipients cost in all.
pub open spec fn total_fee(n: int, fee: int) -> int {
    n * fee
}

/// The rate per share of a run over `shares` with gross balance `balance`
/// and per-transfer fee `fee`, or the reason the run is refused.
pub open spec fn plan(shares: Entries, balance: u64, fee: u64) -> Result<int, AirdropError> {
    let n = shares.len() as int;
    let sum = share_sum(shares);
    if n == 0 {
        Err(AirdropError::EmptyAllocationList)
    } else if sum == 0 {
        Err(AirdropError::ZeroShareSum)
    } else if total_fee(n, fee as int) > balance {
        Err(AirdropError::InsufficientBalance)
    } else if (balance - total_fee(n, fee as int)) / sum == 0 {
        Err(AirdropError::ZeroPayoutRate)
    } else {
        Ok((balance - total_fee(n, fee as int)) / sum)
    }
}

/// Each participant's payout: the rate times the participant's share.
pub open spec fn payouts(shares: Entries, rate: int) -> Entries {
    shares.map_values(|e: (Seq<u8>, u64)| (e.0, (rate * e.1) as u64))
}

/// The sum of the shares of a prefix grows by the next share.
proof fn lemma_share_sum_step(s: Entries, i: int)
    requires
        0 <= i < s.len(),
    ensures
        share_sum(s.subrange(0, i + 1)) == share_sum(s.subrange(0, i)) + s[i].1,
{
    assert(s.subrange(0, i + 1).drop_last() =~= s.subrange(0, i));
}

/// No share exceeds the sum of all shares, and the sum is at most
/// `len * u64::MAX`.
proof fn lemma_share_sum_bounds(s: Entries)
    ensures
        0 <= share_sum(s) <= s.len() * (u64::MAX as int),
        forall|i: int| 0 <= i < s.len() ==> s[i].1 <= share_sum(s),
    decreases s.len(),
{
    if s.len() > 0 {
        lemma_share_sum_bounds(s.drop_last());
        assert(share_sum(s) <= s.len() * (u64::MAX as int)) by (nonlinear_arith)
            requires
                share_sum(s) == share_sum(s.drop_last()) + s.last().1,
                share_sum(s.drop_last()) <= (s.len() - 1) * (u64::MAX as int),
                s.last().1 <= u64::MAX,
        ;
        assert forall|i: int| 0 <= i < s.len() implies s[i].1 <= share_sum(s) by {
            if i < s.len() - 1 {
                assert(s.drop_last()[i] == s[i]);
            }
        }
    }
}

/// When a rate is found, it is positive and each payout and the total of
/// the payouts fit what the balance leaves after fees.
proof fn lemma_rate_bounds(shares: Entries, balance: u64, fee: u64, rate: int)
    requires
        plan(shares, balance, fee) == Ok::<int, AirdropError>(rate),
    ensures
        rate > 0,
        share_sum(shares) > 0,
        rate * share_sum(shares) <= balance - total_fee(shares.len() as int, fee as int),
        forall|i: int| 0 <= i < shares.len() ==> rate * shares[i].1 <= u64::MAX,
{
    let rest = balance - total_fee(shares.len() as int, fee as int);
    let sum = share_sum(shares);
    lemma_share_sum_bounds(shares);
    assert(rate * sum <= rest) by (nonlinear_arith)
        requires
            rate == rest / sum,
            sum > 0,
            rest >= 0,
    ;
    assert forall|i: int| 0 <= i < shares.len() implies rate * shares[i].1 <= u64::MAX by {
        let x = shares[i].1 as int;
        assert(rate * x <= rate * sum) by (nonlinear_arith)
            requires
                0 <= x <= sum,
                rate > 0,
        ;
    }
}

/// The payouts add up to the rate times the sum of the shares.
proof fn lemma_payout_total(shares: Entries, rate: int)
    requires
        rate >= 0,
        forall|i: int| 0 <= i < shares.len() ==> rate * shares[i].1 <= u64::MAX,
    ensures
        share_sum(payouts(shares, rate)) == rate * share_sum(shares),
    decreases shares.len(),
{
    if shares.len() > 0 {
        let init = shares.drop_last();
        assert forall|i: int| 0 <= i < init.len() implies rate * init[i].1 <= u64::MAX by {
            assert(init[i] == shares[i]);
        }
        lemma_payout_total(init, rate);
        assert(payouts(shares, rate).drop_last() =~= payouts(init, rate));
        let x = shares.last().1 as int;
        assert(rate * share_sum(shares) == rate * share_sum(init) + rate * x) by (nonlinear_arith)
            requires
                share_sum(shares) == share_sum(init) + x,
        ;
    }
}

/// For any shares, balance and fee for which a run is planned, the payouts
/// add up to at most the balance less the fees, and to exactly that amount
/// when the sum of the shares divides it.
pub proof fn lemma_payouts_within_budget(shares: Entries, balance: u64, fee: u64)
    requires
        plan(shares, balance, fee) is Ok,
    ensures
        ({
            let rest = balance - total_fee(shares.len() as int, fee as int);
            let paid = share_sum(payouts(shares, plan(shares, balance, fee)->Ok_0));
            &&& paid <= rest
            &&& (paid == rest <==> rest % share_sum(shares) == 0)
        }),
{
    let rate = plan(shares, balance, fee)->Ok_0;
    let rest = balance - total_fee(shares.len() as int, fee as int);
    let sum = share_sum(shares);
    lemma_rate_bounds(shares, balance, fee, rate);
    lemma_payout_total(shares, rate);
    assert(rate * sum == rest <==> rest % sum == 0) by (nonlinear_arith)
        requires
            rate == rest / sum,
            sum > 0,
            rest >= 0,
    ;
}

/// A run over shares that sum to zero is refused before any division.
pub proof fn lemma_zero_share_sum_refused(shares: Entries, balance: u64, fee: u64)
    requires
        shares.len() > 0,
        share_sum(shares) == 0,
    ensures
        plan(shares, balance, fee) == Err::<int, AirdropError>(AirdropError::ZeroShareSum),
{
}

/// The sum of the shares, computed exactly.
pub fn sum_shares(shares: &Vec<(Identity, u64)>) -> (r: u128)
    ensures
        r == share_sum(entries_view(shares@)),
{
    let ghost s = entries_view(shares@);
    let mut sum: u128 = 0;
    let mut i: usize = 0;
    while i < shares.len()
        invariant
            s == entries_view(shares@),
            0 <= i <= s.len(),
            sum == share_sum(s.subrange(0, i as int)),
            sum <= i * (u64::MAX as int),
        decreases s.len() - i,
    {
        proof {
            lemma_share_sum_step(s, i as int);
            assert(sum + shares@[i as int].1 <= (i + 1) * (u64::MAX as int)) by (nonlinear_arith)
                requires
                    sum <= i * (u64::MAX as int),
                    shares@[i as int].1 <= u64::MAX,
            ;
            assert((i + 1) * (u64::MAX as int) <= u128::MAX) by (nonlinear_arith)
                requires
                    i < usize::MAX,
                    usize::MAX <= u64::MAX,
            ;
        }
        sum = sum + shares[i].1 as u128;
        i = i + 1;
    }
    assert(s.subrange(0, s.len() as int) =~= s);
    sum
}

/// Decides whether a run over `shares` can proceed with gross balance
/// `balance` and per-transfer fee `fee`, and with what rate per share.
pub fn compute_rate(shares: &Vec<(Identity, u64)>, balance: u64, fee: u64) -> (r: Result<
    u64,
    AirdropError,
>)
    ensures
        match r {
            Ok(rate) => plan(entries_view(shares@), balance, fee) == Ok::<int, AirdropError>(
                rate as int,
            ),
            Err(e) => plan(entries_view(shares@), balance, fee) == Err::<int, AirdropError>(e),
        },
{
    let ghost s = entries_view(shares@);
    let n = shares.len();
    if n == 0 {
        return Err(AirdropError::EmptyAllocationList);
    }
    let sum = sum_shares(shares);
    if sum == 0 {
        return Err(AirdropError::ZeroShareSum);
    }
    assert(n as int * fee as int <= u128::MAX) by (nonlinear_arith)
        requires
            n <= usize::MAX,
            usize::MAX <= u64::MAX,
            fee <= u64::MAX,
    ;
    let fees: u128 = n as u128 * fee as u128;
    if fees > balance as u128 {
        return Err(AirdropError::InsufficientBalance);
    }
    let rest: u128 = balance as u128 - fees;
    let rate: u128 = rest / sum;
    if rate == 0 {
        return Err(AirdropError::ZeroPayoutRate);
    }
    assert(rate <= rest) by (nonlinear_arith)
        requires
            rate == rest / sum,
            sum >= 1,
    ;
    Ok(rate as u64)
}

/// The payout schedule of a run at rate `rate`: each participant with the
/// rate times their share, in the order of `shares`.
pub fn payout_schedule(shares: &Vec<(Identity, u64)>, balance: u64, fee: u64, rate: u64) -> (r: Vec<
    (Identity, u64),
>)
    requires
        plan(entries_view(shares@), balance, fee) == Ok::<int, AirdropError>(rate as int),
    ensures
        entries_view(r@) == payouts(entries_view(shares@), rate as int),
{
    let ghost s = entries_view(shares@);
    proof {
        lemma_rate_bounds(s, balance, fee, rate as int);
    }
    let mut r: Vec<(Identity, u64)> = Vec::new();
    let mut i: usize = 0;
    while i < shares.len()
        invariant
            s == entries_view(shares@),
            0 <= i <= s.len(),
            forall|j: int| 0 <= j < s.len() ==> rate * s[j].1 <= u64::MAX,
            entries_view(r@) == payouts(s, rate as int).subrange(0, i as int),
        decreases s.len() - i,
    {
        let ghost old_r = r@;
        assert(rate * s[i as int].1 <= u64::MAX);
        let amount: u64 = rate * shares[i].1;
        r.push((shares[i].0.duplicate(), amount));
        assert(entries_view(r@) =~= entries_view(old_r).push(payouts(s, rate as int)[i as int]));
        i = i + 1;
        assert(entries_view(r@) =~= payouts(s, rate as int).subrange(0, i as int));
    }
    assert(payouts(s, rate as int).subrange(0, s.len() as int) =~= payouts(s, rate as int));
    r
}

} // verus!
