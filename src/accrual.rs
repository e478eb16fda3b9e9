//! Whole-day counting and the reward formula.
use vstd::prelude::*;
use vstd::arithmetic::div_mod::lemma_div_denominator;
use crate::types::StakingError;

verus! {

/// Milliseconds in a day.
pub const MILLIS_PER_DAY: u64 = 86_400_000;

/// `10^n`.
pub open spec fn pow10(n: nat) -> nat
    decreases n,
{
    if n == 0 {
        1
    } else {
        10 * pow10((n - 1) as nat)
    }
}

/// Reward earned per whole day: `floor(principal * weight / (100 * 10^decimals))`.
pub open spec fn reward_per_day(principal: nat, weight: nat, decimals: nat) -> nat {
    ((principal * weight) / (100 * pow10(decimals))) as nat
}

/// Reward owed for `days` whole days; no days earn nothing.
pub open spec fn accrued(principal: nat, weight: nat, decimals: nat, days: nat) -> nat {
    if days == 0 {
        0
    } else {
        reward_per_day(principal, weight, decimals) * days
    }
}

/// What a reward computation returns: the reward where it fits in 64 bits,
/// else `Overflow`.
pub open spec fn accrual_outcome(principal: u64, weight: u32, decimals: u8, days: u64) -> Result<
    u64,
    StakingError,
> {
    let a = accrued(principal as nat, weight as nat, decimals as nat, days as nat);
    if a <= u64::MAX {
        Ok(a as u64)
    } else {
        Err(StakingError::Overflow)
    }
}

/// Whole days from `t0` to `t1` (milliseconds), rounded down.
pub open spec fn days_between(t0: nat, t1: nat) -> nat {
    ((t1 - t0) / (MILLIS_PER_DAY as int)) as nat
}

/// Relies on concordium_std's `Timestamp::duration_since`: the milliseconds
/// from `before` to `now`, or none where `before` is later than `now`.
#[verifier::external_body]
fn duration_since_millis(now: u64, before: u64) -> (r: Option<u64>)
    ensures
        r == (if now >= before { Some((now - before) as u64) } else { None::<u64> }),
{
    concordium_std::Timestamp::from_timestamp_millis(now).duration_since(
        concordium_std::Timestamp::from_timestamp_millis(before),
    ).map(|d| d.millis())
}

/// Relies on concordium_std's `Duration::days`: the whole days in a span of
/// milliseconds.
#[verifier::external_body]
fn whole_days(millis: u64) -> (r: u64)
    ensures
        r == millis / MILLIS_PER_DAY,
{
    concordium_std::Duration::from_millis(millis).days()
}

/// Whole days elapsed from `t0` to `t1`; a clock that ran backwards is an error.
pub fn elapsed_days(t0: u64, t1: u64) -> (r: Result<u64, StakingError>)
    ensures
        t1 < t0 ==> r == Err::<u64, StakingError>(StakingError::DaysOfStakeCouldNotBeCalculated),
        t0 <= t1 ==> r == Ok::<u64, StakingError>(days_between(t0 as nat, t1 as nat) as u64),
{
    match duration_since_millis(t1, t0) {
        Some(ms) => Ok(whole_days(ms)),
        None => Err(StakingError::DaysOfStakeCouldNotBeCalculated),
    }
}

proof fn lemma_pow10_positive(n: nat)
    ensures
        pow10(n) >= 1,
    decreases n,
{
    if n > 0 {
        lemma_pow10_positive((n - 1) as nat);
    }
}

/// The reward for one day on `amount`, or `Overflow` where it does not fit in 64 bits.
pub fn calculate_percent(amount: u64, weight: u32, decimals: u8) -> (r: Result<u64, StakingError>)
    ensures
        reward_per_day(amount as nat, weight as nat, decimals as nat) <= u64::MAX ==> r == Ok::<
            u64,
            StakingError,
        >(reward_per_day(amount as nat, weight as nat, decimals as nat) as u64),
        reward_per_day(amount as nat, weight as nat, decimals as nat) > u64::MAX ==> r == Err::<
            u64,
            StakingError,
        >(StakingError::Overflow),
{
    assert((amount as u128) * (weight as u128) <= u64::MAX as u128 * u32::MAX as u128)
        by (nonlinear_arith);
    let x: u128 = (amount as u128) * (weight as u128);
    let ghost xi: int = x as int;
    assert(xi == amount as int * weight as int);
    let mut q: u128 = x / 100;
    let mut i: u8 = 0;
    // Divide by ten `decimals` times; floor(floor(x / a) / b) == floor(x / (a * b)).
    while i < decimals
        invariant
            i <= decimals,
            xi >= 0,
            q as int == xi / (100 * pow10(i as nat) as int),
        decreases decimals - i,
    {
        proof {
            lemma_pow10_positive(i as nat);
            lemma_div_denominator(xi, 100 * pow10(i as nat) as int, 10);
            assert(100 * pow10((i + 1) as nat) as int == (100 * pow10(i as nat) as int) * 10) by (nonlinear_arith)
                requires pow10((i + 1) as nat) == 10 * pow10(i as nat);
        }
        q = q / 10;
        i = i + 1;
    }
    if q > u64::MAX as u128 {
        Err(StakingError::Overflow)
    } else {
        Ok(q as u64)
    }
}

/// The reward owed on `principal` for `days` whole days, or `Overflow` where
/// it does not fit in 64 bits. No days earn nothing, whatever the rate.
pub fn accrued_reward(principal: u64, weight: u32, decimals: u8, days: u64) -> (r: Result<
    u64,
    StakingError,
>)
    ensures
        r == accrual_outcome(principal, weight, decimals, days),
{
    if days == 0 {
        return Ok(0);
    }
    let per_day = match calculate_percent(principal, weight, decimals) {
        Ok(v) => v,
        Err(e) => {
            proof {
                let p = reward_per_day(principal as nat, weight as nat, decimals as nat);
                assert(p * days >= p) by (nonlinear_arith)
                    requires days >= 1;
            }
            return Err(e);
        },
    };
    assert((per_day as u128) * (days as u128) <= u64::MAX as u128 * u64::MAX as u128)
        by (nonlinear_arith);
    let total: u128 = (per_day as u128) * (days as u128);
    if total > u64::MAX as u128 {
        Err(StakingError::Overflow)
    } else {
        Ok(total as u64)
    }
}

} // verus!
