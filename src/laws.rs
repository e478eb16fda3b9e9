//! Properties that hold across the ledger's operations, proved from their
//! contracts.
use vstd::prelude::*;
use crate::accrual::{accrual_outcome, accrued, reward_per_day};
use crate::ledger::{
    after_withdrawal, compounded_reward, lemma_total_insert, lemma_total_remove, lookup,
    DUST_THRESHOLD,
};
use crate::state::{
    deposit_transition, holdings, stake_transition, unstake_reward,
    unstake_transition, State,
};
use crate::types::{
    Address, Payout, StakeEntry, StakerId, StakingError, StakingEvent, TokenIdUnit,
};

verus! {

/// The reward is fixed by principal, weight, decimals and days alone: two
/// computations on the same inputs agree, and zero days earn zero.
pub proof fn lemma_accrual_deterministic(
    principal: u64,
    weight: u32,
    decimals: u8,
    days: u64,
    r1: Result<u64, StakingError>,
    r2: Result<u64, StakingError>,
)
    requires
        r1 == accrual_outcome(principal, weight, decimals, days),
        r2 == accrual_outcome(principal, weight, decimals, days),
    ensures
        r1 == r2,
        accrual_outcome(principal, weight, decimals, 0) == Ok::<u64, StakingError>(0),
        days > 0 ==> accrued(principal as nat, weight as nat, decimals as nat, days as nat)
            == reward_per_day(principal as nat, weight as nat, decimals as nat) * days,
{
}

/// A withdrawal never takes more from the pool than it holds: the reward it
/// pays is covered, and the pool keeps the difference.
pub proof fn lemma_pool_stays_covered(
    pre: State,
    post: State,
    staker: StakerId,
    requested: u64,
    now: u64,
    r: Result<(Payout, StakingEvent), StakingError>,
)
    requires
        unstake_transition(pre, post, staker, requested, now, r),
    ensures
        match unstake_reward(pre, staker, requested, now) {
            Ok(reward) => reward <= pre.reward_volume && post.reward_volume == pre.reward_volume
                - reward,
            Err(_) => post.reward_volume == pre.reward_volume,
        },
{
}

/// After a partial withdrawal the entry is gone exactly when the balance
/// left is dust; otherwise its amount is that balance.
pub proof fn lemma_partial_withdrawal_outcome(e: StakeEntry, new_balance: u64)
    ensures
        after_withdrawal(e, new_balance).is_none() <==> new_balance < DUST_THRESHOLD,
        after_withdrawal(e, new_balance).is_some() ==> after_withdrawal(
            e,
            new_balance,
        ).unwrap().amount == new_balance,
{
}

/// Funding the pool adds exactly the deposit to what the state holds; a
/// refused deposit changes nothing.
pub proof fn lemma_deposit_conserves(
    pre: State,
    post: State,
    sender: Address,
    from: Address,
    amount: u64,
    r: Result<StakingEvent, StakingError>,
)
    requires
        pre.wf(),
        deposit_transition(pre, post, sender, from, amount, r),
    ensures
        r.is_ok() ==> holdings(post) == holdings(pre) + amount,
        r.is_err() ==> holdings(post) == holdings(pre),
{
}

/// The value that a stake adds to what the state holds: the staked amount,
/// plus the reward that an earlier entry had earned and that is folded into
/// the principal. A refused stake changes nothing.
pub proof fn lemma_stake_accounting(
    pre: State,
    post: State,
    sender: Address,
    staker: StakerId,
    amount: u64,
    token_id: TokenIdUnit,
    now: u64,
    r: Result<StakingEvent, StakingError>,
)
    requires
        pre.wf(),
        stake_transition(pre, post, sender, staker, amount, token_id, now, r),
    ensures
        r.is_ok() ==> holdings(post) == holdings(pre) + amount + match lookup(
            pre.stake_entries@,
            staker.key(),
        ) {
            None => 0,
            Some(e) => compounded_reward(e, now, pre.weight, pre.decimals) as int,
        },
        r.is_err() ==> holdings(post) == holdings(pre),
{
    if r.is_ok() {
        let m = pre.stake_entries@;
        let k = staker.key();
        pre.stake_entries.lemma_finite();
        let e = post.stake_entries@[k];
        assert(post.stake_entries@ == m.insert(k, e));
        lemma_total_insert(m, k, e);
        if m.contains_key(k) {
            lemma_total_remove(m, k);
        } else {
            assert(m.remove(k) =~= m);
        }
    }
}

/// A stake adds exactly the staked amount to what the state holds, where
/// the staker had no entry or one that had earned nothing yet; a refused
/// stake changes nothing.
pub proof fn lemma_stake_conserves(
    pre: State,
    post: State,
    sender: Address,
    staker: StakerId,
    amount: u64,
    token_id: TokenIdUnit,
    now: u64,
    r: Result<StakingEvent, StakingError>,
)
    requires
        pre.wf(),
        stake_transition(pre, post, sender, staker, amount, token_id, now, r),
        match lookup(pre.stake_entries@, staker.key()) {
            None => true,
            Some(e) => compounded_reward(e, now, pre.weight, pre.decimals) == 0,
        },
    ensures
        r.is_ok() ==> holdings(post) == holdings(pre) + amount,
        r.is_err() ==> holdings(post) == holdings(pre),
{
    lemma_stake_accounting(pre, post, sender, staker, amount, token_id, now, r);
}

/// The value that a withdrawal takes out of what the state holds: its
/// payout, plus the balance it drops as dust when it closes the entry. A
/// refused withdrawal changes nothing.
pub proof fn lemma_unstake_accounting(
    pre: State,
    post: State,
    staker: StakerId,
    requested: u64,
    now: u64,
    r: Result<(Payout, StakingEvent), StakingError>,
)
    requires
        pre.wf(),
        unstake_transition(pre, post, staker, requested, now, r),
    ensures
        r.is_ok() ==> {
            let e = pre.stake_entries@[staker.key()];
            holdings(post) == holdings(pre) - r.unwrap().0.amount - match after_withdrawal(
                e,
                (e.amount - requested) as u64,
            ) {
                None => e.amount - requested,
                Some(_) => 0,
            }
        },
        r.is_err() ==> holdings(post) == holdings(pre),
{
    if r.is_ok() {
        let m = pre.stake_entries@;
        let k = staker.key();
        pre.stake_entries.lemma_finite();
        lemma_total_remove(m, k);
        let e = m[k];
        match after_withdrawal(e, (e.amount - requested) as u64) {
            None => {},
            Some(rest) => {
                lemma_total_insert(m, k, rest);
            },
        }
    }
}

/// A withdrawal takes exactly its payout out of what the state holds, where
/// it closes no entry that still held dust; a refused one changes nothing.
pub proof fn lemma_unstake_conserves(
    pre: State,
    post: State,
    staker: StakerId,
    requested: u64,
    now: u64,
    r: Result<(Payout, StakingEvent), StakingError>,
)
    requires
        pre.wf(),
        unstake_transition(pre, post, staker, requested, now, r),
        pre.stake_entries@.contains_key(staker.key()) ==> (pre.stake_entries@[staker.key()].amount
            == requested || pre.stake_entries@[staker.key()].amount - requested >= DUST_THRESHOLD),
    ensures
        r.is_ok() ==> holdings(post) == holdings(pre) - r.unwrap().0.amount,
        r.is_err() ==> holdings(post) == holdings(pre),
{
    lemma_unstake_accounting(pre, post, staker, requested, now, r);
}

} // verus!
