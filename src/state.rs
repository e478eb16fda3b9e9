//! The ledger's whole state and its transitions.
//!
//! Each transition is described by a spec predicate over the state before and
//! after; the executable function ensures it. A refused transition leaves the
//! state as it was.
use vstd::prelude::*;
use crate::accrual::{accrued, accrued_reward, days_between, elapsed_days};
use crate::ledger::{
    after_withdrawal, lookup, merged_entry, total_principal, StakeLedger, DUST_THRESHOLD,
};
use crate::types::{
    Address, ContractAddress, InitParam, Payout, RewardResult, StakeEntry, StakerId, StakingError,
    StakingEvent, TokenIdUnit,
};

verus! {

/// The ledger, the reward pool and the configuration.
pub struct State {
    pub stake_entries: StakeLedger,
    pub decimals: u8,
    /// The token contract whose transfers fund stakes and the pool.
    pub token_address: ContractAddress,
    pub weight: u32,
    /// Recorded but not consulted by any transition.
    pub paused: bool,
    pub admin: Address,
    pub smart_wallet: ContractAddress,
    /// Reward tokens deposited and not yet paid out.
    pub reward_volume: u64,
}

impl State {
    /// The state's invariant: the ledger is well formed and holds no dust.
    pub open spec fn wf(&self) -> bool {
        &&& self.stake_entries.wf()
        &&& forall|k: Seq<u8>|
            #[trigger] self.stake_entries@.contains_key(k) ==> self.stake_entries@[k].amount
                >= DUST_THRESHOLD
    }

    /// A fresh state: no entries and an empty pool.
    pub fn empty(
        token_address: ContractAddress,
        weight: u32,
        decimals: u8,
        admin: Address,
        smart_wallet: ContractAddress,
    ) -> (r: State)
        ensures
            r.wf(),
            r.stake_entries@ == Map::<Seq<u8>, StakeEntry>::empty(),
            r.reward_volume == 0,
            r.decimals == decimals,
            r.token_address == token_address,
            r.weight == weight,
            !r.paused,
            r.admin == admin,
            r.smart_wallet == smart_wallet,
    {
        State {
            stake_entries: StakeLedger::new(),
            decimals,
            token_address,
            weight,
            paused: false,
            admin,
            smart_wallet,
            reward_volume: 0,
        }
    }

    pub fn set_paused(&mut self, paused: bool)
        ensures
            *final(self) == (State { paused, ..*old(self) }),
    {
        self.paused = paused;
    }

    pub fn change_weight(&mut self, weight: u32)
        ensures
            *final(self) == (State { weight, ..*old(self) }),
    {
        self.weight = weight;
    }

    /// Adds `amount` to the pool; a pool that would pass the 64-bit limit
    /// refuses it with `Overflow` and stays as it was.
    pub fn deposit(&mut self, amount: u64) -> (r: Result<(), StakingError>)
        ensures
            old(self).reward_volume + amount > u64::MAX ==> r == Err::<(), StakingError>(
                StakingError::Overflow,
            ) && *final(self) == *old(self),
            old(self).reward_volume + amount <= u64::MAX ==> r == Ok::<(), StakingError>(())
                && *final(self) == (State {
                reward_volume: (old(self).reward_volume + amount) as u64,
                ..*old(self)
            }),
    {
        if amount > u64::MAX - self.reward_volume {
            return Err(StakingError::Overflow);
        }
        self.reward_volume = self.reward_volume + amount;
        Ok(())
    }

    /// Takes a payout of `amount` out of the pool in one step; a pool that
    /// cannot cover it refuses with `InsufficientPoolFunds` and stays as it was.
    pub fn reserve_for_payout(&mut self, amount: u64) -> (r: Result<(), StakingError>)
        ensures
            amount > old(self).reward_volume ==> r == Err::<(), StakingError>(
                StakingError::InsufficientPoolFunds,
            ) && *final(self) == *old(self),
            amount <= old(self).reward_volume ==> r == Ok::<(), StakingError>(()) && *final(self)
                == (State { reward_volume: (old(self).reward_volume - amount) as u64, ..*old(self) }),
    {
        if amount > self.reward_volume {
            return Err(StakingError::InsufficientPoolFunds);
        }
        self.reward_volume = self.reward_volume - amount;
        Ok(())
    }

    /// Takes `amount` out of the pool, stopping at zero.
    pub fn deduct_volume(&mut self, amount: u64)
        ensures
            *final(self) == (State {
                reward_volume: if amount <= old(self).reward_volume {
                    (old(self).reward_volume - amount) as u64
                } else {
                    0
                },
                ..*old(self)
            }),
    {
        self.reward_volume = if amount <= self.reward_volume {
            self.reward_volume - amount
        } else {
            0
        };
    }
}

/// The configuration of `a` and `b` is the same.
pub open spec fn same_config(a: State, b: State) -> bool {
    &&& a.decimals == b.decimals
    &&& a.token_address == b.token_address
    &&& a.weight == b.weight
    &&& a.paused == b.paused
    &&& a.admin == b.admin
    &&& a.smart_wallet == b.smart_wallet
}

/// `a` and `b` hold the same entries, pool and configuration.
pub open spec fn same_state(a: State, b: State) -> bool {
    &&& a.stake_entries@ == b.stake_entries@
    &&& a.reward_volume == b.reward_volume
    &&& same_config(a, b)
}

/// All value the state holds: every principal and the pool.
pub open spec fn holdings(s: State) -> int {
    total_principal(s.stake_entries@) + s.reward_volume
}

/// Why the token contract's hook refuses a transfer from `sender`, if it does.
pub open spec fn hook_refusal(s: State, sender: Address) -> Option<StakingError> {
    match sender {
        Address::Account(_) => Some(StakingError::OnlyContractCanStake),
        Address::Contract(c) => if c != s.token_address {
            Some(StakingError::SenderContractAddressIsNotAllowedToStake)
        } else {
            None
        },
    }
}

/// Why a stake of `amount` from `sender` is refused before the ledger is read.
pub open spec fn stake_refusal(s: State, sender: Address, amount: u64) -> Option<StakingError> {
    match sender {
        Address::Account(_) => Some(StakingError::OnlyContractCanStake),
        Address::Contract(_) => if amount < DUST_THRESHOLD {
            Some(StakingError::CannotStakeLessThanAllowAmount)
        } else {
            hook_refusal(s, sender)
        },
    }
}

/// A stake of `amount` for `staker` at `now`, sent by `sender`, took `pre` to
/// `post` with result `r`.
pub open spec fn stake_transition(
    pre: State,
    post: State,
    sender: Address,
    staker: StakerId,
    amount: u64,
    token_id: TokenIdUnit,
    now: u64,
    r: Result<StakingEvent, StakingError>,
) -> bool {
    match stake_refusal(pre, sender, amount) {
        Some(err) => r == Err::<StakingEvent, StakingError>(err) && same_state(pre, post),
        None => match merged_entry(
            lookup(pre.stake_entries@, staker.key()),
            amount,
            token_id,
            now,
            pre.weight,
            pre.decimals,
        ) {
            Err(err) => r == Err::<StakingEvent, StakingError>(err) && same_state(pre, post),
            Ok(e) => {
                &&& r == Ok::<StakingEvent, StakingError>(
                    StakingEvent::Staked { staker, amount, time: now },
                )
                &&& post.stake_entries@ == pre.stake_entries@.insert(staker.key(), e)
                &&& post.reward_volume == pre.reward_volume
                &&& same_config(pre, post)
            },
        },
    }
}

/// A deposit of `amount` into the pool, reported by `sender` on behalf of
/// `from`, took `pre` to `post` with result `r`.
pub open spec fn deposit_transition(
    pre: State,
    post: State,
    sender: Address,
    from: Address,
    amount: u64,
    r: Result<StakingEvent, StakingError>,
) -> bool {
    match hook_refusal(pre, sender) {
        Some(err) => r == Err::<StakingEvent, StakingError>(err) && same_state(pre, post),
        None => if pre.reward_volume + amount > u64::MAX {
            r == Err::<StakingEvent, StakingError>(StakingError::Overflow) && same_state(pre, post)
        } else {
            &&& r == Ok::<StakingEvent, StakingError>(
                StakingEvent::TokenDeposit { sender: from, amount },
            )
            &&& post.stake_entries@ == pre.stake_entries@
            &&& post.reward_volume == pre.reward_volume + amount
            &&& same_config(pre, post)
        },
    }
}

/// The reward that a withdrawal of `requested` by `staker` at `now` pays from
/// the pool, or why the withdrawal is refused.
pub open spec fn unstake_reward(s: State, staker: StakerId, requested: u64, now: u64) -> Result<
    u64,
    StakingError,
> {
    let m = s.stake_entries@;
    if !m.contains_key(staker.key()) {
        Err(StakingError::StakingNotFound)
    } else {
        let e = m[staker.key()];
        if requested > e.amount {
            Err(StakingError::InsufficientFunds)
        } else if now < e.time_of_stake {
            Err(StakingError::DaysOfStakeCouldNotBeCalculated)
        } else {
            let reward = accrued(
                requested as nat,
                s.weight as nat,
                s.decimals as nat,
                days_between(e.time_of_stake as nat, now as nat),
            );
            if reward > u64::MAX {
                Err(StakingError::Overflow)
            } else if reward > s.reward_volume {
                Err(StakingError::InsufficientPoolFunds)
            } else if requested + reward > u64::MAX {
                Err(StakingError::Overflow)
            } else {
                Ok(reward as u64)
            }
        }
    }
}

/// A withdrawal of `requested` by `staker` at `now` took `pre` to `post` with
/// result `r`: the payout is the withdrawn slice plus its reward, the reward
/// leaves the pool, and the principal keeps the rest unless that is dust.
pub open spec fn unstake_transition(
    pre: State,
    post: State,
    staker: StakerId,
    requested: u64,
    now: u64,
    r: Result<(Payout, StakingEvent), StakingError>,
) -> bool {
    match unstake_reward(pre, staker, requested, now) {
        Err(err) => r == Err::<(Payout, StakingEvent), StakingError>(err) && same_state(pre, post),
        Ok(reward) => {
            let k = staker.key();
            let e = pre.stake_entries@[k];
            &&& r == Ok::<(Payout, StakingEvent), StakingError>(
                (
                    Payout {
                        token_contract: pre.token_address,
                        token_id: e.token_id,
                        amount: (requested + reward) as u64,
                        wallet: pre.smart_wallet,
                        staker,
                    },
                    StakingEvent::Unstaking { staker, amount: requested, time: now },
                ),
            )
            &&& post.reward_volume == pre.reward_volume - reward
            &&& post.stake_entries@ == match after_withdrawal(e, (e.amount - requested) as u64) {
                None => pre.stake_entries@.remove(k),
                Some(rest) => pre.stake_entries@.insert(k, rest),
            }
            &&& same_config(pre, post)
        },
    }
}

/// What a reward query for `staker` at `now` answers.
pub open spec fn reward_query(s: State, staker: StakerId, now: u64) -> Result<
    RewardResult,
    StakingError,
> {
    let m = s.stake_entries@;
    if !m.contains_key(staker.key()) {
        Err(StakingError::StakingNotFound)
    } else {
        let e = m[staker.key()];
        if now < e.time_of_stake {
            Err(StakingError::DaysOfStakeCouldNotBeCalculated)
        } else {
            let days = days_between(e.time_of_stake as nat, now as nat);
            let reward = accrued(e.amount as nat, s.weight as nat, s.decimals as nat, days);
            if reward > u64::MAX {
                Err(StakingError::Overflow)
            } else {
                Ok(RewardResult { days: days as u64, rewards: reward as u64, amount_staked: e.amount })
            }
        }
    }
}

/// A fresh state from the parameters it is created with.
pub fn contract_init(param: &InitParam) -> (r: State)
    ensures
        r.wf(),
        r.stake_entries@ == Map::<Seq<u8>, StakeEntry>::empty(),
        r.reward_volume == 0,
        r.decimals == param.decimals,
        r.token_address == param.token_address,
        r.weight == param.weight,
        !r.paused,
        r.admin == param.admin,
        r.smart_wallet == param.smart_wallet,
{
    State::empty(param.token_address, param.weight, param.decimals, param.admin, param.smart_wallet)
}

/// The token contract's hook for a stake: `amount` of `token_id` arrived for
/// `staker` at `now`. Opens or merges the staker's entry and reports it.
pub fn stake(
    state: &mut State,
    sender: Address,
    staker: StakerId,
    amount: u64,
    token_id: TokenIdUnit,
    now: u64,
) -> (r: Result<StakingEvent, StakingError>)
    requires
        old(state).wf(),
    ensures
        final(state).wf(),
        stake_transition(*old(state), *final(state), sender, staker, amount, token_id, now, r),
{
    let c = match sender {
        Address::Contract(c) => c,
        Address::Account(_) => return Err(StakingError::OnlyContractCanStake),
    };
    if amount < DUST_THRESHOLD {
        return Err(StakingError::CannotStakeLessThanAllowAmount);
    }
    if c != state.token_address {
        return Err(StakingError::SenderContractAddressIsNotAllowedToStake);
    }
    let weight = state.weight;
    let decimals = state.decimals;
    let ghost pre = state.stake_entries@;
    match state.stake_entries.upsert_on_stake(staker, amount, token_id, now, weight, decimals) {
        Ok(_) => {
            assert forall|k: Seq<u8>| #[trigger]
                state.stake_entries@.contains_key(k) implies state.stake_entries@[k].amount
                >= DUST_THRESHOLD by {
                if k != staker.key() {
                    assert(pre.contains_key(k));
                }
            }
            Ok(StakingEvent::Staked { staker, amount, time: now })
        },
        Err(e) => Err(e),
    }
}

/// The token contract's hook for funding the reward pool with `amount`,
/// sent by `from`.
pub fn deposit_cis2_tokens(state: &mut State, sender: Address, from: Address, amount: u64) -> (r:
    Result<StakingEvent, StakingError>)
    requires
        old(state).wf(),
    ensures
        final(state).wf(),
        deposit_transition(*old(state), *final(state), sender, from, amount, r),
{
    match sender {
        Address::Contract(c) => {
            if c != state.token_address {
                return Err(StakingError::SenderContractAddressIsNotAllowedToStake);
            }
        },
        Address::Account(_) => return Err(StakingError::OnlyContractCanStake),
    }
    match state.deposit(amount) {
        Ok(()) => Ok(StakingEvent::TokenDeposit { sender: from, amount }),
        Err(err) => Err(err),
    }
}

/// The entry of `staker`, if any.
pub fn get_stake_info(state: &State, staker: &StakerId) -> (r: Option<StakeEntry>)
    requires
        state.wf(),
    ensures
        r == lookup(state.stake_entries@, staker.key()),
{
    state.stake_entries.get(staker)
}

/// Pauses the ledger; only the admin may.
pub fn set_paused(state: &mut State, sender: &Address) -> (r: Result<(), StakingError>)
    ensures
        *sender != old(state).admin ==> r == Err::<(), StakingError>(StakingError::SenderIsNotAdmin)
            && *final(state) == *old(state),
        *sender == old(state).admin ==> r == Ok::<(), StakingError>(()) && *final(state) == (State {
            paused: true,
            ..*old(state)
        }),
{
    if !sender.same_as(&state.admin) {
        return Err(StakingError::SenderIsNotAdmin);
    }
    state.set_paused(true);
    Ok(())
}

/// Sets the reward rate; only the admin may.
pub fn change_weight(state: &mut State, sender: &Address, weight: u32) -> (r: Result<
    (),
    StakingError,
>)
    ensures
        *sender != old(state).admin ==> r == Err::<(), StakingError>(StakingError::SenderIsNotAdmin)
            && *final(state) == *old(state),
        *sender == old(state).admin ==> r == Ok::<(), StakingError>(()) && *final(state) == (State {
            weight,
            ..*old(state)
        }),
{
    if !sender.same_as(&state.admin) {
        return Err(StakingError::SenderIsNotAdmin);
    }
    state.change_weight(weight);
    Ok(())
}

/// The reward tokens in the pool.
pub fn view_reward(state: &State) -> (r: u64)
    ensures
        r == state.reward_volume,
{
    state.reward_volume
}

/// Days held, reward earned so far and principal of `staker`'s entry at `now`.
pub fn calculate_rewards(state: &State, staker: &StakerId, now: u64) -> (r: Result<
    RewardResult,
    StakingError,
>)
    requires
        state.wf(),
    ensures
        r == reward_query(*state, *staker, now),
{
    let e = match state.stake_entries.get(staker) {
        Some(e) => e,
        None => return Err(StakingError::StakingNotFound),
    };
    let days = match elapsed_days(e.time_of_stake, now) {
        Ok(d) => d,
        Err(err) => return Err(err),
    };
    match accrued_reward(e.amount, state.weight, state.decimals, days) {
        Ok(rewards) => Ok(RewardResult { days, rewards, amount_staked: e.amount }),
        Err(err) => Err(err),
    }
}

/// Withdraws `amount` of `staker`'s principal at `now`. The withdrawn slice
/// earns its reward from the pool; the returned payout (slice plus reward) is
/// for the host to transfer to the staker's wallet.
pub fn unstake(state: &mut State, staker: StakerId, amount: u64, now: u64) -> (r: Result<
    (Payout, StakingEvent),
    StakingError,
>)
    requires
        old(state).wf(),
    ensures
        final(state).wf(),
        unstake_transition(*old(state), *final(state), staker, amount, now, r),
{
    let e = match state.stake_entries.get(&staker) {
        Some(e) => e,
        None => return Err(StakingError::StakingNotFound),
    };
    if amount > e.amount {
        return Err(StakingError::InsufficientFunds);
    }
    let days = match elapsed_days(e.time_of_stake, now) {
        Ok(d) => d,
        Err(err) => return Err(err),
    };
    let reward = match accrued_reward(amount, state.weight, state.decimals, days) {
        Ok(v) => v,
        Err(err) => return Err(err),
    };
    // The pool must cover the reward before the payout is summed; both are
    // tested before anything changes.
    if reward > state.reward_volume {
        return Err(StakingError::InsufficientPoolFunds);
    }
    if reward > u64::MAX - amount {
        return Err(StakingError::Overflow);
    }
    let ghost pre = state.stake_entries@;
    match state.reserve_for_payout(reward) {
        Ok(()) => {},
        Err(err) => return Err(err),
    }
    state.stake_entries.apply_partial_withdrawal(&staker, e.amount - amount);
    assert forall|k: Seq<u8>| #[trigger]
        state.stake_entries@.contains_key(k) implies state.stake_entries@[k].amount
        >= DUST_THRESHOLD by {
        if k != staker.key() {
            assert(pre.contains_key(k));
        }
    }
    let payout = Payout {
        token_contract: state.token_address,
        token_id: e.token_id,
        amount: amount + reward,
        wallet: state.smart_wallet,
        staker,
    };
    Ok((payout, StakingEvent::Unstaking { staker, amount, time: now }))
}

} // verus!
