use gona_stake::ledger::StakeLedger;
use gona_stake::state::State;
use gona_stake::types::{
    AccountAddress, Address, ContractAddress, StakeEntry, StakerId, StakingError, TokenIdUnit,
};

const KEY_A: StakerId = StakerId { bytes: [7; 32] };
const KEY_B: StakerId = StakerId { bytes: [8; 32] };
const TOKEN_ID: TokenIdUnit = TokenIdUnit {};
const DAY: u64 = 86_400_000;

fn entry(amount: u64, time_of_stake: u64) -> StakeEntry {
    StakeEntry { amount, time_of_stake, token_id: TOKEN_ID }
}

fn empty_state() -> State {
    State::empty(
        ContractAddress { index: 1, subindex: 0 },
        8500,
        6,
        Address::Account(AccountAddress { bytes: [0; 32] }),
        ContractAddress { index: 2, subindex: 0 },
    )
}

#[test]
fn partial_withdrawal_sets_balance_and_keeps_time() {
    let mut ledger = StakeLedger::new();
    ledger.put(KEY_A, entry(10_000, 5));
    ledger.apply_partial_withdrawal(&KEY_A, 1_000);
    assert_eq!(ledger.get(&KEY_A), Some(entry(1_000, 5)));
    ledger.apply_partial_withdrawal(&KEY_A, 999);
    assert_eq!(ledger.get(&KEY_A), None);
}

#[test]
fn upsert_opens_then_merges() {
    let mut ledger = StakeLedger::new();
    assert_eq!(ledger.upsert_on_stake(KEY_A, 50_000_000_000, TOKEN_ID, 0, 8500, 6), Ok(entry(50_000_000_000, 0)));
    assert_eq!(
        ledger.upsert_on_stake(KEY_A, 1_000, TOKEN_ID, 20 * DAY, 8500, 6),
        Ok(entry(50_000_000_000 + 85_000_000 + 1_000, 20 * DAY))
    );
    assert_eq!(ledger.get(&KEY_B), None);
    assert_eq!(
        ledger.upsert_on_stake(KEY_A, 1_000, TOKEN_ID, DAY, 8500, 6),
        Err(StakingError::DaysOfStakeCouldNotBeCalculated)
    );
    assert_eq!(ledger.get(&KEY_A), Some(entry(50_085_001_000, 20 * DAY)));
}

#[test]
fn ledger_pairs_round_trip() {
    let mut ledger = StakeLedger::new();
    ledger.put(KEY_A, entry(2_000, 1));
    ledger.put(KEY_B, entry(3_000, 2));
    ledger.put(KEY_A, entry(4_000, 3));
    let pairs = ledger.pairs();
    assert_eq!(pairs.len(), 2);
    let back = StakeLedger::from_pairs(&pairs);
    assert_eq!(back.get(&KEY_A), Some(entry(4_000, 3)));
    assert_eq!(back.get(&KEY_B), Some(entry(3_000, 2)));
    ledger.remove(&KEY_A);
    assert_eq!(ledger.get(&KEY_A), None);
    assert_eq!(ledger.pairs().len(), 1);
}

#[test]
fn from_pairs_later_pair_wins() {
    let pairs = vec![(KEY_A, entry(2_000, 1)), (KEY_A, entry(5_000, 9))];
    let ledger = StakeLedger::from_pairs(&pairs);
    assert_eq!(ledger.get(&KEY_A), Some(entry(5_000, 9)));
    assert_eq!(ledger.pairs().len(), 1);
}

#[test]
fn pool_deposit_and_reserve() {
    let mut state = empty_state();
    assert_eq!(state.deposit(700), Ok(()));
    assert_eq!(state.reserve_for_payout(701), Err(StakingError::InsufficientPoolFunds));
    assert_eq!(state.reward_volume, 700);
    assert_eq!(state.reserve_for_payout(700), Ok(()));
    assert_eq!(state.reward_volume, 0);
    assert_eq!(state.deposit(u64::MAX), Ok(()));
    assert_eq!(state.deposit(1), Err(StakingError::Overflow));
    assert_eq!(state.reward_volume, u64::MAX);
}

#[test]
fn setters_change_one_field() {
    let mut state = empty_state();
    state.set_paused(true);
    assert!(state.paused);
    state.change_weight(42);
    assert_eq!(state.weight, 42);
    assert_eq!(state.decimals, 6);
}

#[test]
fn identities_compare_by_bytes() {
    assert!(KEY_A.same_as(&StakerId { bytes: [7; 32] }));
    assert!(!KEY_A.same_as(&KEY_B));
    let a = Address::Account(AccountAddress { bytes: [1; 32] });
    let c = Address::Contract(ContractAddress { index: 1, subindex: 0 });
    assert!(a.same_as(&Address::Account(AccountAddress { bytes: [1; 32] })));
    assert!(!a.same_as(&c));
    assert!(c.same_as(&Address::Contract(ContractAddress { index: 1, subindex: 0 })));
    assert!(!c.same_as(&Address::Contract(ContractAddress { index: 1, subindex: 1 })));
}
