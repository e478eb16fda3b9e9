//! Plain data types shared by the ledger, the accrual rules and the controller.
use vstd::prelude::*;

verus! {

/// A staker's identity: an Ed25519 public key.
#[derive(Clone, Copy, Debug, PartialEq, Eq)]
pub struct StakerId {
    pub bytes: [u8; 32],
}

/// Byte-wise equality of two 32-byte arrays.
pub fn same_bytes(a: &[u8; 32], b: &[u8; 32]) -> (r: bool)
    ensures
        r == (*a == *b),
{
    let mut i: usize = 0;
    while i < 32
        invariant
            0 <= i <= 32,
            forall|j: int| 0 <= j < i ==> a[j] == b[j],
        decreases 32 - i,
    {
        if a[i] != b[i] {
            return false;
        }
        i = i + 1;
    }
    assert(*a =~= *b);
    true
}

impl StakerId {
    /// The key under which the ledger files this staker.
    pub open spec fn key(&self) -> Seq<u8> {
        self.bytes@
    }

    pub fn same_as(&self, other: &StakerId) -> (r: bool)
        ensures
            r == (self.key() == other.key()),
    {
        let r = same_bytes(&self.bytes, &other.bytes);
        proof {
            if self.key() == other.key() {
                assert(forall|j: int| 0 <= j < 32 ==> self.bytes[j] == self.key()[j]);
                assert(self.bytes =~= other.bytes);
            }
        }
        r
    }
}

/// The address of a deployed contract.
#[derive(Clone, Copy, Debug, PartialEq, Eq, Structural)]
pub struct ContractAddress {
    pub index: u64,
    pub subindex: u64,
}

/// The address of an account: 32 bytes.
#[derive(Clone, Copy, Debug, PartialEq, Eq)]
pub struct AccountAddress {
    pub bytes: [u8; 32],
}

/// A sender or receiver: an account or a contract.
#[derive(Clone, Copy, Debug, PartialEq, Eq)]
pub enum Address {
    Account(AccountAddress),
    Contract(ContractAddress),
}

impl Address {
    pub fn same_as(&self, other: &Address) -> (r: bool)
        ensures
            r == (*self == *other),
    {
        match (self, other) {
            (Address::Account(a), Address::Account(b)) => {
                let r = same_bytes(&a.bytes, &b.bytes);
                proof {
                    if r {
                        assert(*a == *b);
                    }
                }
                r
            },
            (Address::Contract(a), Address::Contract(b)) => a == b,
            _ => false,
        }
    }
}

/// The id of the single token kind that the ledger accepts (an empty token id).
#[derive(Clone, Copy, Debug, PartialEq, Eq, Structural)]
pub struct TokenIdUnit {}

/// One staker's locked principal.
#[derive(Clone, Copy, Debug, PartialEq, Eq, Structural)]
pub struct StakeEntry {
    /// Principal, in minor units of the token.
    pub amount: u64,
    /// Milliseconds since the Unix epoch of the last event that changed the principal.
    pub time_of_stake: u64,
    pub token_id: TokenIdUnit,
}

/// The parameters that a ledger is created with.
#[derive(Clone, Copy, Debug, PartialEq, Eq)]
pub struct InitParam {
    /// The contract address of the token.
    pub token_address: ContractAddress,
    /// The reward rate: a percentage scaled by `10^decimals`.
    pub weight: u32,
    /// The token's fractional precision.
    pub decimals: u8,
    pub admin: Address,
    /// The wallet contract that receives payouts on behalf of stakers.
    pub smart_wallet: ContractAddress,
}

/// An amount waiting to be released at a given time.
#[derive(Clone, Copy, Debug, PartialEq, Eq, Structural)]
pub struct Unbounding {
    pub amount: u64,
    pub unlock_time: u64,
}

/// Per-staker bookkeeping of bonded amounts and pending rewards.
#[derive(Clone, Debug, PartialEq, Eq)]
pub struct StakerInfo {
    pub staked_amount: u64,
    pub last_reward_timestamp: u64,
    pub pending_rewards: u64,
    pub unbonding: Vec<Unbounding>,
    /// Whether the staker has been slashed.
    pub slashed: bool,
}

/// What a committed transition reports.
#[derive(Clone, Copy, Debug, PartialEq, Eq)]
pub enum StakingEvent {
    Staked { staker: StakerId, amount: u64, time: u64 },
    Unstaking { staker: StakerId, amount: u64, time: u64 },
    TokenDeposit { sender: Address, amount: u64 },
    AdminWithdraw { sender: Address, amount: u64 },
}

/// Why a transition was refused; a refused transition changes nothing.
#[derive(Clone, Copy, Debug, PartialEq, Eq, Structural)]
pub enum StakingError {
    StakingNotFound,
    InsufficientFunds,
    InvalidPrice,
    InvalidReleaseTime,
    InvalidStakingState,
    ParseParams,
    TransferError,
    ContractInvokeError,
    OnlyContractCanStake,
    SenderContractAddressIsNotAllowedToStake,
    CannotStakeLessThanAllowAmount,
    SenderIsNotOwner,
    DaysOfStakeCouldNotBeCalculated,
    SenderIsNotAdmin,
    Expired,
    WrongSignature,
    SignatureVerficationFailed,
    CouldNotParseAdditionalData,
    Overflow,
    InsufficientPoolFunds,
}

/// The answer to a reward query.
#[derive(Clone, Copy, Debug, PartialEq, Eq, Structural)]
pub struct RewardResult {
    pub days: u64,
    pub rewards: u64,
    pub amount_staked: u64,
}

/// A withdrawal request.
#[derive(Clone, Copy, Debug, PartialEq, Eq)]
pub struct UnstakeParam {
    pub amount: u64,
    pub staker: StakerId,
}

/// An outbound transfer that the host must carry out after a withdrawal:
/// `amount` of `token_id`, sent by the token contract to `wallet`, tagged with
/// the staker's identity.
#[derive(Clone, Copy, Debug, PartialEq, Eq)]
pub struct Payout {
    pub token_contract: ContractAddress,
    pub token_id: TokenIdUnit,
    pub amount: u64,
    pub wallet: ContractAddress,
    pub staker: StakerId,
}

} // verus!
