//! Accounting engine for a liquid-staking protocol.
//!
//! Users deposit a base (staking) asset and receive a derivative (liquid)
//! token.  The engine nets opposing stake/unstake flows in a matching pool,
//! splits the remaining imbalance across several remote delegate accounts,
//! tracks the asynchronous confirmation of each remote operation, keeps one
//! ledger per delegate, and maintains the exchange rate between the base
//! asset and the derivative token.
//!
//! All persistent state lives in an explicit [`pallet::Pallet`] value; every
//! operation is a method on it.  Token transfers, the remote-call transport,
//! the block-height oracle and storage-proof verification are outside
//! collaborators: their outcomes enter the engine as plain arguments and
//! their instructions leave it as plain effect values.

use vstd::prelude::*;

pub mod rate;
pub mod matching;
pub mod ledger;
pub mod requests;
pub mod kv;
pub mod pallet;
pub mod era;
pub mod bonding;
pub mod staking;
pub mod notify;
pub mod distribution;

verus! {

/// Amount of the base or derivative asset.
pub type Balance = u128;

/// Index of an era on the remote staking system.
pub type EraIndex = u32;

/// Index of one of the configured remote delegate accounts.
pub type DerivativeIndex = u16;

/// Opaque identity of an account, assigned by the surrounding runtime.
pub type AccountId = u64;

/// Block height reported by the relay-chain oracle.
pub type BlockNumber = u64;

/// Correlation id linking a submitted remote operation to its confirmation.
pub type QueryId = u64;

/// Identifier of an asset kind.
pub type CurrencyId = u32;

/// Hard cap on the number of pending unlock chunks per ledger or depositor.
pub const MAX_UNLOCKING_CHUNKS: usize = 32;

/// Which liquidity an unstake draws on.
#[derive(Clone, Copy, Debug, PartialEq, Eq, Structural)]
pub enum UnstakeProvider {
    /// Wait out the remote unbonding cycle.
    RelayChain,
    /// Borrow against collateral from the lending collaborator and exit
    /// at once, for a fee.
    Loans,
    /// Queue for settlement against the matching pool's free stake
    /// liquidity, for a fee.
    MatchingPool,
}

/// Where a delegate's staking rewards are paid on the remote system.
/// Carried through to the transport with each first bond.
#[derive(Clone, Copy, Debug, PartialEq, Eq, Structural)]
pub enum RewardDestination {
    /// Compound rewards into the bonded amount.
    Staked,
    /// Pay rewards to the stash account.
    Stash,
    /// Pay rewards to the controller account.
    Controller,
    /// Pay rewards to a chosen account.
    Account(AccountId),
}

/// Typed failure of an engine operation.  An `Err` never leaves partial
/// state behind: the operation either applies completely or not at all.
#[derive(Clone, Copy, Debug, PartialEq, Eq, Structural)]
pub enum Error {
    /// Exchange rate is zero or a conversion through it overflows.
    InvalidExchangeRate,
    /// The stake was below the configured minimum.
    StakeTooSmall,
    /// The unstake was below the configured minimum.
    UnstakeTooSmall,
    /// No liquid currency is configured.
    InvalidLiquidCurrency,
    /// No staking currency is configured.
    InvalidStakingCurrency,
    /// The delegate index is not in the configured list.
    InvalidDerivativeIndex,
    /// The supplied staking ledger is not acceptable.
    InvalidStakingLedger,
    /// The liquid currency's market cap would be exceeded.
    CapExceeded,
    /// A cap of zero is not allowed.
    InvalidCap,
    /// A factor must be strictly between zero and one.
    InvalidFactor,
    /// No matured unlockings to claim yet.
    NothingToClaim,
    /// The delegate has no ledger yet.
    NotBonded,
    /// The delegate already has a ledger.
    AlreadyBonded,
    /// No room for another unlock chunk.
    NoMoreChunks,
    /// The ledger was already updated in this round.
    StakingLedgerLocked,
    /// Matured unlockings exceed what has been withdrawn so far.
    NotWithdrawn,
    /// The remaining active bond would fall below the nominator minimum.
    InsufficientBond,
    /// The storage proof did not verify.
    InvalidProof,
    /// The depositor has no unlockings at all.
    NoUnlockings,
    /// A commission rate must be strictly between zero and one.
    InvalidCommissionRate,
    /// A balance addition overflowed.
    ArithmeticOverflow,
    /// A balance subtraction underflowed.
    ArithmeticUnderflow,
}

} // verus!
