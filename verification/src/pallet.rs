//! The engine's persistent state and its administrative operations.
//!
//! Every entry point is a method on [`Pallet`]; the global invariant
//! [`Pallet::inv`] — each pool side keeps `locked <= total`, each delegate
//! ledger keeps `total == active + sum(unlocking)`, keyed stores are
//! duplicate-free, correlation ids stay below the next fresh id — is
//! required and re-established by every operation.

use vstd::prelude::*;
use crate::kv::{KvVec, LedgerStore};
use crate::ledger::{unlocking_sum, StakingLedger, UnlockChunk};
use crate::matching::MatchingLedger;
use crate::rate::{
    fixed_mul_int, fixed_reciprocal, liquid_to_staking_at, staking_to_liquid_at, RATE_ONE,
    RATIO_ONE,
};
use crate::requests::XcmRequests;
use crate::{
    AccountId, Balance, BlockNumber, CurrencyId, DerivativeIndex, EraIndex, Error, QueryId,
    MAX_UNLOCKING_CHUNKS,
};

verus! {

/// Configured constants of the engine, fixed at construction.
pub struct Params {
    /// Minimum accepted stake.
    pub min_stake: Balance,
    /// Minimum accepted unstake.
    pub min_unstake: Balance,
    /// Fee set aside from each stake for remote-call transport.
    pub xcm_fees: Balance,
    /// Eras an unbond takes to mature.
    pub bonding_duration: EraIndex,
    /// Oracle blocks per era.
    pub era_length: BlockNumber,
    /// Minimum active bond to keep the nominator role.
    pub min_nominator_bond: Balance,
    /// Slashing-span count handed to remote withdraw calls.
    pub num_slashing_spans: u32,
    /// Oracle blocks after an era's start at which matching runs.
    pub election_solution_stored_offset: BlockNumber,
    /// The configured delegate indexes, without repetition.
    pub derivative_index_list: Vec<DerivativeIndex>,
    /// The remote account of each delegate index, in the same order.
    pub derivative_accounts: Vec<AccountId>,
    /// Fee ratio of the loans-financed instant unstake.
    pub loans_instant_unstake_fee: Balance,
    /// Fee ratio of the matching-pool fast unstake.
    pub matching_pool_fast_unstake_fee: Balance,
    /// The pool account holding all staked assets.
    pub account_id: AccountId,
    /// The lending collaborator's pool account.
    pub loans_account_id: AccountId,
    /// This chain's own remote account.
    pub sovereign_account_id: AccountId,
    /// Receiver of protocol fees.
    pub protocol_fee_receiver: AccountId,
    /// The base (staking) asset, when configured.
    pub staking_currency: Option<CurrencyId>,
    /// The derivative (liquid) asset, when configured.
    pub liquid_currency: Option<CurrencyId>,
    /// Collateral asset of the lending collaborator.
    pub collateral_currency: CurrencyId,
    /// The native asset used for incentives.
    pub native_currency: CurrencyId,
}

impl Params {
    /// Delegate indexes are unique, each has its account, and fee rates
    /// do not exceed one.
    pub open spec fn wf(self) -> bool {
        &&& forall|i: int, j: int|
            0 <= i < j < self.derivative_index_list@.len()
                ==> #[trigger] self.derivative_index_list@[i]
                != #[trigger] self.derivative_index_list@[j]
        &&& self.derivative_accounts@.len() == self.derivative_index_list@.len()
        &&& self.loans_instant_unstake_fee <= RATE_ONE
        &&& self.matching_pool_fast_unstake_fee <= RATE_ONE
    }
}

/// The engine's entire persistent state.
pub struct Pallet {
    /// Configured constants.
    pub params: Params,
    /// Exchange rate between base asset and derivative token, scaled by
    /// `10^18`.
    pub exchange_rate: Balance,
    /// Commission rate on staking rewards, scaled by `10^18`.
    pub commission_rate: Balance,
    /// Fraction of each stake set aside for reserves, in parts per
    /// million.
    pub reserve_factor: u32,
    /// Reserves accumulated so far.
    pub total_reserves: Balance,
    /// The matching pool.
    pub matching_pool: MatchingLedger,
    /// Per-delegate bonding cap.
    pub staking_ledger_cap: Balance,
    /// Remote operations in flight.
    pub xcm_requests: XcmRequests,
    /// Next correlation id to assign.
    pub next_query_id: QueryId,
    /// Outstanding fast-unstake request per depositor, in derivative
    /// tokens.
    pub fast_unstake_requests: KvVec<Balance>,
    /// Current era index.
    pub current_era: EraIndex,
    /// Oracle height at which the current era started.
    pub era_start_block: BlockNumber,
    /// Amounts owed back to each depositor at future eras.
    pub unlockings: KvVec<Vec<UnlockChunk>>,
    /// One ledger per bonded delegate.
    pub staking_ledgers: LedgerStore,
    /// Delegates whose ledger was already mutated this round.
    pub is_updated: Vec<DerivativeIndex>,
    /// Whether matching already ran in the current era.
    pub is_matched: bool,
    /// Reward paid for driving the era or a ledger forward.
    pub incentive: Balance,
}

impl Pallet {
    /// The per-depositor unlocking lists are bounded and their sums fit a
    /// balance.
    pub open spec fn unlockings_wf(self) -> bool {
        forall|who: AccountId|
            #[trigger] self.unlockings.as_map().dom().contains(who)
                ==> self.unlockings.as_map()[who]@.len() <= MAX_UNLOCKING_CHUNKS && unlocking_sum(
                self.unlockings.as_map()[who]@,
            ) <= u128::MAX
    }

    /// Every stored ledger is well formed and belongs to a configured
    /// delegate.
    pub open spec fn ledgers_wf(self) -> bool {
        forall|i: int|
            0 <= i < self.staking_ledgers.entries@.len() ==> (
            #[trigger] self.staking_ledgers.entries@[i]).1.wf()
                && self.params.derivative_index_list@.contains(
                (self.staking_ledgers.entries@[i]).0,
            )
    }

    /// Global invariant, required and preserved by every operation.
    pub open spec fn inv(self) -> bool {
        &&& self.params.wf()
        &&& self.matching_pool.wf()
        &&& self.xcm_requests.wf()
        &&& forall|k: QueryId|
            #[trigger] self.xcm_requests.as_map().dom().contains(k) ==> k < self.next_query_id
        &&& self.staking_ledgers.wf()
        &&& self.ledgers_wf()
        &&& self.unlockings.wf()
        &&& self.unlockings_wf()
        &&& self.fast_unstake_requests.wf()
        &&& self.reserve_factor <= RATIO_ONE
        &&& self.commission_rate < RATE_ONE
    }

    /// A fresh engine with the given genesis exchange rate and reserve
    /// factor and nothing recorded yet.
    pub fn new(params: Params, exchange_rate: Balance, reserve_factor: u32) -> (r: Self)
        requires
            params.wf(),
            reserve_factor <= RATIO_ONE,
        ensures
            r.inv(),
            r.params == params,
            r.exchange_rate == exchange_rate,
            r.reserve_factor == reserve_factor,
            r.commission_rate == 0,
            r.total_reserves == 0,
            r.matching_pool == (MatchingLedger {
                total_stake_amount: crate::matching::BondingAmounts { total: 0, locked: 0 },
                total_unstake_amount: crate::matching::BondingAmounts { total: 0, locked: 0 },
            }),
            r.staking_ledger_cap == 0,
            r.xcm_requests.as_map() == Map::<QueryId, crate::requests::XcmRequest>::empty(),
            r.next_query_id == 0,
            r.fast_unstake_requests.as_map() == Map::<u64, Balance>::empty(),
            r.current_era == 0,
            r.era_start_block == 0,
            r.unlockings.as_map() == Map::<u64, Vec<UnlockChunk>>::empty(),
            r.staking_ledgers.as_map() == Map::<DerivativeIndex, StakingLedger>::empty(),
            r.is_updated@.len() == 0,
            !r.is_matched,
            r.incentive == 0,
    {
        Pallet {
            params,
            exchange_rate,
            commission_rate: 0,
            reserve_factor,
            total_reserves: 0,
            matching_pool: MatchingLedger::new(),
            staking_ledger_cap: 0,
            xcm_requests: XcmRequests::new(),
            next_query_id: 0,
            fast_unstake_requests: KvVec::new(),
            current_era: 0,
            era_start_block: 0,
            unlockings: KvVec::new(),
            staking_ledgers: LedgerStore::new(),
            is_updated: Vec::new(),
            is_matched: false,
            incentive: 0,
        }
    }

    /// Account holding the pooled staking assets.
    pub fn account_id(&self) -> (r: AccountId)
        ensures
            r == self.params.account_id,
    {
        self.params.account_id
    }

    /// Account of the lending collaborator's pool.
    pub fn loans_account_id(&self) -> (r: AccountId)
        ensures
            r == self.params.loans_account_id,
    {
        self.params.loans_account_id
    }

    /// This chain's own remote account.
    pub fn sovereign_account_id(&self) -> (r: AccountId)
        ensures
            r == self.params.sovereign_account_id,
    {
        self.params.sovereign_account_id
    }

    /// Remote account of a configured delegate, if the index is known.
    pub fn derivative_sovereign_account_id(&self, index: DerivativeIndex) -> (r: Option<AccountId>)
        requires
            self.params.wf(),
        ensures
            r.is_some() <==> self.params.derivative_index_list@.contains(index),
            r matches Some(a) ==> exists|i: int|
                0 <= i < self.params.derivative_index_list@.len()
                    && self.params.derivative_index_list@[i] == index
                    && self.params.derivative_accounts@[i] == a,
    {
        let n = self.params.derivative_index_list.len();
        let mut i: usize = 0;
        while i < n
            invariant
                0 <= i <= n,
                n == self.params.derivative_index_list@.len(),
                self.params.derivative_accounts@.len() == n,
                forall|j: int| 0 <= j < i ==> self.params.derivative_index_list@[j] != index,
            decreases n - i,
        {
            if self.params.derivative_index_list[i] == index {
                return Some(self.params.derivative_accounts[i]);
            }
            i = i + 1;
        }
        None
    }

    /// True when `index` is one of the configured delegates.
    pub fn is_valid_derivative_index(&self, index: DerivativeIndex) -> (r: bool)
        ensures
            r == self.params.derivative_index_list@.contains(index),
    {
        let n = self.params.derivative_index_list.len();
        let mut i: usize = 0;
        while i < n
            invariant
                0 <= i <= n,
                n == self.params.derivative_index_list@.len(),
                forall|j: int| 0 <= j < i ==> self.params.derivative_index_list@[j] != index,
            decreases n - i,
        {
            if self.params.derivative_index_list[i] == index {
                return true;
            }
            i = i + 1;
        }
        false
    }

    /// Era at which an unstake requested now becomes claimable: one full
    /// bonding window past the current era.
    pub open spec fn spec_target_era(self) -> EraIndex {
        if self.current_era + self.params.bonding_duration + 1 <= u32::MAX as int {
            (self.current_era + self.params.bonding_duration + 1) as u32
        } else {
            u32::MAX
        }
    }

    /// Executable twin of [`Pallet::spec_target_era`].
    pub fn target_era(&self) -> (r: EraIndex)
        ensures
            r == self.spec_target_era(),
    {
        if self.params.bonding_duration <= u32::MAX - 1 && self.current_era <= u32::MAX - 1
            - self.params.bonding_duration {
            self.current_era + self.params.bonding_duration + 1
        } else {
            u32::MAX
        }
    }

    /// The configured staking currency, if its decimals are known.
    pub fn get_staking_currency(&self) -> (r: Option<CurrencyId>)
        ensures
            r == self.params.staking_currency,
    {
        self.params.staking_currency
    }

    /// The configured liquid currency, if its decimals are known.
    pub fn get_liquid_currency(&self) -> (r: Option<CurrencyId>)
        ensures
            r == self.params.liquid_currency,
    {
        self.params.liquid_currency
    }

    /// The staking currency, or the error shown to callers.
    pub fn staking_currency(&self) -> (r: Result<CurrencyId, Error>)
        ensures
            self.params.staking_currency matches Some(c) ==> r == Ok::<CurrencyId, Error>(c),
            self.params.staking_currency.is_none() ==> r == Err::<CurrencyId, Error>(
                Error::InvalidStakingCurrency,
            ),
    {
        match self.params.staking_currency {
            Some(c) => Ok(c),
            None => Err(Error::InvalidStakingCurrency),
        }
    }

    /// The liquid currency, or the error shown to callers.
    pub fn liquid_currency(&self) -> (r: Result<CurrencyId, Error>)
        ensures
            self.params.liquid_currency matches Some(c) ==> r == Ok::<CurrencyId, Error>(c),
            self.params.liquid_currency.is_none() ==> r == Err::<CurrencyId, Error>(
                Error::InvalidLiquidCurrency,
            ),
    {
        match self.params.liquid_currency {
            Some(c) => Ok(c),
            None => Err(Error::InvalidLiquidCurrency),
        }
    }

    /// Current exchange rate, scaled by `10^18`.
    pub fn get_exchange_rate(&self) -> (r: Balance)
        ensures
            r == self.exchange_rate,
    {
        self.exchange_rate
    }

    /// Converts a base amount into derivative tokens at the current rate:
    /// multiplication by the rounded reciprocal of the rate.  `None` when
    /// the rate is zero or the result would not fit.
    pub fn staking_to_liquid(&self, amount: Balance) -> (r: Option<Balance>)
        ensures
            self.exchange_rate == 0 ==> r.is_none(),
            self.exchange_rate > 0 && staking_to_liquid_at(self.exchange_rate as int, amount as int)
                <= u128::MAX ==> r == Some(
                staking_to_liquid_at(self.exchange_rate as int, amount as int) as u128,
            ),
            self.exchange_rate > 0 && staking_to_liquid_at(self.exchange_rate as int, amount as int)
                > u128::MAX ==> r.is_none(),
    {
        match fixed_reciprocal(self.exchange_rate) {
            Some(recip) => fixed_mul_int(recip, amount),
            None => None,
        }
    }

    /// Converts derivative tokens into the base amount at the current
    /// rate, rounded down.  `None` when the result would not fit.
    pub fn liquid_to_staking(&self, liquid_amount: Balance) -> (r: Option<Balance>)
        ensures
            liquid_to_staking_at(self.exchange_rate as int, liquid_amount as int) <= u128::MAX ==> r
                == Some(
                liquid_to_staking_at(self.exchange_rate as int, liquid_amount as int) as u128,
            ),
            liquid_to_staking_at(self.exchange_rate as int, liquid_amount as int) > u128::MAX ==> r
                .is_none(),
    {
        fixed_mul_int(self.exchange_rate, liquid_amount)
    }

    /// Global bonding cap: the per-delegate cap times the number of
    /// configured delegates, saturating.
    pub fn get_market_cap(&self) -> (r: Balance)
        ensures
            r as int == if self.staking_ledger_cap * self.params.derivative_index_list@.len()
                <= u128::MAX as int {
                self.staking_ledger_cap * self.params.derivative_index_list@.len()
            } else {
                u128::MAX as int
            },
    {
        let n = self.params.derivative_index_list.len() as u128;
        if n == 0 {
            proof {
                assert(self.staking_ledger_cap * self.params.derivative_index_list@.len() == 0)
                    by (nonlinear_arith)
                    requires
                        self.params.derivative_index_list@.len() == 0,
                ;
            }
            return 0;
        }
        if self.staking_ledger_cap <= u128::MAX / n {
            proof {
                vstd::arithmetic::div_mod::lemma_fundamental_div_mod(u128::MAX as int, n as int);
                assert(self.staking_ledger_cap * n <= (u128::MAX as int / n as int) * n as int)
                    by (nonlinear_arith)
                    requires
                        0 <= self.staking_ledger_cap <= u128::MAX as int / n as int,
                        n > 0,
                ;
            }
            self.staking_ledger_cap * n
        } else {
            proof {
                assert(self.staking_ledger_cap * n > u128::MAX as int) by (nonlinear_arith)
                    requires
                        self.staking_ledger_cap > u128::MAX as int / n as int,
                        n > 0,
                        self.staking_ledger_cap * n >= 0,
                ;
            }
            u128::MAX
        }
    }

    /// Total balance bonded through `index`, zero without a ledger.
    pub fn total_bonded_of(&self, index: DerivativeIndex) -> (r: Balance)
        requires
            self.inv(),
        ensures
            r == if self.staking_ledgers.as_map().dom().contains(index) {
                self.staking_ledgers.as_map()[index].total
            } else {
                0
            },
    {
        match self.staking_ledgers.get(index) {
            Some(l) => l.total,
            None => 0,
        }
    }

    /// Active balance bonded through `index`, zero without a ledger.
    pub fn active_bonded_of(&self, index: DerivativeIndex) -> (r: Balance)
        requires
            self.inv(),
        ensures
            r == if self.staking_ledgers.as_map().dom().contains(index) {
                self.staking_ledgers.as_map()[index].active
            } else {
                0
            },
    {
        match self.staking_ledgers.get(index) {
            Some(l) => l.active,
            None => 0,
        }
    }

    /// Balance of `index` currently on its way out of the active bond.
    pub fn unbonding_of(&self, index: DerivativeIndex) -> (r: Balance)
        requires
            self.inv(),
        ensures
            r as int == if self.staking_ledgers.as_map().dom().contains(index) {
                self.staking_ledgers.as_map()[index].total
                    - self.staking_ledgers.as_map()[index].active
            } else {
                0
            },
    {
        match self.staking_ledgers.get(index) {
            Some(l) => {
                proof {
                    self.lemma_ledger_value_wf(index);
                    crate::ledger::lemma_unlocking_sum_nonneg(
                        self.staking_ledgers.as_map()[index].unlocking@,
                    );
                }
                l.total - l.active
            },
            None => 0,
        }
    }

    /// A stored ledger is well formed and belongs to a configured
    /// delegate.
    pub proof fn lemma_ledger_value_wf(self, index: DerivativeIndex)
        requires
            self.staking_ledgers.wf(),
            self.ledgers_wf(),
            self.staking_ledgers.as_map().dom().contains(index),
        ensures
            self.staking_ledgers.as_map()[index].wf(),
            self.params.derivative_index_list@.contains(index),
    {
        crate::kv::lemma_assoc_dom(self.staking_ledgers.entries@, index);
        let i = choose|i: int|
            0 <= i < self.staking_ledgers.entries@.len() && (
            #[trigger] self.staking_ledgers.entries@[i]).0 == index;
        crate::kv::lemma_assoc_index(self.staking_ledgers.entries@, i);
    }

    /// A stored unlocking list is bounded and its sum fits a balance.
    pub proof fn lemma_unlockings_value_wf(self, who: AccountId)
        requires
            self.unlockings_wf(),
            self.unlockings.as_map().dom().contains(who),
        ensures
            self.unlockings.as_map()[who]@.len() <= MAX_UNLOCKING_CHUNKS,
            unlocking_sum(self.unlockings.as_map()[who]@) <= u128::MAX,
    {
    }
}

impl Pallet {
    /// Saturating addition of balances.
    pub(crate) fn sat_add(a: Balance, b: Balance) -> (r: Balance)
        ensures
            r as int == if a + b <= u128::MAX as int {
                a + b
            } else {
                u128::MAX as int
            },
    {
        if b <= u128::MAX - a {
            a + b
        } else {
            u128::MAX
        }
    }

    /// Saturating subtraction of balances.
    pub(crate) fn sat_sub(a: Balance, b: Balance) -> (r: Balance)
        ensures
            r as int == if a >= b {
                a - b
            } else {
                0
            },
    {
        if a >= b {
            a - b
        } else {
            0
        }
    }

    /// Sum of all delegates' total balances, saturating.
    pub fn get_total_bonded(&self) -> (r: Balance)
        ensures
            r as int == if crate::kv::ledgers_total_sum(self.staking_ledgers.entries@)
                <= u128::MAX as int {
                crate::kv::ledgers_total_sum(self.staking_ledgers.entries@)
            } else {
                u128::MAX as int
            },
    {
        let ghost s = self.staking_ledgers.entries@;
        let n = self.staking_ledgers.entries.len();
        let mut acc: Balance = 0;
        let mut i: usize = 0;
        while i < n
            invariant
                0 <= i <= n,
                n == s.len(),
                self.staking_ledgers.entries@ == s,
                acc as int == if crate::kv::ledgers_total_sum(s.take(i as int)) <= u128::MAX as int {
                    crate::kv::ledgers_total_sum(s.take(i as int))
                } else {
                    u128::MAX as int
                },
            decreases n - i,
        {
            proof {
                crate::kv::lemma_ledgers_sums_take_step(s, i as int);
                crate::kv::lemma_ledgers_sums_nonneg(s.take(i as int));
            }
            acc = Self::sat_add(acc, self.staking_ledgers.entries[i].1.total);
            i = i + 1;
        }
        proof {
            assert(s.take(n as int) =~= s);
        }
        acc
    }

    /// Sum of all delegates' active balances, saturating.
    pub fn get_total_active_bonded(&self) -> (r: Balance)
        ensures
            r as int == if crate::kv::ledgers_active_sum(self.staking_ledgers.entries@)
                <= u128::MAX as int {
                crate::kv::ledgers_active_sum(self.staking_ledgers.entries@)
            } else {
                u128::MAX as int
            },
    {
        let ghost s = self.staking_ledgers.entries@;
        let n = self.staking_ledgers.entries.len();
        let mut acc: Balance = 0;
        let mut i: usize = 0;
        while i < n
            invariant
                0 <= i <= n,
                n == s.len(),
                self.staking_ledgers.entries@ == s,
                acc as int == if crate::kv::ledgers_active_sum(s.take(i as int))
                    <= u128::MAX as int {
                    crate::kv::ledgers_active_sum(s.take(i as int))
                } else {
                    u128::MAX as int
                },
            decreases n - i,
        {
            proof {
                crate::kv::lemma_ledgers_sums_take_step(s, i as int);
                crate::kv::lemma_ledgers_sums_nonneg(s.take(i as int));
            }
            acc = Self::sat_add(acc, self.staking_ledgers.entries[i].1.active);
            i = i + 1;
        }
        proof {
            assert(s.take(n as int) =~= s);
        }
        acc
    }

    /// Sum of every delegate's balance on its way out of the active bond,
    /// saturating.
    pub fn get_total_unbonding(&self) -> (r: Balance)
        requires
            self.inv(),
        ensures
            r as int == if crate::kv::ledgers_total_sum(self.staking_ledgers.entries@)
                - crate::kv::ledgers_active_sum(self.staking_ledgers.entries@)
                <= u128::MAX as int {
                crate::kv::ledgers_total_sum(self.staking_ledgers.entries@)
                    - crate::kv::ledgers_active_sum(self.staking_ledgers.entries@)
            } else {
                u128::MAX as int
            },
    {
        let ghost s = self.staking_ledgers.entries@;
        let n = self.staking_ledgers.entries.len();
        let mut acc: Balance = 0;
        let mut i: usize = 0;
        proof {
            assert forall|j: int| 0 <= j < s.len() implies (#[trigger] s[j]).1.active <= (
            s[j]).1.total by {
                crate::ledger::lemma_unlocking_sum_nonneg((s[j]).1.unlocking@);
            }
        }
        while i < n
            invariant
                0 <= i <= n,
                n == s.len(),
                self.staking_ledgers.entries@ == s,
                self.inv(),
                acc as int == if crate::kv::ledgers_total_sum(s.take(i as int))
                    - crate::kv::ledgers_active_sum(s.take(i as int)) <= u128::MAX as int {
                    crate::kv::ledgers_total_sum(s.take(i as int)) - crate::kv::ledgers_active_sum(
                        s.take(i as int),
                    )
                } else {
                    u128::MAX as int
                },
                forall|j: int|
                    0 <= j < s.len() ==> (#[trigger] s[j]).1.active <= (s[j]).1.total,
            decreases n - i,
        {
            proof {
                crate::kv::lemma_ledgers_sums_take_step(s, i as int);
                crate::kv::lemma_ledgers_sums_nonneg(s.take(i as int));
                crate::kv::lemma_ledgers_sums_nonneg(s.take(i + 1));
                assert(crate::kv::ledgers_active_sum(s.take(i + 1)) <= crate::kv::ledgers_total_sum(
                    s.take(i + 1),
                )) by {
                    lemma_prefix_active_le_total(s, i + 1);
                }
            }
            let entry_total = self.staking_ledgers.entries[i].1.total;
            let entry_active = self.staking_ledgers.entries[i].1.active;
            proof {
                assert((s[i as int]).1.wf());
                crate::ledger::lemma_unlocking_sum_nonneg((s[i as int]).1.unlocking@);
            }
            acc = Self::sat_add(acc, entry_total - entry_active);
            i = i + 1;
        }
        proof {
            assert(s.take(n as int) =~= s);
        }
        acc
    }

    /// Balance of `index` already matured at the current era, zero
    /// without a ledger.
    pub fn unbonded_of(&self, index: DerivativeIndex) -> (r: Balance)
        requires
            self.inv(),
        ensures
            r as int == if self.staking_ledgers.as_map().dom().contains(index) {
                crate::ledger::matured_sum(
                    self.staking_ledgers.as_map()[index].unlocking@,
                    self.current_era,
                )
            } else {
                0
            },
    {
        let pos = self.staking_ledgers.position(index);
        if pos >= self.staking_ledgers.entries.len() {
            return 0;
        }
        proof {
            crate::kv::lemma_assoc_index(self.staking_ledgers.entries@, pos as int);
            self.lemma_ledger_value_wf(index);
        }
        let ledger = &self.staking_ledgers.entries[pos].1;
        let ghost c = ledger.unlocking@;
        let era = self.current_era;
        let n = ledger.unlocking.len();
        let mut acc: Balance = 0;
        let mut i: usize = 0;
        proof {
            crate::ledger::lemma_unlocking_sum_nonneg(c);
        }
        while i < n
            invariant
                0 <= i <= n,
                n == c.len(),
                ledger.unlocking@ == c,
                acc as int == crate::ledger::matured_sum(c.take(i as int), era),
                crate::ledger::matured_sum(c.take(i as int), era) <= crate::ledger::unlocking_sum(c),
                crate::ledger::unlocking_sum(c) <= u128::MAX,
            decreases n - i,
        {
            proof {
                crate::ledger::lemma_matured_sum_take_step(c, era, i as int);
                crate::ledger::lemma_matured_sum_le(c.take(i + 1), era);
                crate::ledger::lemma_unlocking_sum_take_le(c, i + 1);
            }
            let chunk = ledger.unlocking[i];
            if chunk.era <= era {
                acc = acc + chunk.value;
            }
            i = i + 1;
        }
        proof {
            assert(c.take(n as int) =~= c);
        }
        acc
    }

    /// Base asset held by the pool account beyond reserves and stake flow
    /// still waiting to be bonded: what claims can draw from.
    pub fn get_total_unclaimed(&self, pool_balance: Balance) -> (r: Balance)
        ensures
            r as int == {
                let after_reserves = if pool_balance >= self.total_reserves {
                    pool_balance - self.total_reserves
                } else {
                    0
                };
                if after_reserves >= self.matching_pool.total_stake_amount.total {
                    after_reserves - self.matching_pool.total_stake_amount.total
                } else {
                    0
                }
            },
    {
        let after_reserves = Self::sat_sub(pool_balance, self.total_reserves);
        Self::sat_sub(after_reserves, self.matching_pool.total_stake_amount.total)
    }

    /// True when the ledger of `index` was already mutated this round.
    pub fn is_updated(&self, index: DerivativeIndex) -> (r: bool)
        ensures
            r == self.is_updated@.contains(index),
    {
        let n = self.is_updated.len();
        let mut i: usize = 0;
        while i < n
            invariant
                0 <= i <= n,
                n == self.is_updated@.len(),
                forall|j: int| 0 <= j < i ==> self.is_updated@[j] != index,
            decreases n - i,
        {
            if self.is_updated[i] == index {
                return true;
            }
            i = i + 1;
        }
        false
    }

    /// Marks the ledger of `index` as mutated in this round.
    pub(crate) fn mark_updated(&mut self, index: DerivativeIndex)
        ensures
            *final(self) == (Pallet { is_updated: final(self).is_updated, ..*old(self) }),
            final(self).is_updated@ == old(self).is_updated@.push(index),
            forall|j: DerivativeIndex|
                final(self).is_updated@.contains(j) <==> (old(self).is_updated@.contains(j) || j
                    == index),
    {
        self.is_updated.push(index);
        proof {
            let s0 = old(self).is_updated@;
            let s1 = self.is_updated@;
            assert forall|j: DerivativeIndex|
                s1.contains(j) <==> (s0.contains(j) || j == index) by {
                if s0.contains(j) {
                    let i = choose|i: int| 0 <= i < s0.len() && s0[i] == j;
                    assert(s1[i] == j);
                }
                if j == index {
                    assert(s1[s0.len() as int] == j);
                }
                if s1.contains(j) {
                    let i = choose|i: int| 0 <= i < s1.len() && s1[i] == j;
                    if i < s0.len() {
                        assert(s0[i] == j);
                    } else {
                        assert(j == index);
                    }
                }
            }
        }
    }

    /// Ends the block: every per-round update flag is cleared.
    pub fn on_finalize(&mut self)
        requires
            old(self).inv(),
        ensures
            final(self).inv(),
            *final(self) == (Pallet { is_updated: final(self).is_updated, ..*old(self) }),
            final(self).is_updated@.len() == 0,
    {
        self.is_updated = Vec::new();
    }

    /// Sets the fraction of each stake put into reserves; it must lie
    /// strictly between zero and one.
    pub fn update_reserve_factor(&mut self, reserve_factor: u32) -> (r: Result<(), Error>)
        requires
            old(self).inv(),
        ensures
            final(self).inv(),
            0 < reserve_factor < RATIO_ONE ==> r == Ok::<(), Error>(()) && *final(self) == (Pallet {
                reserve_factor,
                ..*old(self)
            }),
            !(0 < reserve_factor < RATIO_ONE) ==> r == Err::<(), Error>(Error::InvalidFactor)
                && *final(self) == *old(self),
    {
        if 0 < reserve_factor && reserve_factor < RATIO_ONE {
            self.reserve_factor = reserve_factor;
            Ok(())
        } else {
            Err(Error::InvalidFactor)
        }
    }

    /// Sets the per-delegate bonding cap; zero is rejected.
    pub fn update_staking_ledger_cap(&mut self, cap: Balance) -> (r: Result<(), Error>)
        requires
            old(self).inv(),
        ensures
            final(self).inv(),
            cap != 0 ==> r == Ok::<(), Error>(()) && *final(self) == (Pallet {
                staking_ledger_cap: cap,
                ..*old(self)
            }),
            cap == 0 ==> r == Err::<(), Error>(Error::InvalidCap) && *final(self) == *old(self),
    {
        if cap != 0 {
            self.staking_ledger_cap = cap;
            Ok(())
        } else {
            Err(Error::InvalidCap)
        }
    }

    /// Sets the commission rate on rewards; it must lie strictly between
    /// zero and one.
    pub fn update_commission_rate(&mut self, commission_rate: Balance) -> (r: Result<(), Error>)
        requires
            old(self).inv(),
        ensures
            final(self).inv(),
            0 < commission_rate < RATE_ONE ==> r == Ok::<(), Error>(()) && *final(self) == (Pallet {
                commission_rate,
                ..*old(self)
            }),
            !(0 < commission_rate < RATE_ONE) ==> r == Err::<(), Error>(
                Error::InvalidCommissionRate,
            ) && *final(self) == *old(self),
    {
        if 0 < commission_rate && commission_rate < RATE_ONE {
            self.commission_rate = commission_rate;
            Ok(())
        } else {
            Err(Error::InvalidCommissionRate)
        }
    }

    /// Sets the incentive paid for driving the era or a ledger forward.
    pub fn update_incentive(&mut self, amount: Balance)
        requires
            old(self).inv(),
        ensures
            final(self).inv(),
            *final(self) == (Pallet { incentive: amount, ..*old(self) }),
    {
        self.incentive = amount;
    }

    /// Forces the era's reference start height.
    pub fn force_set_era_start_block(&mut self, block_number: BlockNumber)
        requires
            old(self).inv(),
        ensures
            final(self).inv(),
            *final(self) == (Pallet { era_start_block: block_number, ..*old(self) }),
    {
        self.era_start_block = block_number;
    }

    /// Forces the era index and reopens matching for it.
    pub fn force_set_current_era(&mut self, era: EraIndex)
        requires
            old(self).inv(),
        ensures
            final(self).inv(),
            *final(self) == (Pallet { current_era: era, is_matched: false, ..*old(self) }),
    {
        self.is_matched = false;
        self.current_era = era;
    }

    /// Releases part of the reserves; the caller transfers the amount to
    /// the receiver once this succeeds.
    pub fn reduce_reserves(&mut self, reduce_amount: Balance) -> (r: Result<(), Error>)
        requires
            old(self).inv(),
        ensures
            final(self).inv(),
            reduce_amount <= old(self).total_reserves ==> r == Ok::<(), Error>(()) && *final(self)
                == (Pallet {
                total_reserves: (old(self).total_reserves - reduce_amount) as u128,
                ..*old(self)
            }),
            reduce_amount > old(self).total_reserves ==> r == Err::<(), Error>(
                Error::ArithmeticUnderflow,
            ) && *final(self) == *old(self),
    {
        if reduce_amount <= self.total_reserves {
            self.total_reserves = self.total_reserves - reduce_amount;
            Ok(())
        } else {
            Err(Error::ArithmeticUnderflow)
        }
    }
}

/// In a store of well-formed ledgers every prefix's active sum stays
/// below its total sum.
proof fn lemma_prefix_active_le_total(s: Seq<(DerivativeIndex, StakingLedger)>, i: int)
    requires
        0 <= i <= s.len(),
        forall|j: int| 0 <= j < s.len() ==> (#[trigger] s[j]).1.active <= (s[j]).1.total,
    ensures
        crate::kv::ledgers_active_sum(s.take(i)) <= crate::kv::ledgers_total_sum(s.take(i)),
    decreases i,
{
    if i > 0 {
        lemma_prefix_active_le_total(s, i - 1);
        crate::kv::lemma_ledgers_sums_take_step(s, i - 1);
    }
}

} // verus!
