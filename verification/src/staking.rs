//! User-facing stake and unstake flow.
//!
//! Staking mints derivative tokens against the current exchange rate and
//! feeds the matching pool's stake side; unstaking schedules an unlock
//! chunk one bonding window ahead and feeds the unstake side, or queues a
//! fast-unstake request to be settled against uncommitted pool liquidity.
//! Token transfers themselves are the surrounding runtime's work: each
//! operation returns the transfers it has decided as an effect value.

use vstd::prelude::*;
use crate::ledger::{unlocking_sum, UnlockChunk};
use crate::pallet::Pallet;
use crate::rate::{
    liquid_to_staking_at, mul_rate_floor, ratio_mul_floor, ratio_mul_floor_exec,
    staking_to_liquid_at, RATIO_ONE,
};
use crate::{AccountId, Balance, Error, UnstakeProvider, MAX_UNLOCKING_CHUNKS};

verus! {

/// Asset movements an accepted stake asks the runtime to perform.
#[derive(Clone, Copy, Debug, PartialEq, Eq, Structural)]
pub struct StakeEffect {
    /// Base asset to move from the depositor into the pool account.
    pub transfer_to_pool: Balance,
    /// Base asset handed to the remote-call transport as fees.
    pub xcm_fee: Balance,
    /// Part of the stake set aside as reserves (stays in the pool
    /// account).
    pub reserves_added: Balance,
    /// Derivative tokens to mint to the depositor.
    pub liquid_minted: Balance,
}

/// Asset movements an accepted unstake asks the runtime to perform.
#[derive(Clone, Copy, Debug, PartialEq, Eq, Structural)]
pub enum UnstakeEffect {
    /// A fast-unstake request was queued; nothing moves yet.
    Queued,
    /// An unlock chunk was scheduled: burn the derivative tokens.
    Scheduled { burn_liquid: Balance },
    /// Loans path: burn the derivative tokens, post `mint_collateral` of
    /// collateral, borrow `borrow_amount` of base asset and pay it out
    /// to the depositor at once.
    LoansSettled { burn_liquid: Balance, mint_collateral: Balance, borrow_amount: Balance },
}

/// Exact sum of a bounded chunk list.
fn chunks_sum(v: &Vec<UnlockChunk>) -> (r: Balance)
    requires
        unlocking_sum(v@) <= u128::MAX,
    ensures
        r as int == unlocking_sum(v@),
{
    let ghost s = v@;
    proof {
        crate::ledger::lemma_unlocking_sum_nonneg(s);
    }
    let n = v.len();
    let mut acc: Balance = 0;
    let mut i: usize = 0;
    while i < n
        invariant
            0 <= i <= n,
            n == s.len(),
            v@ == s,
            unlocking_sum(s) <= u128::MAX,
            acc as int == unlocking_sum(s.take(i as int)),
        decreases n - i,
    {
        proof {
            crate::ledger::lemma_unlocking_sum_take_step(s, i as int);
            crate::ledger::lemma_unlocking_sum_take_le(s, i + 1);
            crate::ledger::lemma_unlocking_sum_nonneg(s.take(i + 1));
            crate::ledger::lemma_unlocking_sum_nonneg(s.take(i as int));
        }
        acc = acc + v[i].value;
        i = i + 1;
    }
    proof {
        assert(s.take(n as int) =~= s);
    }
    acc
}

impl Pallet {
    /// Accepts a deposit of `amount` base asset: sets transport fees and
    /// reserves aside, mints derivative tokens for the remainder at the
    /// current rate, and records the remainder in the pool's stake side.
    pub fn stake(&mut self, who: AccountId, amount: Balance) -> (r: Result<StakeEffect, Error>)
        requires
            old(self).inv(),
        ensures
            final(self).inv(),
            r.is_err() ==> *final(self) == *old(self),
            ({
                let reserves = ratio_mul_floor(old(self).reserve_factor as int, amount as int);
                let a1 = amount - old(self).params.xcm_fees;
                let a2 = a1 - reserves;
                let rate = old(self).exchange_rate as int;
                let liquid = staking_to_liquid_at(rate, a2);
                let bonded = if crate::kv::ledgers_total_sum(old(self).staking_ledgers.entries@)
                    <= u128::MAX as int {
                    crate::kv::ledgers_total_sum(old(self).staking_ledgers.entries@)
                } else {
                    u128::MAX as int
                };
                let cap = if old(self).staking_ledger_cap * old(
                    self,
                ).params.derivative_index_list@.len() <= u128::MAX as int {
                    old(self).staking_ledger_cap * old(self).params.derivative_index_list@.len()
                } else {
                    u128::MAX as int
                };
                let reach = if bonded + a2 <= u128::MAX as int {
                    bonded + a2
                } else {
                    u128::MAX as int
                };
                &&& amount < old(self).params.min_stake ==> r == Err::<StakeEffect, Error>(
                    Error::StakeTooSmall,
                )
                &&& amount >= old(self).params.min_stake && a1 < 0 ==> r == Err::<
                    StakeEffect,
                    Error,
                >(Error::ArithmeticUnderflow)
                &&& amount >= old(self).params.min_stake && a1 >= 0 && old(
                    self,
                ).params.staking_currency.is_none() ==> r == Err::<StakeEffect, Error>(
                    Error::InvalidStakingCurrency,
                )
                &&& amount >= old(self).params.min_stake && a1 >= 0 && old(
                    self,
                ).params.staking_currency.is_some() && a2 < 0 ==> r == Err::<StakeEffect, Error>(
                    Error::ArithmeticUnderflow,
                )
                &&& amount >= old(self).params.min_stake && a1 >= 0 && old(
                    self,
                ).params.staking_currency.is_some() && a2 >= 0 && (rate == 0 || liquid
                    > u128::MAX as int) ==> r == Err::<StakeEffect, Error>(
                    Error::InvalidExchangeRate,
                )
                &&& amount >= old(self).params.min_stake && a1 >= 0 && old(
                    self,
                ).params.staking_currency.is_some() && a2 >= 0 && rate > 0 && liquid
                    <= u128::MAX as int && old(self).params.liquid_currency.is_none() ==> r
                    == Err::<StakeEffect, Error>(Error::InvalidLiquidCurrency)
                &&& amount >= old(self).params.min_stake && a1 >= 0 && old(
                    self,
                ).params.staking_currency.is_some() && a2 >= 0 && rate > 0 && liquid
                    <= u128::MAX as int && old(self).params.liquid_currency.is_some() && reach
                    > cap ==> r == Err::<StakeEffect, Error>(Error::CapExceeded)
                &&& amount >= old(self).params.min_stake && a1 >= 0 && old(
                    self,
                ).params.staking_currency.is_some() && a2 >= 0 && rate > 0 && liquid
                    <= u128::MAX as int && old(self).params.liquid_currency.is_some() && reach
                    <= cap && (old(self).matching_pool.total_stake_amount.total + a2
                    > u128::MAX as int || old(self).total_reserves + reserves > u128::MAX as int)
                    ==> r == Err::<StakeEffect, Error>(Error::ArithmeticOverflow)
                &&& amount >= old(self).params.min_stake && a1 >= 0 && old(
                    self,
                ).params.staking_currency.is_some() && a2 >= 0 && rate > 0 && liquid
                    <= u128::MAX as int && old(self).params.liquid_currency.is_some() && reach
                    <= cap && old(self).matching_pool.total_stake_amount.total + a2
                    <= u128::MAX as int && old(self).total_reserves + reserves <= u128::MAX as int
                    ==> r == Ok::<StakeEffect, Error>(
                    StakeEffect {
                        transfer_to_pool: a1 as u128,
                        xcm_fee: old(self).params.xcm_fees,
                        reserves_added: reserves as u128,
                        liquid_minted: liquid as u128,
                    },
                ) && *final(self) == (Pallet {
                    matching_pool: (crate::matching::MatchingLedger {
                        total_stake_amount: (crate::matching::BondingAmounts {
                            total: (old(self).matching_pool.total_stake_amount.total + a2) as u128,
                            locked: old(self).matching_pool.total_stake_amount.locked,
                        }),
                        total_unstake_amount: old(self).matching_pool.total_unstake_amount,
                    }),
                    total_reserves: (old(self).total_reserves + reserves) as u128,
                    ..*old(self)
                })
            }),
    {
        if amount < self.params.min_stake {
            return Err(Error::StakeTooSmall);
        }
        let reserves = ratio_mul_floor_exec(self.reserve_factor, amount);
        proof {
            crate::rate::lemma_ratio_mul_floor_le(self.reserve_factor as int, amount as int);
        }
        if amount < self.params.xcm_fees {
            return Err(Error::ArithmeticUnderflow);
        }
        let a1 = amount - self.params.xcm_fees;
        if self.params.staking_currency.is_none() {
            return Err(Error::InvalidStakingCurrency);
        }
        if a1 < reserves {
            return Err(Error::ArithmeticUnderflow);
        }
        let a2 = a1 - reserves;
        let liquid = match self.staking_to_liquid(a2) {
            Some(l) => l,
            None => {
                return Err(Error::InvalidExchangeRate);
            },
        };
        if self.params.liquid_currency.is_none() {
            return Err(Error::InvalidLiquidCurrency);
        }
        self.ensure_market_cap(a2)?;
        if a2 > u128::MAX - self.matching_pool.total_stake_amount.total {
            return Err(Error::ArithmeticOverflow);
        }
        if reserves > u128::MAX - self.total_reserves {
            return Err(Error::ArithmeticOverflow);
        }
        let pool_res = self.matching_pool.add_stake_amount(a2);
        proof {
            assert(pool_res.is_ok());
        }
        self.total_reserves = self.total_reserves + reserves;
        let _ = who;
        Ok(
            StakeEffect {
                transfer_to_pool: a1,
                xcm_fee: self.params.xcm_fees,
                reserves_added: reserves,
                liquid_minted: liquid,
            },
        )
    }

    /// Shrinks a pending fast-unstake request by `amount`, clamped to the
    /// depositor's current derivative balance and to zero.
    pub fn cancel_unstake(&mut self, who: AccountId, amount: Balance, liquid_balance: Balance)
        requires
            old(self).inv(),
        ensures
            final(self).inv(),
            ({
                let current = if old(self).fast_unstake_requests.as_map().dom().contains(who) {
                    old(self).fast_unstake_requests.as_map()[who] as int
                } else {
                    0
                };
                let capped = if current <= liquid_balance {
                    current
                } else {
                    liquid_balance as int
                };
                let remaining = if capped >= amount {
                    capped - amount
                } else {
                    0
                };
                final(self).fast_unstake_requests.as_map() == old(
                    self,
                ).fast_unstake_requests.as_map().insert(who, remaining as u128)
            }),
            *final(self) == (Pallet {
                fast_unstake_requests: final(self).fast_unstake_requests,
                ..*old(self)
            }),
    {
        let current = match self.fast_unstake_requests.get(who) {
            Some(b) => *b,
            None => 0,
        };
        let capped = if current <= liquid_balance {
            current
        } else {
            liquid_balance
        };
        let remaining = if capped >= amount {
            capped - amount
        } else {
            0
        };
        self.fast_unstake_requests.upsert(who, remaining);
    }
}

impl Pallet {
    /// The per-depositor unlocking list after scheduling `amount` at
    /// `target_era`: merged into the last chunk when its era matches,
    /// else appended.
    pub open spec fn scheduled_chunks(
        old_chunks: Seq<UnlockChunk>,
        amount: Balance,
        target_era: u32,
    ) -> Seq<UnlockChunk> {
        if old_chunks.len() > 0 && old_chunks.last().era == target_era {
            old_chunks.update(
                old_chunks.len() - 1,
                UnlockChunk {
                    value: (old_chunks.last().value + amount) as u128,
                    era: target_era,
                },
            )
        } else {
            old_chunks.push(UnlockChunk { value: amount, era: target_era })
        }
    }

    /// Exchanges `liquid_amount` derivative tokens for base asset.  The
    /// default path schedules an unlock chunk one bonding window ahead
    /// and feeds the pool's unstake side; the loans path does the same
    /// but pays the depositor at once out of a collateralized borrow; the
    /// matching-pool path only queues a fast-unstake request, capped at
    /// the depositor's derivative balance.
    pub fn unstake(
        &mut self,
        who: AccountId,
        liquid_amount: Balance,
        unstake_provider: UnstakeProvider,
        liquid_balance: Balance,
        collateral_factor: u32,
    ) -> (r: Result<UnstakeEffect, Error>)
        requires
            old(self).inv(),
            unstake_provider == UnstakeProvider::Loans ==> 0 < collateral_factor <= RATIO_ONE,
        ensures
            final(self).inv(),
            r.is_err() ==> *final(self) == *old(self),
            liquid_amount < old(self).params.min_unstake ==> r == Err::<UnstakeEffect, Error>(
                Error::UnstakeTooSmall,
            ),
            liquid_amount >= old(self).params.min_unstake && unstake_provider
                == UnstakeProvider::MatchingPool ==> ({
                let current = if old(self).fast_unstake_requests.as_map().dom().contains(who) {
                    old(self).fast_unstake_requests.as_map()[who] as int
                } else {
                    0
                };
                let grown = if current + liquid_amount <= u128::MAX as int {
                    current + liquid_amount
                } else {
                    u128::MAX as int
                };
                let queued = if grown <= liquid_balance {
                    grown
                } else {
                    liquid_balance as int
                };
                r == Ok::<UnstakeEffect, Error>(UnstakeEffect::Queued) && *final(self) == (Pallet {
                    fast_unstake_requests: final(self).fast_unstake_requests,
                    ..*old(self)
                }) && final(self).fast_unstake_requests.as_map() == old(
                    self,
                ).fast_unstake_requests.as_map().insert(who, queued as u128)
            }),
            liquid_amount >= old(self).params.min_unstake && unstake_provider
                != UnstakeProvider::MatchingPool ==> ({
                let amount = liquid_to_staking_at(old(self).exchange_rate as int, liquid_amount as int);
                let key = if unstake_provider == UnstakeProvider::Loans {
                    old(self).params.loans_account_id
                } else {
                    who
                };
                let old_chunks = if old(self).unlockings.as_map().dom().contains(key) {
                    old(self).unlockings.as_map()[key]@
                } else {
                    Seq::<UnlockChunk>::empty()
                };
                let merge = old_chunks.len() > 0 && old_chunks.last().era == old(
                    self,
                ).spec_target_era();
                &&& amount > u128::MAX as int ==> r == Err::<UnstakeEffect, Error>(
                    Error::InvalidExchangeRate,
                )
                &&& amount <= u128::MAX as int && unlocking_sum(old_chunks) + amount
                    > u128::MAX as int ==> r == Err::<UnstakeEffect, Error>(
                    Error::ArithmeticOverflow,
                )
                &&& amount <= u128::MAX as int && unlocking_sum(old_chunks) + amount
                    <= u128::MAX as int && !merge && old_chunks.len() >= MAX_UNLOCKING_CHUNKS ==> r
                    == Err::<UnstakeEffect, Error>(Error::NoMoreChunks)
                &&& amount <= u128::MAX as int && unlocking_sum(old_chunks) + amount
                    <= u128::MAX as int && (merge || old_chunks.len() < MAX_UNLOCKING_CHUNKS)
                    && old(self).params.liquid_currency.is_none() ==> r == Err::<
                    UnstakeEffect,
                    Error,
                >(Error::InvalidLiquidCurrency)
                &&& amount <= u128::MAX as int && unlocking_sum(old_chunks) + amount
                    <= u128::MAX as int && (merge || old_chunks.len() < MAX_UNLOCKING_CHUNKS)
                    && old(self).params.liquid_currency.is_some() && unstake_provider
                    == UnstakeProvider::Loans && old(self).params.staking_currency.is_none() ==> r
                    == Err::<UnstakeEffect, Error>(Error::InvalidStakingCurrency)
                &&& amount <= u128::MAX as int && unlocking_sum(old_chunks) + amount
                    <= u128::MAX as int && (merge || old_chunks.len() < MAX_UNLOCKING_CHUNKS)
                    && old(self).params.liquid_currency.is_some() && (unstake_provider
                    == UnstakeProvider::Loans ==> old(self).params.staking_currency.is_some())
                    && old(self).matching_pool.total_unstake_amount.total + amount
                    > u128::MAX as int ==> r == Err::<UnstakeEffect, Error>(
                    Error::ArithmeticOverflow,
                )
                &&& amount <= u128::MAX as int && unlocking_sum(old_chunks) + amount
                    <= u128::MAX as int && (merge || old_chunks.len() < MAX_UNLOCKING_CHUNKS)
                    && old(self).params.liquid_currency.is_some() && (unstake_provider
                    == UnstakeProvider::Loans ==> old(self).params.staking_currency.is_some())
                    && old(self).matching_pool.total_unstake_amount.total + amount
                    <= u128::MAX as int ==> ({
                    let fee = mul_rate_floor(
                        old(self).params.loans_instant_unstake_fee as int,
                        amount,
                    );
                    &&& *final(self) == (Pallet {
                        matching_pool: (crate::matching::MatchingLedger {
                            total_stake_amount: old(self).matching_pool.total_stake_amount,
                            total_unstake_amount: (crate::matching::BondingAmounts {
                                total: (old(self).matching_pool.total_unstake_amount.total
                                    + amount) as u128,
                                locked: old(self).matching_pool.total_unstake_amount.locked,
                            }),
                        }),
                        unlockings: final(self).unlockings,
                        ..*old(self)
                    })
                    &&& final(self).unlockings.as_map() == old(self).unlockings.as_map().insert(
                        key,
                        final(self).unlockings.as_map()[key],
                    )
                    &&& final(self).unlockings.as_map()[key]@ == Self::scheduled_chunks(
                        old_chunks,
                        amount as u128,
                        old(self).spec_target_era(),
                    )
                    &&& unstake_provider != UnstakeProvider::Loans ==> r == Ok::<
                        UnstakeEffect,
                        Error,
                    >(UnstakeEffect::Scheduled { burn_liquid: liquid_amount })
                    &&& unstake_provider == UnstakeProvider::Loans ==> r == Ok::<
                        UnstakeEffect,
                        Error,
                    >(
                        UnstakeEffect::LoansSettled {
                            burn_liquid: liquid_amount,
                            mint_collateral: (if crate::rate::ratio_reciprocal_mul_ceil(
                                collateral_factor as int,
                                amount,
                            ) <= u128::MAX as int {
                                crate::rate::ratio_reciprocal_mul_ceil(
                                    collateral_factor as int,
                                    amount,
                                )
                            } else {
                                u128::MAX as int
                            }) as u128,
                            borrow_amount: (amount - fee) as u128,
                        },
                    )
                })
            }),
    {
        if liquid_amount < self.params.min_unstake {
            return Err(Error::UnstakeTooSmall);
        }
        if matches!(unstake_provider, UnstakeProvider::MatchingPool) {
            let current = match self.fast_unstake_requests.get(who) {
                Some(b) => *b,
                None => 0,
            };
            let grown = Self::sat_add(current, liquid_amount);
            let queued = if grown <= liquid_balance {
                grown
            } else {
                liquid_balance
            };
            self.fast_unstake_requests.upsert(who, queued);
            return Ok(UnstakeEffect::Queued);
        }
        let amount = match self.liquid_to_staking(liquid_amount) {
            Some(a) => a,
            None => {
                return Err(Error::InvalidExchangeRate);
            },
        };
        let key = if matches!(unstake_provider, UnstakeProvider::Loans) {
            self.params.loans_account_id
        } else {
            who
        };
        let target_era = self.target_era();
        let (old_len, old_sum, merge) = match self.unlockings.get(key) {
            Some(chunks) => {
                proof {
                    self.lemma_unlockings_value_wf(key);
                }
                let n = chunks.len();
                let sum = chunks_sum(chunks);
                let m = n > 0 && chunks[n - 1].era == target_era;
                (n, sum, m)
            },
            None => (0, 0, false),
        };
        if amount > u128::MAX - old_sum {
            return Err(Error::ArithmeticOverflow);
        }
        if !merge && old_len >= MAX_UNLOCKING_CHUNKS {
            return Err(Error::NoMoreChunks);
        }
        if self.params.liquid_currency.is_none() {
            return Err(Error::InvalidLiquidCurrency);
        }
        let loans = matches!(unstake_provider, UnstakeProvider::Loans);
        if loans && self.params.staking_currency.is_none() {
            return Err(Error::InvalidStakingCurrency);
        }
        if amount > u128::MAX - self.matching_pool.total_unstake_amount.total {
            return Err(Error::ArithmeticOverflow);
        }
        let mut chunks = match self.unlockings.remove_key(key) {
            Some(c) => c,
            None => Vec::new(),
        };
        let ghost pre_chunks = chunks@;
        if merge {
            let n = chunks.len();
            let last = chunks[n - 1];
            proof {
                crate::ledger::lemma_unlocking_sum_nonneg(pre_chunks.drop_last());
            }
            chunks.set(n - 1, UnlockChunk { value: last.value + amount, era: target_era });
            proof {
                assert(chunks@.drop_last() =~= pre_chunks.drop_last());
                assert(chunks@.last() == UnlockChunk {
                    value: (pre_chunks.last().value + amount) as u128,
                    era: target_era,
                });
                assert(unlocking_sum(chunks@) == unlocking_sum(pre_chunks) + amount);
            }
        } else {
            chunks.push(UnlockChunk { value: amount, era: target_era });
            proof {
                crate::ledger::lemma_unlocking_sum_push(
                    pre_chunks,
                    UnlockChunk { value: amount, era: target_era },
                );
                assert(unlocking_sum(chunks@) == unlocking_sum(pre_chunks) + amount);
            }
        }
        let ghost new_chunks = chunks@;
        proof {
            assert(unlocking_sum(new_chunks) == old_sum + amount);
            assert(new_chunks.len() <= MAX_UNLOCKING_CHUNKS);
        }
        self.unlockings.upsert(key, chunks);
        proof {
            assert(self.unlockings.as_map()[key]@ == new_chunks);
            assert forall|w: AccountId| #[trigger] self.unlockings.as_map().dom().contains(w)
                implies self.unlockings.as_map()[w]@.len() <= MAX_UNLOCKING_CHUNKS
                && unlocking_sum(self.unlockings.as_map()[w]@) <= u128::MAX by {
                if w != key {
                    assert(old(self).unlockings.as_map().dom().contains(w));
                    assert(self.unlockings.as_map()[w] == old(self).unlockings.as_map()[w]);
                }
            }
        }
        let pool_res = self.matching_pool.add_unstake_amount(amount);
        proof {
            assert(pool_res.is_ok());
        }
        if loans {
            let fee = crate::rate::fixed_saturating_mul_int(
                self.params.loans_instant_unstake_fee,
                amount,
            );
            proof {
                crate::rate::lemma_mul_rate_floor_le(
                    self.params.loans_instant_unstake_fee as int,
                    amount as int,
                );
            }
            let borrow_amount = amount - fee;
            let mint_collateral = crate::rate::ratio_reciprocal_mul_ceil_exec(
                collateral_factor,
                amount,
            );
            Ok(
                UnstakeEffect::LoansSettled {
                    burn_liquid: liquid_amount,
                    mint_collateral,
                    borrow_amount,
                },
            )
        } else {
            Ok(UnstakeEffect::Scheduled { burn_liquid: liquid_amount })
        }
    }
}

/// What settling a claim asks the runtime to perform.
#[derive(Clone, Copy, Debug, PartialEq, Eq, Structural)]
pub enum ClaimEffect {
    /// Pay the matured amount from the pool account to the beneficiary.
    Transfer { beneficiary: AccountId, amount: Balance },
    /// The loans pseudo-account claims: repay `repay` of the pool's
    /// borrow, then redeem and burn `redeem` of posted collateral.
    LoansRepay { repay: Balance, redeem: Balance, amount: Balance },
}

/// One settled fast unstake: burn the net derivative amount, move the fee
/// to the protocol receiver, pay the base amount out of the pool.
#[derive(Clone, Copy, Debug, PartialEq, Eq, Structural)]
pub struct FastUnstakeEffect {
    /// The settled depositor.
    pub unstaker: AccountId,
    /// Derivative tokens to burn from the depositor.
    pub burn_liquid: Balance,
    /// Derivative tokens to move from the depositor to the fee receiver.
    pub fee_liquid: Balance,
    /// Base asset to pay from the pool account to the depositor.
    pub payout_staking: Balance,
}

impl Pallet {
    /// Pays a depositor's matured unlockings once the era has passed and
    /// the pool holds enough unencumbered base asset.  The matured chunks
    /// leave the schedule; unmatured ones stay.
    pub fn claim_for(
        &mut self,
        who: AccountId,
        pool_balance: Balance,
        account_borrows: Balance,
        collateral_factor: u32,
    ) -> (r: Result<ClaimEffect, Error>)
        requires
            old(self).inv(),
            who == old(self).params.loans_account_id ==> 0 < collateral_factor <= RATIO_ONE,
        ensures
            final(self).inv(),
            r.is_err() ==> *final(self) == *old(self),
            !old(self).unlockings.as_map().dom().contains(who) ==> r == Err::<ClaimEffect, Error>(
                Error::NoUnlockings,
            ),
            old(self).unlockings.as_map().dom().contains(who) ==> ({
                let chunks = old(self).unlockings.as_map()[who]@;
                let matured = crate::ledger::matured_sum(chunks, old(self).current_era);
                let kept = crate::ledger::kept_chunks(chunks, old(self).current_era);
                let after_reserves = if pool_balance >= old(self).total_reserves {
                    pool_balance - old(self).total_reserves
                } else {
                    0
                };
                let unclaimed = if after_reserves >= old(
                    self,
                ).matching_pool.total_stake_amount.total {
                    after_reserves - old(self).matching_pool.total_stake_amount.total
                } else {
                    0
                };
                &&& old(self).params.staking_currency.is_none() ==> r == Err::<ClaimEffect, Error>(
                    Error::InvalidStakingCurrency,
                )
                &&& old(self).params.staking_currency.is_some() && matured == 0 ==> r == Err::<
                    ClaimEffect,
                    Error,
                >(Error::NothingToClaim)
                &&& old(self).params.staking_currency.is_some() && matured != 0 && unclaimed
                    < matured ==> r == Err::<ClaimEffect, Error>(Error::NotWithdrawn)
                &&& old(self).params.staking_currency.is_some() && matured != 0 && unclaimed
                    >= matured ==> ({
                    &&& *final(self) == (Pallet {
                        unlockings: final(self).unlockings,
                        ..*old(self)
                    })
                    &&& kept.len() == 0 ==> final(self).unlockings.as_map() == old(
                        self,
                    ).unlockings.as_map().remove(who)
                    &&& kept.len() > 0 ==> final(self).unlockings.as_map() == old(
                        self,
                    ).unlockings.as_map().insert(who, final(self).unlockings.as_map()[who])
                        && final(self).unlockings.as_map()[who]@ == kept
                    &&& who != old(self).params.loans_account_id ==> r == Ok::<ClaimEffect, Error>(
                        ClaimEffect::Transfer { beneficiary: who, amount: matured as u128 },
                    )
                    &&& who == old(self).params.loans_account_id ==> r == Ok::<ClaimEffect, Error>(
                        ClaimEffect::LoansRepay {
                            repay: if account_borrows <= matured {
                                account_borrows
                            } else {
                                matured as u128
                            },
                            redeem: (if crate::rate::ratio_reciprocal_mul_ceil(
                                collateral_factor as int,
                                matured,
                            ) <= u128::MAX as int {
                                crate::rate::ratio_reciprocal_mul_ceil(
                                    collateral_factor as int,
                                    matured,
                                )
                            } else {
                                u128::MAX as int
                            }) as u128,
                            amount: matured as u128,
                        },
                    )
                })
            }),
    {
        let pos = self.unlockings.position(who);
        if pos >= self.unlockings.entries.len() {
            return Err(Error::NoUnlockings);
        }
        proof {
            crate::kv::lemma_assoc_index(self.unlockings.entries@, pos as int);
            self.lemma_unlockings_value_wf(who);
            crate::ledger::lemma_kept_matured_split(
                self.unlockings.as_map()[who]@,
                self.current_era,
            );
        }
        if self.params.staking_currency.is_none() {
            return Err(Error::InvalidStakingCurrency);
        }
        let chunks = &self.unlockings.entries[pos].1;
        let ghost c = chunks@;
        let era = self.current_era;
        let n = chunks.len();
        let mut matured: Balance = 0;
        let mut kept: Vec<UnlockChunk> = Vec::new();
        let mut i: usize = 0;
        while i < n
            invariant
                0 <= i <= n,
                n == c.len(),
                chunks@ == c,
                unlocking_sum(c) <= u128::MAX,
                matured as int == crate::ledger::matured_sum(c.take(i as int), era),
                kept@ == crate::ledger::kept_chunks(c.take(i as int), era),
                crate::ledger::matured_sum(c.take(i as int), era) + unlocking_sum(kept@)
                    == unlocking_sum(c.take(i as int)),
                unlocking_sum(c.take(i as int)) <= unlocking_sum(c),
            decreases n - i,
        {
            proof {
                crate::ledger::lemma_matured_sum_take_step(c, era, i as int);
                crate::ledger::lemma_unlocking_sum_take_step(c, i as int);
                crate::ledger::lemma_unlocking_sum_take_le(c, i + 1);
                crate::ledger::lemma_kept_matured_split(c.take(i + 1), era);
                crate::ledger::lemma_kept_matured_split(c.take(i as int), era);
                crate::ledger::lemma_unlocking_sum_nonneg(kept@);
                assert(c.take(i + 1).drop_last() =~= c.take(i as int));
            }
            let chunk = chunks[i];
            if chunk.era <= era {
                matured = matured + chunk.value;
            } else {
                kept.push(chunk);
                proof {
                    crate::ledger::lemma_unlocking_sum_push(kept@.drop_last(), chunk);
                    assert(kept@.drop_last() =~= crate::ledger::kept_chunks(
                        c.take(i as int),
                        era,
                    ));
                }
            }
            i = i + 1;
        }
        proof {
            assert(c.take(n as int) =~= c);
        }
        if matured == 0 {
            return Err(Error::NothingToClaim);
        }
        let total_unclaimed = self.get_total_unclaimed(pool_balance);
        if total_unclaimed < matured {
            return Err(Error::NotWithdrawn);
        }
        let ghost kept_seq = kept@;
        proof {
            crate::ledger::lemma_kept_matured_split(c, era);
            crate::ledger::lemma_unlocking_sum_nonneg(kept_seq);
        }
        if kept.len() == 0 {
            let _ = self.unlockings.remove_key(who);
        } else {
            self.unlockings.upsert(who, kept);
            proof {
                assert forall|w: AccountId| #[trigger] self.unlockings.as_map().dom().contains(w)
                    implies self.unlockings.as_map()[w]@.len() <= MAX_UNLOCKING_CHUNKS
                    && unlocking_sum(self.unlockings.as_map()[w]@) <= u128::MAX by {
                    if w != who {
                        assert(old(self).unlockings.as_map().dom().contains(w));
                        assert(self.unlockings.as_map()[w] == old(self).unlockings.as_map()[w]);
                    } else {
                        assert(self.unlockings.as_map()[w]@ == kept_seq);
                    }
                }
            }
        }
        if who == self.params.loans_account_id {
            let repay = if account_borrows <= matured {
                account_borrows
            } else {
                matured
            };
            let redeem = crate::rate::ratio_reciprocal_mul_ceil_exec(collateral_factor, matured);
            Ok(ClaimEffect::LoansRepay { repay, redeem, amount: matured })
        } else {
            Ok(ClaimEffect::Transfer { beneficiary: who, amount: matured })
        }
    }
}

impl Pallet {
    /// One fast-unstake settlement on the pool, the request queue and the
    /// settlement list: a depositor without a queued request changes
    /// nothing; otherwise the matched part leaves the pool's stake total
    /// and the remainder stays queued.
    pub open spec fn fast_settle_step(
        rate: Balance,
        fee_rate: Balance,
        pool: crate::matching::MatchingLedger,
        reqs: Map<u64, Balance>,
        effects: Seq<FastUnstakeEffect>,
        who: AccountId,
        liquid_balance: Balance,
    ) -> (crate::matching::MatchingLedger, Map<u64, Balance>, Seq<FastUnstakeEffect>) {
        if !reqs.dom().contains(who) {
            (pool, reqs, effects)
        } else {
            let stored = reqs[who];
            let request = if stored <= liquid_balance {
                stored
            } else {
                liquid_balance
            };
            let available = staking_to_liquid_at(rate as int, pool.total_stake_amount.spec_free());
            let matched = if request <= available {
                request as int
            } else {
                available
            };
            let fee = mul_rate_floor(fee_rate as int, matched);
            let to_burn = matched - fee;
            let payout = liquid_to_staking_at(rate as int, to_burn);
            let unmatched = request - matched;
            let pool2 = crate::matching::MatchingLedger {
                total_stake_amount: crate::matching::BondingAmounts {
                    total: (pool.total_stake_amount.total - payout) as u128,
                    locked: pool.total_stake_amount.locked,
                },
                total_unstake_amount: pool.total_unstake_amount,
            };
            let reqs2 = if unmatched > 0 {
                reqs.insert(who, unmatched as u128)
            } else {
                reqs.remove(who)
            };
            let effects2 = if matched > 0 {
                effects.push(
                    FastUnstakeEffect {
                        unstaker: who,
                        burn_liquid: to_burn as u128,
                        fee_liquid: fee as u128,
                        payout_staking: payout as u128,
                    },
                )
            } else {
                effects
            };
            (pool2, reqs2, effects2)
        }
    }

    /// The batch settlement: [`Pallet::fast_settle_step`] folded over the
    /// listed depositors in order.
    pub open spec fn fast_settle_fold(
        rate: Balance,
        fee_rate: Balance,
        pool: crate::matching::MatchingLedger,
        reqs: Map<u64, Balance>,
        list: Seq<(AccountId, Balance)>,
    ) -> (crate::matching::MatchingLedger, Map<u64, Balance>, Seq<FastUnstakeEffect>)
        decreases list.len(),
    {
        if list.len() == 0 {
            (pool, reqs, Seq::empty())
        } else {
            let prev = Self::fast_settle_fold(rate, fee_rate, pool, reqs, list.drop_last());
            Self::fast_settle_step(
                rate,
                fee_rate,
                prev.0,
                prev.1,
                prev.2,
                list.last().0,
                list.last().1,
            )
        }
    }

    /// A batch whose depositors have nothing queued settles nothing.
    proof fn lemma_fast_fold_untouched(
        rate: Balance,
        fee_rate: Balance,
        pool: crate::matching::MatchingLedger,
        reqs: Map<u64, Balance>,
        list: Seq<(AccountId, Balance)>,
    )
        requires
            forall|k: int|
                0 <= k < list.len() ==> !reqs.dom().contains((#[trigger] list[k]).0),
        ensures
            Self::fast_settle_fold(rate, fee_rate, pool, reqs, list) == (
                pool,
                reqs,
                Seq::<FastUnstakeEffect>::empty(),
            ),
        decreases list.len(),
    {
        if list.len() > 0 {
            assert(forall|k: int|
                0 <= k < list.drop_last().len() ==> #[trigger] list.drop_last()[k] == list[k]);
            Self::lemma_fast_fold_untouched(rate, fee_rate, pool, reqs, list.drop_last());
        }
    }

    /// Settles one depositor's fast-unstake request against the pool's
    /// uncommitted stake liquidity: the matched part, minus the fee, is
    /// burned and paid out in base asset at the current rate; the
    /// remainder stays queued.  Returns the settlement, or `None` when
    /// nothing was matched.
    pub fn do_fast_match_unstake(&mut self, unstaker: AccountId, liquid_balance: Balance) -> (r:
        Result<Option<FastUnstakeEffect>, Error>)
        requires
            old(self).inv(),
            old(self).params.liquid_currency.is_some(),
            old(self).params.staking_currency.is_some(),
            old(self).exchange_rate > 0,
            staking_to_liquid_at(
                old(self).exchange_rate as int,
                old(self).matching_pool.total_stake_amount.spec_free(),
            ) <= u128::MAX as int,
        ensures
            final(self).inv(),
            r.is_ok(),
            final(self).matching_pool.total_stake_amount.spec_free() <= old(
                self,
            ).matching_pool.total_stake_amount.spec_free(),
            final(self).matching_pool.total_stake_amount.locked == old(
                self,
            ).matching_pool.total_stake_amount.locked,
            final(self).matching_pool.total_unstake_amount == old(
                self,
            ).matching_pool.total_unstake_amount,
            final(self).exchange_rate == old(self).exchange_rate,
            !old(self).fast_unstake_requests.as_map().dom().contains(unstaker) ==> r == Ok::<
                Option<FastUnstakeEffect>,
                Error,
            >(None) && *final(self) == *old(self),
            old(self).fast_unstake_requests.as_map().dom().contains(unstaker) ==> ({
                let rate = old(self).exchange_rate as int;
                let stored = old(self).fast_unstake_requests.as_map()[unstaker];
                let request = if stored <= liquid_balance {
                    stored
                } else {
                    liquid_balance
                };
                let available = staking_to_liquid_at(
                    rate,
                    old(self).matching_pool.total_stake_amount.spec_free(),
                );
                let matched = if request <= available {
                    request as int
                } else {
                    available
                };
                let fee = mul_rate_floor(
                    old(self).params.matching_pool_fast_unstake_fee as int,
                    matched,
                );
                let to_burn = matched - fee;
                let payout = liquid_to_staking_at(rate, to_burn);
                let unmatched = request - matched;
                &&& *final(self) == (Pallet {
                    matching_pool: final(self).matching_pool,
                    fast_unstake_requests: final(self).fast_unstake_requests,
                    ..*old(self)
                })
                &&& final(self).matching_pool == (crate::matching::MatchingLedger {
                    total_stake_amount: (crate::matching::BondingAmounts {
                        total: (old(self).matching_pool.total_stake_amount.total - payout) as u128,
                        locked: old(self).matching_pool.total_stake_amount.locked,
                    }),
                    total_unstake_amount: old(self).matching_pool.total_unstake_amount,
                })
                &&& unmatched > 0 ==> final(self).fast_unstake_requests.as_map() == old(
                    self,
                ).fast_unstake_requests.as_map().insert(unstaker, unmatched as u128)
                &&& unmatched == 0 ==> final(self).fast_unstake_requests.as_map() == old(
                    self,
                ).fast_unstake_requests.as_map().remove(unstaker)
                &&& matched > 0 ==> r == Ok::<Option<FastUnstakeEffect>, Error>(
                    Some(
                        FastUnstakeEffect {
                            unstaker,
                            burn_liquid: to_burn as u128,
                            fee_liquid: fee as u128,
                            payout_staking: payout as u128,
                        },
                    ),
                )
                &&& matched == 0 ==> r == Ok::<Option<FastUnstakeEffect>, Error>(None) && payout
                    == 0
            }),
    {
        let stored = match self.fast_unstake_requests.get(unstaker) {
            Some(b) => *b,
            None => {
                return Ok(None);
            },
        };
        let request = if stored <= liquid_balance {
            stored
        } else {
            liquid_balance
        };
        let free = self.matching_pool.total_stake_amount.free();
        let available = match self.staking_to_liquid(free) {
            Some(a) => a,
            None => vstd::pervasive::unreached(),
        };
        let matched = if request <= available {
            request
        } else {
            available
        };
        let ghost rate = self.exchange_rate as int;
        let fee = crate::rate::fixed_saturating_mul_int(
            self.params.matching_pool_fast_unstake_fee,
            matched,
        );
        proof {
            crate::rate::lemma_mul_rate_floor_le(
                self.params.matching_pool_fast_unstake_fee as int,
                matched as int,
            );
        }
        let to_burn = matched - fee;
        proof {
            crate::rate::lemma_round_trip_within(rate, free as int, to_burn as int);
        }
        let payout = match self.liquid_to_staking(to_burn) {
            Some(p) => p,
            None => vstd::pervasive::unreached(),
        };
        let sub_res = self.matching_pool.sub_stake_amount(payout);
        proof {
            assert(sub_res.is_ok());
        }
        let unmatched = request - matched;
        if unmatched > 0 {
            self.fast_unstake_requests.upsert(unstaker, unmatched);
        } else {
            let _ = self.fast_unstake_requests.remove_key(unstaker);
        }
        if matched > 0 {
            Ok(
                Some(
                    FastUnstakeEffect {
                        unstaker,
                        burn_liquid: to_burn,
                        fee_liquid: fee,
                        payout_staking: payout,
                    },
                ),
            )
        } else {
            proof {
                assert(to_burn == 0);
                assert(rate * 0 == 0) by (nonlinear_arith);
                assert(payout == 0);
            }
            Ok(None)
        }
    }

    /// Settles the queued fast-unstake requests of the listed depositors
    /// (each given with its current derivative balance) against the
    /// pool's uncommitted stake liquidity, in order.  Either the whole
    /// batch applies or nothing does.
    #[verifier::loop_isolation(false)]
    pub fn fast_match_unstake(&mut self, unstaker_list: &Vec<(AccountId, Balance)>) -> (r: Result<
        Vec<FastUnstakeEffect>,
        Error,
    >)
        requires
            old(self).inv(),
        ensures
            final(self).inv(),
            r.is_err() ==> *final(self) == *old(self),
            ({
                let any = exists|k: int|
                    0 <= k < unstaker_list@.len()
                        && old(self).fast_unstake_requests.as_map().dom().contains(
                        (#[trigger] unstaker_list@[k]).0,
                    );
                &&& !any ==> r.is_ok() && *final(self) == *old(self)
                &&& any && old(self).params.liquid_currency.is_none() ==> r == Err::<
                    Vec<FastUnstakeEffect>,
                    Error,
                >(Error::InvalidLiquidCurrency)
                &&& any && old(self).params.liquid_currency.is_some() && old(
                    self,
                ).params.staking_currency.is_none() ==> r == Err::<Vec<FastUnstakeEffect>, Error>(
                    Error::InvalidStakingCurrency,
                )
                &&& any && old(self).params.liquid_currency.is_some() && old(
                    self,
                ).params.staking_currency.is_some() && (old(self).exchange_rate == 0
                    || staking_to_liquid_at(
                    old(self).exchange_rate as int,
                    old(self).matching_pool.total_stake_amount.spec_free(),
                ) > u128::MAX as int) ==> r == Err::<Vec<FastUnstakeEffect>, Error>(
                    Error::InvalidExchangeRate,
                )
                &&& any && old(self).params.liquid_currency.is_some() && old(
                    self,
                ).params.staking_currency.is_some() && old(self).exchange_rate > 0
                    && staking_to_liquid_at(
                    old(self).exchange_rate as int,
                    old(self).matching_pool.total_stake_amount.spec_free(),
                ) <= u128::MAX as int ==> r.is_ok()
            }),
            r.is_ok() ==> *final(self) == (Pallet {
                matching_pool: final(self).matching_pool,
                fast_unstake_requests: final(self).fast_unstake_requests,
                ..*old(self)
            }) && final(self).matching_pool.total_stake_amount.locked == old(
                self,
            ).matching_pool.total_stake_amount.locked && final(self).matching_pool.total_unstake_amount == old(self).matching_pool.total_unstake_amount
                && final(self).matching_pool.total_stake_amount.spec_free() <= old(
                self,
            ).matching_pool.total_stake_amount.spec_free(),
            r matches Ok(v) ==> ({
                let folded = Self::fast_settle_fold(
                    old(self).exchange_rate,
                    old(self).params.matching_pool_fast_unstake_fee,
                    old(self).matching_pool,
                    old(self).fast_unstake_requests.as_map(),
                    unstaker_list@,
                );
                &&& final(self).matching_pool == folded.0
                &&& final(self).fast_unstake_requests.as_map() == folded.1
                &&& v@ == folded.2
            }),
    {
        let n = unstaker_list.len();
        let mut any_entry = false;
        let mut i: usize = 0;
        while i < n
            invariant
                0 <= i <= n,
                any_entry == exists|k: int|
                    0 <= k < i && old(self).fast_unstake_requests.as_map().dom().contains(
                        (#[trigger] unstaker_list@[k]).0,
                    ),
            decreases n - i,
        {
            let entry = unstaker_list[i];
            if self.fast_unstake_requests.contains_key(entry.0) {
                any_entry = true;
                proof {
                    assert(old(self).fast_unstake_requests.as_map().dom().contains(
                        unstaker_list@[i as int].0,
                    ));
                }
            }
            i = i + 1;
        }
        if !any_entry {
            proof {
                Self::lemma_fast_fold_untouched(
                    self.exchange_rate,
                    self.params.matching_pool_fast_unstake_fee,
                    self.matching_pool,
                    self.fast_unstake_requests.as_map(),
                    unstaker_list@,
                );
            }
            return Ok(Vec::new());
        }
        if self.params.liquid_currency.is_none() {
            return Err(Error::InvalidLiquidCurrency);
        }
        if self.params.staking_currency.is_none() {
            return Err(Error::InvalidStakingCurrency);
        }
        let free0 = self.matching_pool.total_stake_amount.free();
        if self.exchange_rate == 0 {
            return Err(Error::InvalidExchangeRate);
        }
        if self.staking_to_liquid(free0).is_none() {
            return Err(Error::InvalidExchangeRate);
        }
        let mut effects: Vec<FastUnstakeEffect> = Vec::new();
        let mut k: usize = 0;
        while k < n
            invariant
                0 <= k <= n,
                n == unstaker_list@.len(),
                self.inv(),
                self.exchange_rate == old(self).exchange_rate,
                self.params == old(self).params,
                *self == (Pallet {
                    matching_pool: self.matching_pool,
                    fast_unstake_requests: self.fast_unstake_requests,
                    ..*old(self)
                }),
                self.matching_pool.total_stake_amount.locked == old(
                    self,
                ).matching_pool.total_stake_amount.locked,
                self.matching_pool.total_unstake_amount == old(
                    self,
                ).matching_pool.total_unstake_amount,
                self.matching_pool.total_stake_amount.spec_free() <= old(
                    self,
                ).matching_pool.total_stake_amount.spec_free(),
                (self.matching_pool, self.fast_unstake_requests.as_map(), effects@)
                    == Self::fast_settle_fold(
                    old(self).exchange_rate,
                    old(self).params.matching_pool_fast_unstake_fee,
                    old(self).matching_pool,
                    old(self).fast_unstake_requests.as_map(),
                    unstaker_list@.take(k as int),
                ),
            decreases n - k,
        {
            let entry = unstaker_list[k];
            proof {
                crate::rate::lemma_mul_rate_floor_monotone(
                    crate::rate::reciprocal_rate(self.exchange_rate as int),
                    self.matching_pool.total_stake_amount.spec_free(),
                    old(self).matching_pool.total_stake_amount.spec_free(),
                );
                assert(unstaker_list@.take(k + 1).drop_last() =~= unstaker_list@.take(k as int));
                assert(unstaker_list@.take(k + 1).last() == unstaker_list@[k as int]);
            }
            let res = self.do_fast_match_unstake(entry.0, entry.1);
            match res {
                Ok(Some(effect)) => {
                    effects.push(effect);
                },
                Ok(None) => {
                },
                Err(_) => vstd::pervasive::unreached(),
            }
            k = k + 1;
        }
        proof {
            assert(unstaker_list@.take(n as int) =~= unstaker_list@);
        }
        Ok(effects)
    }
}

} // verus!
