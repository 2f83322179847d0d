//! Era state machine: advances the era index from the block-height oracle
//! and recomputes the exchange rate on each advance.
//!
//! Advancing by zero is a no-op, and the exchange rate never decreases
//! except through an administrative override: a recomputed rate is applied
//! only when it is strictly greater than the current one.

use vstd::prelude::*;
use crate::pallet::Pallet;
use crate::rate::{fixed_from_rational, RATE_ONE};
use crate::{Balance, BlockNumber, EraIndex, Error};

verus! {

impl Pallet {
    /// The rate that the aggregate ledgers and pool flows support:
    /// `(totalActiveBonded + netStake - netUnstake) / derivativeSupply`,
    /// or `None` when the supply is zero, the numerator under- or
    /// overflows, or the quotient does not fit.
    pub open spec fn new_rate_candidate(self, issuance: Balance) -> Option<int> {
        let tab = if crate::kv::ledgers_active_sum(self.staking_ledgers.entries@)
            <= u128::MAX as int {
            crate::kv::ledgers_active_sum(self.staking_ledgers.entries@)
        } else {
            u128::MAX as int
        };
        if issuance == 0 {
            None
        } else if tab + self.matching_pool.total_stake_amount.total > u128::MAX as int {
            None
        } else if tab + self.matching_pool.total_stake_amount.total
            < self.matching_pool.total_unstake_amount.total {
            None
        } else {
            let q = ((tab + self.matching_pool.total_stake_amount.total
                - self.matching_pool.total_unstake_amount.total) * (RATE_ONE as int))
                / (issuance as int);
            if q > u128::MAX as int {
                None
            } else {
                Some(q)
            }
        }
    }

    /// The exchange rate after a recomputation attempt: the candidate if
    /// it is strictly greater than the current rate, else unchanged.
    pub open spec fn updated_rate(self, issuance: Balance) -> Balance {
        match self.new_rate_candidate(issuance) {
            Some(q) => if q > self.exchange_rate {
                q as u128
            } else {
                self.exchange_rate
            },
            None => self.exchange_rate,
        }
    }

    /// Recomputes the exchange rate from the aggregate active bond and
    /// the pool's net flows.  The rate never decreases here.
    pub fn do_update_exchange_rate(&mut self, issuance: Balance) -> (r: Result<(), Error>)
        requires
            old(self).inv(),
        ensures
            final(self).inv(),
            *final(self) == (Pallet {
                exchange_rate: old(self).updated_rate(issuance),
                ..*old(self)
            }),
            final(self).exchange_rate >= old(self).exchange_rate,
            issuance == 0 ==> r == Ok::<(), Error>(()) && *final(self) == *old(self),
            issuance > 0 ==> {
                let tab = if crate::kv::ledgers_active_sum(old(self).staking_ledgers.entries@)
                    <= u128::MAX as int {
                    crate::kv::ledgers_active_sum(old(self).staking_ledgers.entries@)
                } else {
                    u128::MAX as int
                };
                if tab + old(self).matching_pool.total_stake_amount.total > u128::MAX as int || tab
                    + old(self).matching_pool.total_stake_amount.total < old(
                    self,
                ).matching_pool.total_unstake_amount.total {
                    r == Err::<(), Error>(Error::ArithmeticOverflow)
                } else if old(self).new_rate_candidate(issuance).is_none() {
                    r == Err::<(), Error>(Error::InvalidExchangeRate)
                } else {
                    r == Ok::<(), Error>(())
                }
            },
    {
        if issuance == 0 {
            return Ok(());
        }
        let total_active_bonded = self.get_total_active_bonded();
        let stake_total = self.matching_pool.total_stake_amount.total;
        let unstake_total = self.matching_pool.total_unstake_amount.total;
        if stake_total > u128::MAX - total_active_bonded {
            return Err(Error::ArithmeticOverflow);
        }
        let with_stake = total_active_bonded + stake_total;
        if with_stake < unstake_total {
            return Err(Error::ArithmeticOverflow);
        }
        let numerator = with_stake - unstake_total;
        match fixed_from_rational(numerator, issuance) {
            Some(new_rate) => {
                if new_rate > self.exchange_rate {
                    self.exchange_rate = new_rate;
                }
                Ok(())
            },
            None => Err(Error::InvalidExchangeRate),
        }
    }

    /// Number of whole eras elapsed on the oracle since the era started;
    /// zero when the oracle is stale, the era length is unset, or the
    /// count does not fit an era index.
    pub open spec fn spec_offset(self, relaychain_block_number: BlockNumber) -> int {
        if relaychain_block_number < self.era_start_block || self.params.era_length == 0 {
            0
        } else {
            let q = (relaychain_block_number - self.era_start_block) as int
                / self.params.era_length as int;
            if q > u32::MAX as int {
                0
            } else {
                q
            }
        }
    }

    /// Executable twin of [`Pallet::spec_offset`].
    pub fn offset(&self, relaychain_block_number: BlockNumber) -> (r: EraIndex)
        ensures
            r as int == self.spec_offset(relaychain_block_number),
    {
        if relaychain_block_number < self.era_start_block || self.params.era_length == 0 {
            return 0;
        }
        let q = (relaychain_block_number - self.era_start_block) / self.params.era_length;
        if q > u32::MAX as u64 {
            0
        } else {
            q as u32
        }
    }

    /// Advances the era by `offset`, re-anchors the era start at the
    /// oracle height, recomputes the exchange rate (a failure there is
    /// swallowed: era progression must not depend on reward accounting),
    /// and reopens matching.  With a zero offset nothing changes at all.
    pub fn do_advance_era(
        &mut self,
        offset: EraIndex,
        current_height: BlockNumber,
        issuance: Balance,
    )
        requires
            old(self).inv(),
        ensures
            final(self).inv(),
            offset == 0 ==> *final(self) == *old(self),
            offset > 0 ==> *final(self) == (Pallet {
                era_start_block: current_height,
                current_era: if old(self).current_era + offset <= u32::MAX as int {
                    (old(self).current_era + offset) as u32
                } else {
                    u32::MAX
                },
                exchange_rate: old(self).updated_rate(issuance),
                is_matched: false,
                ..*old(self)
            }),
            final(self).exchange_rate >= old(self).exchange_rate,
    {
        if offset == 0 {
            return ;
        }
        self.era_start_block = current_height;
        self.current_era = if offset <= u32::MAX - self.current_era {
            self.current_era + offset
        } else {
            u32::MAX
        };
        let _ = self.do_update_exchange_rate(issuance);
        self.is_matched = false;
    }

    /// Administrative era advance.
    pub fn force_advance_era(
        &mut self,
        offset: EraIndex,
        current_height: BlockNumber,
        issuance: Balance,
    )
        requires
            old(self).inv(),
        ensures
            final(self).inv(),
            offset == 0 ==> *final(self) == *old(self),
            offset > 0 ==> *final(self) == (Pallet {
                era_start_block: current_height,
                current_era: if old(self).current_era + offset <= u32::MAX as int {
                    (old(self).current_era + offset) as u32
                } else {
                    u32::MAX
                },
                exchange_rate: old(self).updated_rate(issuance),
                is_matched: false,
                ..*old(self)
            }),
            final(self).exchange_rate >= old(self).exchange_rate,
    {
        self.do_advance_era(offset, current_height, issuance);
    }

    /// Accepts an externally proven era number.  `proof_valid` is the
    /// outcome of verifying the caller's storage proof against the
    /// admitted relay state root.  Returns the incentive owed to the
    /// caller: the configured amount when the era actually advanced,
    /// zero otherwise.
    pub fn set_current_era(
        &mut self,
        era: EraIndex,
        proof_valid: bool,
        current_height: BlockNumber,
        issuance: Balance,
    ) -> (r: Result<Balance, Error>)
        requires
            old(self).inv(),
        ensures
            final(self).inv(),
            !proof_valid ==> r == Err::<Balance, Error>(Error::InvalidProof) && *final(self)
                == *old(self),
            proof_valid && era <= old(self).current_era ==> r == Ok::<Balance, Error>(0)
                && *final(self) == *old(self),
            proof_valid && era > old(self).current_era ==> r == Ok::<Balance, Error>(
                old(self).incentive,
            ) && *final(self) == (Pallet {
                era_start_block: current_height,
                current_era: era,
                exchange_rate: old(self).updated_rate(issuance),
                is_matched: false,
                ..*old(self)
            }),
    {
        if !proof_valid {
            return Err(Error::InvalidProof);
        }
        let offset = if era >= self.current_era {
            era - self.current_era
        } else {
            0
        };
        self.do_advance_era(offset, current_height, issuance);
        if offset != 0 {
            Ok(self.incentive)
        } else {
            Ok(0)
        }
    }
}

} // verus!
