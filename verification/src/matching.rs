//! Matching pool: nets opposing stake and unstake flow per era.
//!
//! Each side of the pool is a [`BondingAmounts`] accumulator holding the
//! net amount ever recorded this cycle (`total`) and the portion already
//! committed to an in-flight remote operation (`locked`).  Only the
//! imbalance between the two sides ever crosses the remote boundary.

use vstd::prelude::*;
use crate::{Balance, Error};

verus! {

/// One side of the matching pool.
#[derive(Clone, Copy, Debug, PartialEq, Eq, Structural)]
pub struct BondingAmounts {
    /// Net amount recorded this cycle.
    pub total: Balance,
    /// Portion committed to an in-flight remote operation.
    pub locked: Balance,
}

impl BondingAmounts {
    /// The committed portion never exceeds the recorded total.
    pub open spec fn wf(self) -> bool {
        self.locked <= self.total
    }

    /// Amount not yet committed to any remote operation.
    pub open spec fn spec_free(self) -> int {
        self.total - self.locked
    }

    /// Executable form of [`BondingAmounts::spec_free`].
    pub fn free(&self) -> (r: Balance)
        requires
            self.wf(),
        ensures
            r as int == self.spec_free(),
    {
        self.total - self.locked
    }
}

/// Both sides of the matching pool.
#[derive(Clone, Copy, Debug, PartialEq, Eq, Structural)]
pub struct MatchingLedger {
    /// Net stake flow.
    pub total_stake_amount: BondingAmounts,
    /// Net unstake flow.
    pub total_unstake_amount: BondingAmounts,
}

impl MatchingLedger {
    /// On each side, the locked portion never exceeds the total.
    pub open spec fn wf(self) -> bool {
        self.total_stake_amount.wf() && self.total_unstake_amount.wf()
    }

    /// An empty pool.
    pub fn new() -> (r: Self)
        ensures
            r.wf(),
            r.total_stake_amount.total == 0,
            r.total_stake_amount.locked == 0,
            r.total_unstake_amount.total == 0,
            r.total_unstake_amount.locked == 0,
    {
        MatchingLedger {
            total_stake_amount: BondingAmounts { total: 0, locked: 0 },
            total_unstake_amount: BondingAmounts { total: 0, locked: 0 },
        }
    }

    /// Records an accepted stake in the pool's stake side.
    pub fn add_stake_amount(&mut self, amount: Balance) -> (r: Result<(), Error>)
        requires
            old(self).wf(),
        ensures
            final(self).wf(),
            old(self).total_stake_amount.total + amount <= u128::MAX ==> r == Ok::<(), Error>(())
                && final(self).total_stake_amount.total == old(self).total_stake_amount.total + amount
                && final(self).total_stake_amount.locked == old(self).total_stake_amount.locked
                && final(self).total_unstake_amount == old(self).total_unstake_amount,
            old(self).total_stake_amount.total + amount > u128::MAX ==> r == Err::<(), Error>(
                Error::ArithmeticOverflow,
            ) && *final(self) == *old(self),
    {
        if amount <= u128::MAX - self.total_stake_amount.total {
            self.total_stake_amount.total = self.total_stake_amount.total + amount;
            Ok(())
        } else {
            Err(Error::ArithmeticOverflow)
        }
    }

    /// Records an accepted unstake in the pool's unstake side.
    pub fn add_unstake_amount(&mut self, amount: Balance) -> (r: Result<(), Error>)
        requires
            old(self).wf(),
        ensures
            final(self).wf(),
            old(self).total_unstake_amount.total + amount <= u128::MAX ==> r == Ok::<(), Error>(())
                && final(self).total_unstake_amount.total == old(self).total_unstake_amount.total + amount
                && final(self).total_unstake_amount.locked == old(self).total_unstake_amount.locked
                && final(self).total_stake_amount == old(self).total_stake_amount,
            old(self).total_unstake_amount.total + amount > u128::MAX ==> r == Err::<(), Error>(
                Error::ArithmeticOverflow,
            ) && *final(self) == *old(self),
    {
        if amount <= u128::MAX - self.total_unstake_amount.total {
            self.total_unstake_amount.total = self.total_unstake_amount.total + amount;
            Ok(())
        } else {
            Err(Error::ArithmeticOverflow)
        }
    }

    /// Commits part of the stake side to an in-flight remote operation.
    /// Fails if the lock would exceed the recorded total.
    pub fn set_stake_amount_lock(&mut self, amount: Balance) -> (r: Result<(), Error>)
        requires
            old(self).wf(),
        ensures
            final(self).wf(),
            old(self).total_stake_amount.locked + amount <= old(self).total_stake_amount.total
                ==> r == Ok::<(), Error>(()) && final(self).total_stake_amount.locked == old(
                self,
            ).total_stake_amount.locked + amount && final(self).total_stake_amount.total == old(
                self,
            ).total_stake_amount.total && final(self).total_unstake_amount == old(
                self,
            ).total_unstake_amount,
            old(self).total_stake_amount.locked + amount > old(self).total_stake_amount.total ==> r
                == Err::<(), Error>(Error::ArithmeticOverflow) && *final(self) == *old(self),
    {
        if amount <= self.total_stake_amount.total - self.total_stake_amount.locked {
            self.total_stake_amount.locked = self.total_stake_amount.locked + amount;
            Ok(())
        } else {
            Err(Error::ArithmeticOverflow)
        }
    }

    /// Commits part of the unstake side to an in-flight remote operation.
    /// Fails if the lock would exceed the recorded total.
    pub fn set_unstake_amount_lock(&mut self, amount: Balance) -> (r: Result<(), Error>)
        requires
            old(self).wf(),
        ensures
            final(self).wf(),
            old(self).total_unstake_amount.locked + amount <= old(self).total_unstake_amount.total
                ==> r == Ok::<(), Error>(()) && final(self).total_unstake_amount.locked == old(
                self,
            ).total_unstake_amount.locked + amount && final(self).total_unstake_amount.total == old(
                self,
            ).total_unstake_amount.total && final(self).total_stake_amount == old(
                self,
            ).total_stake_amount,
            old(self).total_unstake_amount.locked + amount > old(self).total_unstake_amount.total
                ==> r == Err::<(), Error>(Error::ArithmeticOverflow) && *final(self) == *old(self),
    {
        if amount <= self.total_unstake_amount.total - self.total_unstake_amount.locked {
            self.total_unstake_amount.locked = self.total_unstake_amount.locked + amount;
            Ok(())
        } else {
            Err(Error::ArithmeticOverflow)
        }
    }

    /// A confirmed remote operation takes its amount out of the stake side
    /// entirely: both the total and the lock shrink by `amount`.
    pub fn consolidate_stake(&mut self, amount: Balance) -> (r: Result<(), Error>)
        requires
            old(self).wf(),
        ensures
            final(self).wf(),
            amount <= old(self).total_stake_amount.locked ==> r == Ok::<(), Error>(())
                && final(self).total_stake_amount.total == old(self).total_stake_amount.total - amount
                && final(self).total_stake_amount.locked == old(self).total_stake_amount.locked - amount
                && final(self).total_unstake_amount == old(self).total_unstake_amount,
            amount > old(self).total_stake_amount.locked ==> r == Err::<(), Error>(
                Error::ArithmeticUnderflow,
            ) && *final(self) == *old(self),
    {
        if amount <= self.total_stake_amount.locked {
            self.total_stake_amount.total = self.total_stake_amount.total - amount;
            self.total_stake_amount.locked = self.total_stake_amount.locked - amount;
            Ok(())
        } else {
            Err(Error::ArithmeticUnderflow)
        }
    }

    /// A confirmed remote operation takes its amount out of the unstake
    /// side entirely.
    pub fn consolidate_unstake(&mut self, amount: Balance) -> (r: Result<(), Error>)
        requires
            old(self).wf(),
        ensures
            final(self).wf(),
            amount <= old(self).total_unstake_amount.locked ==> r == Ok::<(), Error>(())
                && final(self).total_unstake_amount.total == old(self).total_unstake_amount.total - amount
                && final(self).total_unstake_amount.locked == old(self).total_unstake_amount.locked
                - amount && final(self).total_stake_amount == old(self).total_stake_amount,
            amount > old(self).total_unstake_amount.locked ==> r == Err::<(), Error>(
                Error::ArithmeticUnderflow,
            ) && *final(self) == *old(self),
    {
        if amount <= self.total_unstake_amount.locked {
            self.total_unstake_amount.total = self.total_unstake_amount.total - amount;
            self.total_unstake_amount.locked = self.total_unstake_amount.locked - amount;
            Ok(())
        } else {
            Err(Error::ArithmeticUnderflow)
        }
    }

    /// Fast-unstake settlement removes an amount from the stake side that
    /// is paid out immediately instead of being bonded.  Only uncommitted
    /// liquidity may be taken.
    pub fn sub_stake_amount(&mut self, amount: Balance) -> (r: Result<(), Error>)
        requires
            old(self).wf(),
        ensures
            final(self).wf(),
            amount <= old(self).total_stake_amount.spec_free() ==> r == Ok::<(), Error>(())
                && final(self).total_stake_amount.total == old(self).total_stake_amount.total - amount
                && final(self).total_stake_amount.locked == old(self).total_stake_amount.locked
                && final(self).total_unstake_amount == old(self).total_unstake_amount,
            amount > old(self).total_stake_amount.spec_free() ==> r == Err::<(), Error>(
                Error::ArithmeticUnderflow,
            ) && *final(self) == *old(self),
    {
        if amount <= self.total_stake_amount.total - self.total_stake_amount.locked {
            self.total_stake_amount.total = self.total_stake_amount.total - amount;
            Ok(())
        } else {
            Err(Error::ArithmeticUnderflow)
        }
    }

    /// Aggregate bond amount of a matching round: the stake surplus, or
    /// zero when unstake flow dominates.
    pub open spec fn spec_bond_amount(self, unbonding: int) -> int {
        if self.total_stake_amount.spec_free() >= self.total_unstake_amount.spec_free() {
            self.total_stake_amount.spec_free() - self.total_unstake_amount.spec_free()
        } else {
            0
        }
    }

    /// Aggregate rebond amount of a matching round: the dominated side's
    /// free flow, capped by what is currently unbonding remotely.
    pub open spec fn spec_rebond_amount(self, unbonding: int) -> int {
        let s = self.total_stake_amount.spec_free();
        let u = self.total_unstake_amount.spec_free();
        if s >= u {
            if u <= unbonding {
                u
            } else {
                unbonding
            }
        } else {
            if s <= unbonding {
                s
            } else {
                unbonding
            }
        }
    }

    /// Aggregate unbond amount of a matching round: the unstake surplus
    /// beyond what rebonding absorbs, and zero when stake flow dominates.
    pub open spec fn spec_unbond_amount(self, unbonding: int) -> int {
        let s = self.total_stake_amount.spec_free();
        let u = self.total_unstake_amount.spec_free();
        if s >= u {
            0
        } else if u - s >= self.spec_rebond_amount(unbonding) {
            u - s - self.spec_rebond_amount(unbonding)
        } else {
            0
        }
    }

    /// Nets the two sides against each other and returns the aggregate
    /// `(bond, rebond, unbond)` deltas for this round.  Only the imbalance
    /// ever crosses the remote boundary; the consumed portions are locked
    /// by the per-delegate submissions the round then issues.  At most one
    /// of the bond and unbond deltas is nonzero.
    pub fn matching(&self, unbonding_amount: Balance) -> (r: (Balance, Balance, Balance))
        requires
            self.wf(),
        ensures
            r.0 as int == self.spec_bond_amount(unbonding_amount as int),
            r.1 as int == self.spec_rebond_amount(unbonding_amount as int),
            r.2 as int == self.spec_unbond_amount(unbonding_amount as int),
            r.0 == 0 || r.2 == 0,
    {
        let net_stake = self.total_stake_amount.free();
        let net_unstake = self.total_unstake_amount.free();
        if net_stake >= net_unstake {
            let rebond = if net_unstake <= unbonding_amount {
                net_unstake
            } else {
                unbonding_amount
            };
            (net_stake - net_unstake, rebond, 0)
        } else {
            let rebond = if net_stake <= unbonding_amount {
                net_stake
            } else {
                unbonding_amount
            };
            let imbalance = net_unstake - net_stake;
            let unbond = if imbalance >= rebond {
                imbalance - rebond
            } else {
                0
            };
            (0, rebond, unbond)
        }
    }
}

/// The pool a stake-side consolidation leaves behind, as a value.
pub open spec fn spec_consolidate_stake(m: MatchingLedger, amount: Balance) -> MatchingLedger {
    MatchingLedger {
        total_stake_amount: BondingAmounts {
            total: (m.total_stake_amount.total - amount) as u128,
            locked: (m.total_stake_amount.locked - amount) as u128,
        },
        total_unstake_amount: m.total_unstake_amount,
    }
}

/// The pool an unstake-side consolidation leaves behind, as a value.
pub open spec fn spec_consolidate_unstake(m: MatchingLedger, amount: Balance) -> MatchingLedger {
    MatchingLedger {
        total_stake_amount: m.total_stake_amount,
        total_unstake_amount: BondingAmounts {
            total: (m.total_unstake_amount.total - amount) as u128,
            locked: (m.total_unstake_amount.locked - amount) as u128,
        },
    }
}

/// Confirmations of distinct in-flight operations commute: consolidating
/// two non-overlapping amounts leaves the same pool in either order, on
/// either side and across sides.
pub proof fn lemma_consolidate_commutes(m: MatchingLedger, a: Balance, b: Balance)
    requires
        m.wf(),
        a + b <= m.total_stake_amount.locked,
        a + b <= m.total_unstake_amount.locked,
    ensures
        spec_consolidate_stake(spec_consolidate_stake(m, a), b) == spec_consolidate_stake(
            spec_consolidate_stake(m, b),
            a,
        ),
        spec_consolidate_unstake(spec_consolidate_unstake(m, a), b) == spec_consolidate_unstake(
            spec_consolidate_unstake(m, b),
            a,
        ),
        spec_consolidate_unstake(spec_consolidate_stake(m, a), b) == spec_consolidate_stake(
            spec_consolidate_unstake(m, b),
            a,
        ),
{
}

} // verus!
