//! Delegate ledgers: one per remote delegate account.
//!
//! A ledger tracks the delegate's total bonded balance, the active
//! (productive) part, and an ordered list of unlock chunks scheduled to
//! mature at future eras.  The invariant `total == active + sum(unlocking)`
//! holds across every operation; chunks leave the ledger only through
//! [`StakingLedger::consolidate_unlocked`] once their era is reached.

use vstd::prelude::*;
use crate::{AccountId, Balance, EraIndex, Error, MAX_UNLOCKING_CHUNKS};

verus! {

/// An amount scheduled to unlock at the end of `era`.
#[derive(Clone, Copy, Debug, PartialEq, Eq, Structural)]
pub struct UnlockChunk {
    /// Amount of the base asset scheduled to unlock.
    pub value: Balance,
    /// Era at which the amount becomes withdrawable.
    pub era: EraIndex,
}

/// Sum of the scheduled values of a chunk sequence.
pub open spec fn unlocking_sum(s: Seq<UnlockChunk>) -> int
    decreases s.len(),
{
    if s.len() == 0 {
        0
    } else {
        unlocking_sum(s.drop_last()) + s.last().value
    }
}

/// Sum of the values of the chunks that have matured at `era`.
pub open spec fn matured_sum(s: Seq<UnlockChunk>, era: EraIndex) -> int
    decreases s.len(),
{
    if s.len() == 0 {
        0
    } else {
        matured_sum(s.drop_last(), era) + if s.last().era <= era {
            s.last().value as int
        } else {
            0
        }
    }
}

/// The chunks that have not matured at `era`, in their original order.
pub open spec fn kept_chunks(s: Seq<UnlockChunk>, era: EraIndex) -> Seq<UnlockChunk>
    decreases s.len(),
{
    if s.len() == 0 {
        Seq::empty()
    } else if s.last().era > era {
        kept_chunks(s.drop_last(), era).push(s.last())
    } else {
        kept_chunks(s.drop_last(), era)
    }
}

/// The chunk sequence left after rebonding `amount` from the tail:
/// chunks are consumed latest first, the last one touched possibly only
/// in part.
pub open spec fn rebond_chunks(s: Seq<UnlockChunk>, amount: int) -> Seq<UnlockChunk>
    decreases s.len(),
{
    if s.len() == 0 || amount <= 0 {
        s
    } else if s.last().value <= amount {
        rebond_chunks(s.drop_last(), amount - s.last().value)
    } else {
        s.update(
            s.len() - 1,
            UnlockChunk { value: (s.last().value - amount) as u128, era: s.last().era },
        )
    }
}

pub proof fn lemma_unlocking_sum_nonneg(s: Seq<UnlockChunk>)
    ensures
        unlocking_sum(s) >= 0,
    decreases s.len(),
{
    if s.len() > 0 {
        lemma_unlocking_sum_nonneg(s.drop_last());
    }
}

/// Appending a chunk adds its value to the sum.
pub proof fn lemma_unlocking_sum_push(s: Seq<UnlockChunk>, c: UnlockChunk)
    ensures
        unlocking_sum(s.push(c)) == unlocking_sum(s) + c.value,
{
    assert(s.push(c).drop_last() =~= s);
}

/// Stepping a prefix forward by one element adds that element's value.
pub proof fn lemma_unlocking_sum_take_step(s: Seq<UnlockChunk>, i: int)
    requires
        0 <= i < s.len(),
    ensures
        unlocking_sum(s.take(i + 1)) == unlocking_sum(s.take(i)) + s[i].value,
{
    assert(s.take(i + 1).drop_last() =~= s.take(i));
    assert(s.take(i + 1).last() == s[i]);
}

/// Stepping a prefix forward by one element adds its matured value.
pub proof fn lemma_matured_sum_take_step(s: Seq<UnlockChunk>, era: EraIndex, i: int)
    requires
        0 <= i < s.len(),
    ensures
        matured_sum(s.take(i + 1), era) == matured_sum(s.take(i), era) + if s[i].era <= era {
            s[i].value as int
        } else {
            0
        },
{
    assert(s.take(i + 1).drop_last() =~= s.take(i));
    assert(s.take(i + 1).last() == s[i]);
}

/// The matured part never exceeds the whole sum.
pub proof fn lemma_matured_sum_le(s: Seq<UnlockChunk>, era: EraIndex)
    ensures
        0 <= matured_sum(s, era) <= unlocking_sum(s),
    decreases s.len(),
{
    if s.len() > 0 {
        lemma_matured_sum_le(s.drop_last(), era);
    }
}

/// A prefix never sums to more than the whole sequence.
pub proof fn lemma_unlocking_sum_take_le(s: Seq<UnlockChunk>, i: int)
    requires
        0 <= i <= s.len(),
    ensures
        unlocking_sum(s.take(i)) <= unlocking_sum(s),
    decreases s.len() - i,
{
    if i == s.len() {
        assert(s.take(i) =~= s);
    } else {
        lemma_unlocking_sum_take_step(s, i);
        lemma_unlocking_sum_take_le(s, i + 1);
    }
}

/// The matured and the kept chunks split the sum exactly.
pub proof fn lemma_kept_matured_split(s: Seq<UnlockChunk>, era: EraIndex)
    ensures
        unlocking_sum(kept_chunks(s, era)) + matured_sum(s, era) == unlocking_sum(s),
        matured_sum(s, era) >= 0,
        unlocking_sum(kept_chunks(s, era)) >= 0,
        kept_chunks(s, era).len() <= s.len(),
    decreases s.len(),
{
    lemma_unlocking_sum_nonneg(s);
    lemma_unlocking_sum_nonneg(kept_chunks(s, era));
    if s.len() > 0 {
        lemma_kept_matured_split(s.drop_last(), era);
        if s.last().era > era {
            lemma_unlocking_sum_push(kept_chunks(s.drop_last(), era), s.last());
        }
    }
}

/// Rebonding removes `min(amount, sum)` from the scheduled total and
/// never lengthens the sequence.
pub proof fn lemma_rebond_sum(s: Seq<UnlockChunk>, amount: int)
    requires
        amount >= 0,
    ensures
        unlocking_sum(rebond_chunks(s, amount)) == if amount <= unlocking_sum(s) {
            unlocking_sum(s) - amount
        } else {
            0
        },
        rebond_chunks(s, amount).len() <= s.len(),
    decreases s.len(),
{
    lemma_unlocking_sum_nonneg(s);
    if s.len() == 0 || amount <= 0 {
    } else if s.last().value <= amount {
        lemma_rebond_sum(s.drop_last(), amount - s.last().value);
    } else {
        let t = s.update(
            s.len() - 1,
            UnlockChunk { value: (s.last().value - amount) as u128, era: s.last().era },
        );
        lemma_unlocking_sum_nonneg(s.drop_last());
        assert(t.drop_last() =~= s.drop_last());
        assert(t.last() == UnlockChunk { value: (s.last().value - amount) as u128, era: s.last().era });
    }
}

/// Ledger of one delegate account.
#[derive(Clone, Debug)]
pub struct StakingLedger {
    /// The delegate account the funds are bonded through.
    pub stash: AccountId,
    /// Total balance of the ledger: active plus all scheduled unlocks.
    pub total: Balance,
    /// The productive, actively bonded part.
    pub active: Balance,
    /// Amounts on their way out, ordered by target era.
    pub unlocking: Vec<UnlockChunk>,
}

impl StakingLedger {
    /// The ledger accounts for every unit exactly once.
    pub open spec fn wf(self) -> bool {
        self.total as int == self.active as int + unlocking_sum(self.unlocking@)
            && self.unlocking@.len() <= MAX_UNLOCKING_CHUNKS
    }

    /// A fresh ledger: everything bonded is active.
    pub fn new(stash: AccountId, amount: Balance) -> (r: Self)
        ensures
            r.wf(),
            r.stash == stash,
            r.total == amount,
            r.active == amount,
            r.unlocking@.len() == 0,
    {
        StakingLedger { stash, total: amount, active: amount, unlocking: Vec::new() }
    }

    /// A confirmed additional bond: both total and active grow.
    pub fn bond_extra(&mut self, amount: Balance) -> (r: Result<(), Error>)
        requires
            old(self).wf(),
        ensures
            final(self).wf(),
            old(self).total + amount <= u128::MAX ==> r == Ok::<(), Error>(()) && final(self).total
                == old(self).total + amount && final(self).active == old(self).active + amount
                && final(self).unlocking@ == old(self).unlocking@ && final(self).stash == old(
                self,
            ).stash,
            old(self).total + amount > u128::MAX ==> r == Err::<(), Error>(
                Error::ArithmeticOverflow,
            ) && *final(self) == *old(self),
    {
        proof {
            lemma_unlocking_sum_nonneg(self.unlocking@);
        }
        if amount <= u128::MAX - self.total {
            self.total = self.total + amount;
            self.active = self.active + amount;
            Ok(())
        } else {
            Err(Error::ArithmeticOverflow)
        }
    }

    /// A confirmed unbond: moves `amount` from the active part into an
    /// unlock chunk at `target_era`, merging with the last chunk when the
    /// era matches.  Fails if `amount` exceeds the active part, or if a
    /// new chunk would be needed and the chunk cap is reached.
    pub fn unbond(&mut self, amount: Balance, target_era: EraIndex) -> (r: Result<(), Error>)
        requires
            old(self).wf(),
        ensures
            final(self).wf(),
            r.is_ok() <==> amount <= old(self).active && (old(self).unlocking@.len() > 0 && old(
                self,
            ).unlocking@.last().era == target_era || old(self).unlocking@.len()
                < MAX_UNLOCKING_CHUNKS),
            amount > old(self).active ==> r == Err::<(), Error>(Error::ArithmeticUnderflow),
            amount <= old(self).active && !(old(self).unlocking@.len() > 0 && old(
                self,
            ).unlocking@.last().era == target_era) && old(self).unlocking@.len()
                >= MAX_UNLOCKING_CHUNKS ==> r == Err::<(), Error>(Error::NoMoreChunks),
            r.is_ok() ==> final(self).total == old(self).total && final(self).active == old(
                self,
            ).active - amount && final(self).stash == old(self).stash && unlocking_sum(
                final(self).unlocking@,
            ) == unlocking_sum(old(self).unlocking@) + amount,
            r.is_ok() && old(self).unlocking@.len() > 0 && old(self).unlocking@.last().era
                == target_era ==> final(self).unlocking@ == old(self).unlocking@.update(
                old(self).unlocking@.len() - 1,
                (UnlockChunk {
                    value: (old(self).unlocking@.last().value + amount) as u128,
                    era: target_era,
                }),
            ),
            r.is_ok() && !(old(self).unlocking@.len() > 0 && old(self).unlocking@.last().era
                == target_era) ==> final(self).unlocking@ == old(self).unlocking@.push(
                (UnlockChunk { value: amount, era: target_era }),
            ),
            r.is_err() ==> *final(self) == *old(self),
    {
        proof {
            lemma_unlocking_sum_nonneg(self.unlocking@);
        }
        if amount > self.active {
            return Err(Error::ArithmeticUnderflow);
        }
        let n = self.unlocking.len();
        if n > 0 && self.unlocking[n - 1].era == target_era {
            proof {
                lemma_unlocking_sum_nonneg(self.unlocking@.drop_last());
            }
            let merged = UnlockChunk {
                value: self.unlocking[n - 1].value + amount,
                era: target_era,
            };
            self.unlocking.set(n - 1, merged);
            self.active = self.active - amount;
            proof {
                assert(self.unlocking@.drop_last() =~= old(self).unlocking@.drop_last());
            }
            Ok(())
        } else if n < MAX_UNLOCKING_CHUNKS {
            self.unlocking.push(UnlockChunk { value: amount, era: target_era });
            self.active = self.active - amount;
            proof {
                lemma_unlocking_sum_push(
                    old(self).unlocking@,
                    UnlockChunk { value: amount, era: target_era },
                );
            }
            Ok(())
        } else {
            Err(Error::NoMoreChunks)
        }
    }

    /// A confirmed rebond: takes `amount` back from the tail of the
    /// unlocking schedule (latest eras first) into the active part.  Any
    /// amount beyond what is scheduled is ignored.
    pub fn rebond(&mut self, amount: Balance)
        requires
            old(self).wf(),
        ensures
            final(self).wf(),
            final(self).total == old(self).total,
            final(self).stash == old(self).stash,
            final(self).unlocking@ == rebond_chunks(old(self).unlocking@, amount as int),
            final(self).active as int == old(self).active + (unlocking_sum(old(self).unlocking@)
                - unlocking_sum(final(self).unlocking@)),
    {
        let ghost s0 = self.unlocking@;
        let mut moved: Balance = 0;
        proof {
            lemma_unlocking_sum_nonneg(s0);
        }
        while moved < amount && self.unlocking.len() > 0
            invariant
                self.stash == old(self).stash,
                self.total == old(self).total,
                self.active == old(self).active,
                moved <= amount,
                unlocking_sum(self.unlocking@) == unlocking_sum(s0) - moved,
                unlocking_sum(self.unlocking@) >= 0,
                unlocking_sum(s0) <= u128::MAX,
                self.unlocking@.len() <= s0.len(),
                rebond_chunks(self.unlocking@, amount - moved) == rebond_chunks(s0, amount as int),
            decreases self.unlocking@.len(), amount - moved,
        {
            let ghost prev = self.unlocking@;
            let ghost rem_before = amount - moved;
            let n = self.unlocking.len();
            let last = self.unlocking[n - 1];
            let remaining = amount - moved;
            proof {
                lemma_unlocking_sum_nonneg(prev.drop_last());
            }
            if last.value <= remaining {
                self.unlocking.pop();
                moved = moved + last.value;
                proof {
                    assert(self.unlocking@ =~= prev.drop_last());
                }
            } else {
                let shrunk = UnlockChunk { value: last.value - remaining, era: last.era };
                self.unlocking.set(n - 1, shrunk);
                moved = amount;
                proof {
                    assert(self.unlocking@.drop_last() =~= prev.drop_last());
                    assert(self.unlocking@ == prev.update(
                        prev.len() - 1,
                        (UnlockChunk {
                            value: (last.value - rem_before) as u128,
                            era: last.era,
                        }),
                    ));
                    assert(rebond_chunks(prev, rem_before) == self.unlocking@);
                    assert(rebond_chunks(self.unlocking@, 0) == self.unlocking@);
                }
            }
        }
        proof {
            assert(rebond_chunks(self.unlocking@, amount - moved) == self.unlocking@);
        }
        self.active = self.active + moved;
    }

    /// Removes every chunk matured at `current_era`, takes their sum out
    /// of the total, and returns that sum as newly withdrawable.
    pub fn consolidate_unlocked(&mut self, current_era: EraIndex) -> (r: Balance)
        requires
            old(self).wf(),
        ensures
            final(self).wf(),
            final(self).stash == old(self).stash,
            final(self).active == old(self).active,
            r as int == matured_sum(old(self).unlocking@, current_era),
            final(self).total as int == old(self).total - r,
            final(self).unlocking@ == kept_chunks(old(self).unlocking@, current_era),
    {
        let ghost s0 = self.unlocking@;
        proof {
            lemma_kept_matured_split(s0, current_era);
            lemma_unlocking_sum_nonneg(s0);
        }
        let mut kept: Vec<UnlockChunk> = Vec::new();
        let mut removed: Balance = 0;
        let n = self.unlocking.len();
        let mut i: usize = 0;
        while i < n
            invariant
                n == s0.len(),
                0 <= i <= n,
                self.unlocking@ == s0,
                old(self).wf(),
                kept@ == kept_chunks(s0.take(i as int), current_era),
                removed as int == matured_sum(s0.take(i as int), current_era),
                removed as int + unlocking_sum(kept@) == unlocking_sum(s0.take(i as int)),
                unlocking_sum(s0.take(i as int)) <= unlocking_sum(s0),
                kept@.len() <= i,
            decreases n - i,
        {
            let c = self.unlocking[i];
            proof {
                lemma_unlocking_sum_take_step(s0, i as int);
                lemma_unlocking_sum_take_le(s0, i + 1);
                lemma_kept_matured_split(s0.take(i as int), current_era);
                lemma_unlocking_sum_nonneg(kept@);
                assert(s0.take(i + 1).drop_last() =~= s0.take(i as int));
            }
            if c.era > current_era {
                kept.push(c);
                proof {
                    lemma_unlocking_sum_push(kept@.drop_last(), c);
                    assert(kept@.drop_last() =~= kept_chunks(s0.take(i as int), current_era));
                }
            } else {
                removed = removed + c.value;
            }
            i = i + 1;
        }
        proof {
            assert(s0.take(n as int) =~= s0);
        }
        self.unlocking = kept;
        self.total = self.total - removed;
        removed
    }
}

} // verus!
