//! Distribution strategy: how an aggregate bond, unbond or rebond delta is
//! split across the configured delegate accounts.
//!
//! The strategy is pluggable: the engine hands it each delegate's current
//! state and a target total and takes back a per-delegate split.  The
//! contracts bound every split to what the engine can actually submit:
//! amounts are positive, indexes come from the given list without
//! repetition, the per-delegate cap and the nominator minimum are kept,
//! and no more than the target total is distributed.

use vstd::prelude::*;
use crate::{Balance, DerivativeIndex};

verus! {

/// Sum of the amounts of a per-delegate split.
pub open spec fn dist_sum(s: Seq<(DerivativeIndex, Balance)>) -> int
    decreases s.len(),
{
    if s.len() == 0 {
        0
    } else {
        dist_sum(s.drop_last()) + s.last().1
    }
}

pub proof fn lemma_dist_sum_nonneg(s: Seq<(DerivativeIndex, Balance)>)
    ensures
        dist_sum(s) >= 0,
    decreases s.len(),
{
    if s.len() > 0 {
        lemma_dist_sum_nonneg(s.drop_last());
    }
}

/// Appending an entry adds its amount to the sum.
pub proof fn lemma_dist_sum_push(s: Seq<(DerivativeIndex, Balance)>, e: (DerivativeIndex, Balance))
    ensures
        dist_sum(s.push(e)) == dist_sum(s) + e.1,
{
    assert(s.push(e).drop_last() =~= s);
}

/// Stepping a prefix forward by one entry adds that entry's amount.
pub proof fn lemma_dist_sum_take_step(s: Seq<(DerivativeIndex, Balance)>, i: int)
    requires
        0 <= i < s.len(),
    ensures
        dist_sum(s.take(i + 1)) == dist_sum(s.take(i)) + (s[i]).1,
{
    assert(s.take(i + 1).drop_last() =~= s.take(i));
    assert(s.take(i + 1).last() == s[i]);
}

/// A prefix never sums to more than the whole split.
pub proof fn lemma_dist_sum_take_le(s: Seq<(DerivativeIndex, Balance)>, i: int)
    requires
        0 <= i <= s.len(),
    ensures
        dist_sum(s.take(i)) <= dist_sum(s),
    decreases s.len() - i,
{
    if i == s.len() {
        assert(s.take(i) =~= s);
    } else {
        lemma_dist_sum_take_step(s, i);
        lemma_dist_sum_nonneg(s.take(i));
        lemma_dist_sum_take_le(s, i + 1);
    }
}

/// A split with pairwise-distinct indexes drawn from a list has no more
/// entries than the list.
pub proof fn lemma_dist_len_bounded(r: Seq<(DerivativeIndex, Balance)>, list: Seq<DerivativeIndex>)
    requires
        forall|k1: int, k2: int|
            0 <= k1 < k2 < r.len() ==> (#[trigger] r[k1]).0 != (#[trigger] r[k2]).0,
        forall|k: int| 0 <= k < r.len() ==> list.contains((#[trigger] r[k]).0),
    ensures
        r.len() <= list.len(),
{
    let keys = r.map_values(|e: (DerivativeIndex, Balance)| e.0);
    assert(keys.no_duplicates()) by {
        assert(forall|k1: int, k2: int|
            0 <= k1 < k2 < keys.len() ==> keys[k1] != keys[k2]) by {
            assert(forall|k: int| 0 <= k < r.len() ==> keys[k] == (#[trigger] r[k]).0);
        }
    }
    keys.unique_seq_to_set();
    list.lemma_cardinality_of_set();
    assert(keys.to_set().subset_of(list.to_set())) by {
        assert forall|x: DerivativeIndex| keys.to_set().contains(x) implies list.to_set().contains(
            x,
        ) by {
            let i = choose|i: int| 0 <= i < keys.len() && keys[i] == x;
            assert((r[i]).0 == x);
            assert(list.contains(x));
        }
    }
    vstd::set_lib::lemma_len_subset(keys.to_set(), list.to_set());
}

/// Policy that splits an aggregate delta across delegate accounts.
pub trait DistributionStrategy {
    /// Splits a bond of at most `total` across delegates, given each
    /// delegate's `(index, active_bonded, total_bonded)`.  Every assigned
    /// amount respects the per-delegate `cap` and the nominator minimum.
    fn get_bond_distributions(
        &self,
        amounts: &Vec<(DerivativeIndex, Balance, Balance)>,
        total: Balance,
        cap: Balance,
        min_nominator_bond: Balance,
    ) -> (r: Vec<(DerivativeIndex, Balance)>)
        requires
            forall|j1: int, j2: int|
                0 <= j1 < j2 < amounts@.len() ==> (#[trigger] amounts@[j1]).0 != (
                #[trigger] amounts@[j2]).0,
        ensures
            dist_sum(r@) <= total,
            forall|k1: int, k2: int|
                0 <= k1 < k2 < r@.len() ==> (#[trigger] r@[k1]).0 != (#[trigger] r@[k2]).0,
            forall|k: int|
                0 <= k < r@.len() ==> (#[trigger] r@[k]).1 > 0 && r@[k].1 >= min_nominator_bond
                    && exists|j: int|
                    0 <= j < amounts@.len() && (#[trigger] amounts@[j]).0 == r@[k].0
                        && amounts@[j].2 + r@[k].1 <= cap,
    ;

    /// Splits an unbond of at most `total` across delegates, given each
    /// delegate's `(index, active_bonded)`.  Every assigned amount leaves
    /// at least the nominator minimum active.
    fn get_unbond_distributions(
        &self,
        amounts: &Vec<(DerivativeIndex, Balance)>,
        total: Balance,
        min_nominator_bond: Balance,
    ) -> (r: Vec<(DerivativeIndex, Balance)>)
        requires
            forall|j1: int, j2: int|
                0 <= j1 < j2 < amounts@.len() ==> (#[trigger] amounts@[j1]).0 != (
                #[trigger] amounts@[j2]).0,
        ensures
            dist_sum(r@) <= total,
            forall|k1: int, k2: int|
                0 <= k1 < k2 < r@.len() ==> (#[trigger] r@[k1]).0 != (#[trigger] r@[k2]).0,
            forall|k: int|
                0 <= k < r@.len() ==> (#[trigger] r@[k]).1 > 0 && exists|j: int|
                    0 <= j < amounts@.len() && (#[trigger] amounts@[j]).0 == r@[k].0 && r@[k].1
                        + min_nominator_bond <= amounts@[j].1,
    ;

    /// Splits a rebond of at most `total` across delegates, given each
    /// delegate's `(index, unbonding)`.  Every assigned amount is within
    /// what that delegate is currently unbonding.
    fn get_rebond_distributions(
        &self,
        amounts: &Vec<(DerivativeIndex, Balance)>,
        total: Balance,
    ) -> (r: Vec<(DerivativeIndex, Balance)>)
        requires
            forall|j1: int, j2: int|
                0 <= j1 < j2 < amounts@.len() ==> (#[trigger] amounts@[j1]).0 != (
                #[trigger] amounts@[j2]).0,
        ensures
            dist_sum(r@) <= total,
            forall|k1: int, k2: int|
                0 <= k1 < k2 < r@.len() ==> (#[trigger] r@[k1]).0 != (#[trigger] r@[k2]).0,
            forall|k: int|
                0 <= k < r@.len() ==> (#[trigger] r@[k]).1 > 0 && exists|j: int|
                    0 <= j < amounts@.len() && (#[trigger] amounts@[j]).0 == r@[k].0 && r@[k].1
                        <= amounts@[j].1,
    ;
}

/// The in-order bond split and the delta left over: each delegate takes
/// as much of the remainder as its cap headroom allows, skipped when that
/// would fall below the nominator minimum.
pub open spec fn in_order_bond_split(
    amounts: Seq<(DerivativeIndex, Balance, Balance)>,
    total: Balance,
    cap: Balance,
    min_nominator_bond: Balance,
) -> (Seq<(DerivativeIndex, Balance)>, int)
    decreases amounts.len(),
{
    if amounts.len() == 0 {
        (Seq::empty(), total as int)
    } else {
        let prev = in_order_bond_split(amounts.drop_last(), total, cap, min_nominator_bond);
        let e = amounts.last();
        let room: int = if e.2 >= cap {
            0
        } else {
            cap - e.2
        };
        let a: int = if prev.1 <= room {
            prev.1
        } else {
            room
        };
        if a > 0 && a >= min_nominator_bond {
            (prev.0.push((e.0, a as u128)), prev.1 - a)
        } else {
            prev
        }
    }
}

/// The in-order unbond split: each delegate gives up as much of the
/// remainder as it can while keeping the nominator minimum active.
pub open spec fn in_order_unbond_split(
    amounts: Seq<(DerivativeIndex, Balance)>,
    total: Balance,
    min_nominator_bond: Balance,
) -> (Seq<(DerivativeIndex, Balance)>, int)
    decreases amounts.len(),
{
    if amounts.len() == 0 {
        (Seq::empty(), total as int)
    } else {
        let prev = in_order_unbond_split(amounts.drop_last(), total, min_nominator_bond);
        let e = amounts.last();
        let avail: int = if e.1 >= min_nominator_bond {
            e.1 - min_nominator_bond
        } else {
            0
        };
        let a: int = if prev.1 <= avail {
            prev.1
        } else {
            avail
        };
        if a > 0 {
            (prev.0.push((e.0, a as u128)), prev.1 - a)
        } else {
            prev
        }
    }
}

/// The in-order rebond split: each delegate reactivates up to its own
/// unbonding balance.
pub open spec fn in_order_rebond_split(
    amounts: Seq<(DerivativeIndex, Balance)>,
    total: Balance,
) -> (Seq<(DerivativeIndex, Balance)>, int)
    decreases amounts.len(),
{
    if amounts.len() == 0 {
        (Seq::empty(), total as int)
    } else {
        let prev = in_order_rebond_split(amounts.drop_last(), total);
        let e = amounts.last();
        let a: int = if prev.1 <= e.1 {
            prev.1
        } else {
            e.1 as int
        };
        if a > 0 {
            (prev.0.push((e.0, a as u128)), prev.1 - a)
        } else {
            prev
        }
    }
}

/// Fills delegates in their configured order: each one takes as much of
/// the remaining delta as its own headroom allows before the next is
/// considered.
pub struct InOrderDistribution;

impl DistributionStrategy for InOrderDistribution {
    fn get_bond_distributions(
        &self,
        amounts: &Vec<(DerivativeIndex, Balance, Balance)>,
        total: Balance,
        cap: Balance,
        min_nominator_bond: Balance,
    ) -> (r: Vec<(DerivativeIndex, Balance)>)
        ensures
            r@ == in_order_bond_split(amounts@, total, cap, min_nominator_bond).0,
    {
        let mut out: Vec<(DerivativeIndex, Balance)> = Vec::new();
        let mut rest = total;
        let n = amounts.len();
        let mut i: usize = 0;
        while i < n
            invariant
                0 <= i <= n,
                n == amounts@.len(),
                rest <= total,
                dist_sum(out@) == total - rest,
                (out@, rest as int) == in_order_bond_split(
                    amounts@.take(i as int),
                    total,
                    cap,
                    min_nominator_bond,
                ),
                forall|j1: int, j2: int|
                    0 <= j1 < j2 < amounts@.len() ==> (#[trigger] amounts@[j1]).0 != (
                    #[trigger] amounts@[j2]).0,
                forall|k1: int, k2: int|
                    0 <= k1 < k2 < out@.len() ==> (#[trigger] out@[k1]).0 != (#[trigger] out@[k2]).0,
                forall|k: int|
                    0 <= k < out@.len() ==> (#[trigger] out@[k]).1 > 0 && out@[k].1
                        >= min_nominator_bond && exists|j: int|
                        0 <= j < i && (#[trigger] amounts@[j]).0 == out@[k].0 && amounts@[j].2
                            + out@[k].1 <= cap,
            decreases n - i,
        {
            proof {
                assert(amounts@.take(i + 1).drop_last() =~= amounts@.take(i as int));
                assert(amounts@.take(i + 1).last() == amounts@[i as int]);
            }
            let entry = amounts[i];
            let room = if entry.2 >= cap {
                0
            } else {
                cap - entry.2
            };
            let a = if rest <= room {
                rest
            } else {
                room
            };
            if a > 0 && a >= min_nominator_bond {
                proof {
                    assert forall|k: int| 0 <= k < out@.len() implies (#[trigger] out@[k]).0
                        != amounts@[i as int].0 by {
                        let j = choose|j: int|
                            0 <= j < i && (#[trigger] amounts@[j]).0 == out@[k].0 && amounts@[j].2
                                + out@[k].1 <= cap;
                        assert(amounts@[j].0 != amounts@[i as int].0);
                    }
                    lemma_dist_sum_push(out@, (amounts@[i as int].0, a));
                }
                out.push((entry.0, a));
                rest = rest - a;
            }
            i = i + 1;
        }
        proof {
            assert(amounts@.take(n as int) =~= amounts@);
        }
        out
    }

    fn get_unbond_distributions(
        &self,
        amounts: &Vec<(DerivativeIndex, Balance)>,
        total: Balance,
        min_nominator_bond: Balance,
    ) -> (r: Vec<(DerivativeIndex, Balance)>)
        ensures
            r@ == in_order_unbond_split(amounts@, total, min_nominator_bond).0,
    {
        let mut out: Vec<(DerivativeIndex, Balance)> = Vec::new();
        let mut rest = total;
        let n = amounts.len();
        let mut i: usize = 0;
        while i < n
            invariant
                0 <= i <= n,
                n == amounts@.len(),
                rest <= total,
                dist_sum(out@) == total - rest,
                (out@, rest as int) == in_order_unbond_split(
                    amounts@.take(i as int),
                    total,
                    min_nominator_bond,
                ),
                forall|j1: int, j2: int|
                    0 <= j1 < j2 < amounts@.len() ==> (#[trigger] amounts@[j1]).0 != (
                    #[trigger] amounts@[j2]).0,
                forall|k1: int, k2: int|
                    0 <= k1 < k2 < out@.len() ==> (#[trigger] out@[k1]).0 != (#[trigger] out@[k2]).0,
                forall|k: int|
                    0 <= k < out@.len() ==> (#[trigger] out@[k]).1 > 0 && exists|j: int|
                        0 <= j < i && (#[trigger] amounts@[j]).0 == out@[k].0 && out@[k].1
                            + min_nominator_bond <= amounts@[j].1,
            decreases n - i,
        {
            proof {
                assert(amounts@.take(i + 1).drop_last() =~= amounts@.take(i as int));
                assert(amounts@.take(i + 1).last() == amounts@[i as int]);
            }
            let entry = amounts[i];
            let avail = if entry.1 >= min_nominator_bond {
                entry.1 - min_nominator_bond
            } else {
                0
            };
            let a = if rest <= avail {
                rest
            } else {
                avail
            };
            if a > 0 {
                proof {
                    assert forall|k: int| 0 <= k < out@.len() implies (#[trigger] out@[k]).0
                        != amounts@[i as int].0 by {
                        let j = choose|j: int|
                            0 <= j < i && (#[trigger] amounts@[j]).0 == out@[k].0 && out@[k].1
                                + min_nominator_bond <= amounts@[j].1;
                        assert(amounts@[j].0 != amounts@[i as int].0);
                    }
                    lemma_dist_sum_push(out@, (amounts@[i as int].0, a));
                }
                out.push((entry.0, a));
                rest = rest - a;
            }
            i = i + 1;
        }
        proof {
            assert(amounts@.take(n as int) =~= amounts@);
        }
        out
    }

    fn get_rebond_distributions(
        &self,
        amounts: &Vec<(DerivativeIndex, Balance)>,
        total: Balance,
    ) -> (r: Vec<(DerivativeIndex, Balance)>)
        ensures
            r@ == in_order_rebond_split(amounts@, total).0,
    {
        let mut out: Vec<(DerivativeIndex, Balance)> = Vec::new();
        let mut rest = total;
        let n = amounts.len();
        let mut i: usize = 0;
        while i < n
            invariant
                0 <= i <= n,
                n == amounts@.len(),
                rest <= total,
                dist_sum(out@) == total - rest,
                (out@, rest as int) == in_order_rebond_split(amounts@.take(i as int), total),
                forall|j1: int, j2: int|
                    0 <= j1 < j2 < amounts@.len() ==> (#[trigger] amounts@[j1]).0 != (
                    #[trigger] amounts@[j2]).0,
                forall|k1: int, k2: int|
                    0 <= k1 < k2 < out@.len() ==> (#[trigger] out@[k1]).0 != (#[trigger] out@[k2]).0,
                forall|k: int|
                    0 <= k < out@.len() ==> (#[trigger] out@[k]).1 > 0 && exists|j: int|
                        0 <= j < i && (#[trigger] amounts@[j]).0 == out@[k].0 && out@[k].1
                            <= amounts@[j].1,
            decreases n - i,
        {
            proof {
                assert(amounts@.take(i + 1).drop_last() =~= amounts@.take(i as int));
                assert(amounts@.take(i + 1).last() == amounts@[i as int]);
            }
            let entry = amounts[i];
            let a = if rest <= entry.1 {
                rest
            } else {
                entry.1
            };
            if a > 0 {
                proof {
                    assert forall|k: int| 0 <= k < out@.len() implies (#[trigger] out@[k]).0
                        != amounts@[i as int].0 by {
                        let j = choose|j: int|
                            0 <= j < i && (#[trigger] amounts@[j]).0 == out@[k].0 && out@[k].1
                                <= amounts@[j].1;
                        assert(amounts@[j].0 != amounts@[i as int].0);
                    }
                    lemma_dist_sum_push(out@, (amounts@[i as int].0, a));
                }
                out.push((entry.0, a));
                rest = rest - a;
            }
            i = i + 1;
        }
        proof {
            assert(amounts@.take(n as int) =~= amounts@);
        }
        out
    }
}

} // verus!
