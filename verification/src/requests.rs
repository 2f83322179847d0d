//! Remote request tracker: correlates outbound remote operations with the
//! ledger mutation to apply once their confirmation arrives.
//!
//! Every submitted operation is stored under a fresh correlation id and
//! stays until its confirmation is processed, success or failure; it is
//! then removed, so each confirmation is applied at most once.

use vstd::prelude::*;
use crate::{AccountId, Balance, DerivativeIndex, QueryId};

verus! {

/// A remote operation in flight, keyed by its correlation id.
#[derive(Clone, Debug)]
pub enum XcmRequest {
    /// First bond through a delegate, creating its ledger on confirmation.
    Bond { index: DerivativeIndex, amount: Balance },
    /// Additional bond on an existing ledger.
    BondExtra { index: DerivativeIndex, amount: Balance },
    /// Begin unlocking part of a delegate's active bond.
    Unbond { index: DerivativeIndex, amount: Balance },
    /// Move scheduled unlocks back into the active bond.
    Rebond { index: DerivativeIndex, amount: Balance },
    /// Withdraw every matured unlock of a delegate.
    WithdrawUnbonded { index: DerivativeIndex, num_slashing_spans: u32 },
    /// Pick validators; no ledger effect.
    Nominate { index: DerivativeIndex, targets: Vec<AccountId> },
}

/// The map described by an association list, later entries winning.
pub open spec fn seq_to_map(s: Seq<(QueryId, XcmRequest)>) -> Map<QueryId, XcmRequest>
    decreases s.len(),
{
    if s.len() == 0 {
        Map::empty()
    } else {
        seq_to_map(s.drop_last()).insert(s.last().0, s.last().1)
    }
}

/// A key is in the map exactly when some entry carries it.
pub proof fn lemma_seq_to_map_dom(s: Seq<(QueryId, XcmRequest)>, k: QueryId)
    ensures
        seq_to_map(s).dom().contains(k) <==> exists|i: int| 0 <= i < s.len() && s[i].0 == k,
    decreases s.len(),
{
    if s.len() > 0 {
        lemma_seq_to_map_dom(s.drop_last(), k);
        if s.last().0 == k {
            assert(s[s.len() - 1].0 == k);
        } else if seq_to_map(s).dom().contains(k) {
            let i = choose|i: int| 0 <= i < s.drop_last().len() && s.drop_last()[i].0 == k;
            assert(s[i].0 == k);
        } else {
            assert forall|i: int| 0 <= i < s.len() implies s[i].0 != k by {
                if i < s.len() - 1 {
                    assert(s.drop_last()[i] == s[i]);
                }
            }
        }
    }
}

/// Amount a pending operation has committed on the pool's stake side:
/// bonds, additional bonds and rebonds are financed by incoming stake.
pub open spec fn stake_side_amount(req: XcmRequest) -> int {
    match req {
        XcmRequest::Bond { index, amount } => amount as int,
        XcmRequest::BondExtra { index, amount } => amount as int,
        XcmRequest::Rebond { index, amount } => amount as int,
        _ => 0,
    }
}

/// Amount a pending operation has committed on the pool's unstake side.
pub open spec fn unstake_side_amount(req: XcmRequest) -> int {
    match req {
        XcmRequest::Unbond { index, amount } => amount as int,
        _ => 0,
    }
}

/// Sum of the stake-side commitments of an entry list.
pub open spec fn stake_request_sum(s: Seq<(QueryId, XcmRequest)>) -> int
    decreases s.len(),
{
    if s.len() == 0 {
        0
    } else {
        stake_request_sum(s.drop_last()) + stake_side_amount(s.last().1)
    }
}

/// Sum of the unstake-side commitments of an entry list.
pub open spec fn unstake_request_sum(s: Seq<(QueryId, XcmRequest)>) -> int
    decreases s.len(),
{
    if s.len() == 0 {
        0
    } else {
        unstake_request_sum(s.drop_last()) + unstake_side_amount(s.last().1)
    }
}

/// Appending an entry adds its commitments to the sums.
pub proof fn lemma_request_sums_push(s: Seq<(QueryId, XcmRequest)>, e: (QueryId, XcmRequest))
    ensures
        stake_request_sum(s.push(e)) == stake_request_sum(s) + stake_side_amount(e.1),
        unstake_request_sum(s.push(e)) == unstake_request_sum(s) + unstake_side_amount(e.1),
{
    assert(s.push(e).drop_last() =~= s);
}

/// The sums split over concatenation.
pub proof fn lemma_request_sums_concat(a: Seq<(QueryId, XcmRequest)>, b: Seq<(QueryId, XcmRequest)>)
    ensures
        stake_request_sum(a + b) == stake_request_sum(a) + stake_request_sum(b),
        unstake_request_sum(a + b) == unstake_request_sum(a) + unstake_request_sum(b),
    decreases b.len(),
{
    if b.len() == 0 {
        assert(a + b =~= a);
    } else {
        lemma_request_sums_concat(a, b.drop_last());
        assert((a + b).drop_last() =~= a + b.drop_last());
        assert((a + b).last() == b.last());
    }
}

/// Pending remote operations, keyed by correlation id.
#[derive(Debug)]
pub struct XcmRequests {
    /// Association list of pending operations; ids are unique.
    pub entries: Vec<(QueryId, XcmRequest)>,
}

impl XcmRequests {
    /// No correlation id is stored twice.
    pub open spec fn wf(self) -> bool {
        forall|i: int, j: int|
            0 <= i < j < self.entries@.len() ==> self.entries@[i].0 != self.entries@[j].0
    }

    /// The tracker as a map from correlation id to pending operation.
    pub open spec fn as_map(self) -> Map<QueryId, XcmRequest> {
        seq_to_map(self.entries@)
    }

    /// An empty tracker.
    pub fn new() -> (r: Self)
        ensures
            r.wf(),
            r.as_map() == Map::<QueryId, XcmRequest>::empty(),
    {
        XcmRequests { entries: Vec::new() }
    }

    /// True when nothing is in flight.
    pub fn is_empty(&self) -> (r: bool)
        ensures
            r <==> self.as_map() =~= Map::<QueryId, XcmRequest>::empty(),
            r <==> self.entries@.len() == 0,
    {
        proof {
            if self.entries@.len() > 0 {
                lemma_seq_to_map_dom(self.entries@, self.entries@.last().0);
                assert(self.as_map().dom().contains(self.entries@.last().0));
            }
        }
        self.entries.len() == 0
    }

    /// True when `id` has a pending operation.
    pub fn contains_key(&self, id: QueryId) -> (r: bool)
        ensures
            r == self.as_map().dom().contains(id),
    {
        proof {
            lemma_seq_to_map_dom(self.entries@, id);
        }
        let n = self.entries.len();
        let mut i: usize = 0;
        while i < n
            invariant
                0 <= i <= n,
                n == self.entries@.len(),
                forall|j: int| 0 <= j < i ==> self.entries@[j].0 != id,
            decreases n - i,
        {
            if self.entries[i].0 == id {
                proof {
                    lemma_seq_to_map_dom(self.entries@, id);
                    assert(self.entries@[i as int].0 == id);
                }
                return true;
            }
            i = i + 1;
        }
        false
    }

    /// Looks a pending operation up without removing it.
    pub fn get(&self, id: QueryId) -> (r: Option<&XcmRequest>)
        requires
            self.wf(),
        ensures
            self.as_map().dom().contains(id) ==> (r matches Some(v) && *v == self.as_map()[id]),
            !self.as_map().dom().contains(id) ==> r.is_none(),
    {
        proof {
            lemma_seq_to_map_dom(self.entries@, id);
        }
        let n = self.entries.len();
        let mut i: usize = 0;
        while i < n
            invariant
                self.wf(),
                0 <= i <= n,
                n == self.entries@.len(),
                forall|j: int| 0 <= j < i ==> self.entries@[j].0 != id,
            decreases n - i,
        {
            if self.entries[i].0 == id {
                proof {
                    lemma_seq_to_map_dom(self.entries@, id);
                    assert(self.entries@[i as int].0 == id);
                    lemma_seq_to_map_index(self.entries@, i as int);
                }
                return Some(&self.entries[i].1);
            }
            i = i + 1;
        }
        None
    }

    /// Records a pending operation under a fresh correlation id, at the
    /// end of the entry list.
    pub fn insert(&mut self, id: QueryId, req: XcmRequest)
        requires
            old(self).wf(),
            !old(self).as_map().dom().contains(id),
        ensures
            final(self).wf(),
            final(self).as_map() == old(self).as_map().insert(id, req),
            final(self).entries@ == old(self).entries@.push((id, req)),
    {
        proof {
            lemma_seq_to_map_dom(self.entries@, id);
        }
        self.entries.push((id, req));
        proof {
            assert(self.entries@.drop_last() =~= old(self).entries@);
        }
    }

    /// Removes and returns the pending operation for `id`; `None` (and no
    /// change) when the id is unknown or already processed.
    pub fn take(&mut self, id: QueryId) -> (r: Option<XcmRequest>)
        requires
            old(self).wf(),
        ensures
            final(self).wf(),
            old(self).as_map().dom().contains(id) ==> r == Some(old(self).as_map()[id])
                && final(self).as_map() == old(self).as_map().remove(id),
            !old(self).as_map().dom().contains(id) ==> r.is_none() && *final(self) == *old(self),
    {
        proof {
            lemma_seq_to_map_dom(self.entries@, id);
        }
        let n = self.entries.len();
        let mut idx: usize = n;
        let mut i: usize = 0;
        while i < n
            invariant
                0 <= i <= n,
                n == self.entries@.len(),
                idx == n ==> forall|j: int| 0 <= j < i ==> self.entries@[j].0 != id,
                idx < n ==> self.entries@[idx as int].0 == id,
                idx <= n,
            decreases n - i,
        {
            if self.entries[i].0 == id {
                proof {
                    assert(self.entries@[i as int].0 == id);
                }
                idx = i;
            }
            i = i + 1;
        }
        if idx < n {
            let entry = self.entries.remove(idx);
            proof {
                lemma_seq_to_map_remove(old(self).entries@, idx as int);
            }
            Some(entry.1)
        } else {
            proof {
                assert(forall|j: int|
                    0 <= j < self.entries@.len() ==> self.entries@[j].0 != id);
            }
            None
        }
    }
}

/// In a duplicate-free list the entry at an index gives that key's value.
proof fn lemma_seq_to_map_index(s: Seq<(QueryId, XcmRequest)>, i: int)
    requires
        0 <= i < s.len(),
        forall|a: int, b: int| 0 <= a < b < s.len() ==> s[a].0 != s[b].0,
    ensures
        seq_to_map(s).dom().contains(s[i].0),
        seq_to_map(s)[s[i].0] == s[i].1,
    decreases s.len(),
{
    lemma_seq_to_map_dom(s, s[i].0);
    if i < s.len() - 1 {
        assert(forall|a: int, b: int|
            0 <= a < b < s.drop_last().len() ==> s.drop_last()[a].0 != s.drop_last()[b].0) by {
            assert(forall|a: int|
                0 <= a < s.drop_last().len() ==> #[trigger] s.drop_last()[a] == s[a]);
        }
        assert(s.drop_last()[i] == s[i]);
        lemma_seq_to_map_index(s.drop_last(), i);
        assert(s[i].0 != s.last().0);
    }
}

/// Removing the entry at `idx` from a duplicate-free list removes exactly
/// its key from the described map, and the removed entry holds that key's
/// value.
proof fn lemma_seq_to_map_remove(s: Seq<(QueryId, XcmRequest)>, idx: int)
    requires
        0 <= idx < s.len(),
        forall|i: int, j: int| 0 <= i < j < s.len() ==> s[i].0 != s[j].0,
    ensures
        seq_to_map(s.remove(idx)) == seq_to_map(s).remove(s[idx].0),
        seq_to_map(s)[s[idx].0] == s[idx].1,
        forall|i: int, j: int|
            0 <= i < j < s.remove(idx).len() ==> s.remove(idx)[i].0 != s.remove(idx)[j].0,
    decreases s.len(),
{
    let k = s[idx].0;
    lemma_seq_to_map_dom(s.drop_last(), k);
    if idx == s.len() - 1 {
        assert(s.remove(idx) =~= s.drop_last());
        assert forall|i: int| 0 <= i < s.drop_last().len() implies s.drop_last()[i].0 != k by {
            assert(s[i] == s.drop_last()[i]);
        }
        assert(!seq_to_map(s.drop_last()).dom().contains(k));
        assert(seq_to_map(s.remove(idx)) =~= seq_to_map(s).remove(k));
    } else {
        lemma_seq_to_map_remove(s.drop_last(), idx);
        assert(s.remove(idx).drop_last() =~= s.drop_last().remove(idx));
        assert(s.remove(idx).last() == s.last());
        assert(s.drop_last()[idx] == s[idx]);
        assert(seq_to_map(s.remove(idx)) == seq_to_map(s.drop_last().remove(idx)).insert(
            s.last().0,
            s.last().1,
        ));
        assert(seq_to_map(s).remove(k) =~= seq_to_map(s.drop_last()).remove(k).insert(
            s.last().0,
            s.last().1,
        ));
    }
}

} // verus!
