//! Association-list maps with a `Map` view.
//!
//! The engine's keyed state (delegate ledgers, per-depositor unlockings,
//! fast-unstake requests) lives in duplicate-free association lists whose
//! contracts speak the language of `Map`.  Updates to an existing key keep
//! the entry order, so sums over the entries stay easy to relate.

use vstd::prelude::*;
use crate::ledger::StakingLedger;
use crate::{Balance, DerivativeIndex};

verus! {

/// The map described by an association list, later entries winning.
pub open spec fn assoc_map<K, V>(s: Seq<(K, V)>) -> Map<K, V>
    decreases s.len(),
{
    if s.len() == 0 {
        Map::empty()
    } else {
        assoc_map(s.drop_last()).insert(s.last().0, s.last().1)
    }
}

/// No key occurs twice.
pub open spec fn assoc_wf<K, V>(s: Seq<(K, V)>) -> bool {
    forall|i: int, j: int| 0 <= i < j < s.len() ==> (#[trigger] s[i]).0 != (#[trigger] s[j]).0
}

/// A key is in the map exactly when some entry carries it.
pub proof fn lemma_assoc_dom<K, V>(s: Seq<(K, V)>, k: K)
    ensures
        assoc_map(s).dom().contains(k) <==> exists|i: int| 0 <= i < s.len() && (#[trigger] s[i]).0
            == k,
    decreases s.len(),
{
    if s.len() > 0 {
        lemma_assoc_dom(s.drop_last(), k);
        if s.last().0 == k {
            assert((s[s.len() - 1]).0 == k);
        } else if assoc_map(s).dom().contains(k) {
            let i = choose|i: int|
                0 <= i < s.drop_last().len() && (#[trigger] s.drop_last()[i]).0 == k;
            assert((s[i]).0 == k);
        } else {
            assert forall|i: int| 0 <= i < s.len() implies (#[trigger] s[i]).0 != k by {
                if i < s.len() - 1 {
                    assert(s.drop_last()[i] == s[i]);
                }
            }
        }
    }
}

/// In a duplicate-free list, the entry at an index gives that key's value.
pub proof fn lemma_assoc_index<K, V>(s: Seq<(K, V)>, i: int)
    requires
        assoc_wf(s),
        0 <= i < s.len(),
    ensures
        assoc_map(s).dom().contains((s[i]).0),
        assoc_map(s)[(s[i]).0] == (s[i]).1,
    decreases s.len(),
{
    if i == s.len() - 1 {
        lemma_assoc_dom(s, (s[i]).0);
    } else {
        assert(assoc_wf(s.drop_last())) by {
            assert(forall|a: int, b: int|
                0 <= a < b < s.drop_last().len() ==> (#[trigger] s.drop_last()[a]).0 != (
                #[trigger] s.drop_last()[b]).0) by {
                assert(forall|a: int|
                    0 <= a < s.drop_last().len() ==> #[trigger] s.drop_last()[a] == s[a]);
            }
        }
        assert(s.drop_last()[i] == s[i]);
        lemma_assoc_index(s.drop_last(), i);
        assert((s[i]).0 != s.last().0);
    }
}

/// Replacing the entry at an index updates exactly that key.
pub proof fn lemma_assoc_update<K, V>(s: Seq<(K, V)>, i: int, v: V)
    requires
        assoc_wf(s),
        0 <= i < s.len(),
    ensures
        assoc_map(s.update(i, ((s[i]).0, v))) == assoc_map(s).insert((s[i]).0, v),
        assoc_wf(s.update(i, ((s[i]).0, v))),
    decreases s.len(),
{
    let k = (s[i]).0;
    let t = s.update(i, (k, v));
    assert(assoc_wf(t)) by {
        assert(forall|a: int| 0 <= a < s.len() ==> ((#[trigger] t[a]).0 == (s[a]).0));
    }
    if i == s.len() - 1 {
        assert(t.drop_last() =~= s.drop_last());
        assert(t.last() == (k, v));
    } else {
        assert(assoc_wf(s.drop_last())) by {
            assert(forall|a: int|
                0 <= a < s.drop_last().len() ==> #[trigger] s.drop_last()[a] == s[a]);
        }
        assert(s.drop_last()[i] == s[i]);
        lemma_assoc_update(s.drop_last(), i, v);
        assert(t.drop_last() =~= s.drop_last().update(i, (k, v)));
        assert(t.last() == s.last());
        assert((s.last()).0 != k);
        assert(assoc_map(t) == assoc_map(s.drop_last()).insert(k, v).insert(
            (s.last()).0,
            (s.last()).1,
        ));
        assert(assoc_map(s).insert(k, v) =~= assoc_map(s.drop_last()).insert(k, v).insert(
            (s.last()).0,
            (s.last()).1,
        ));
    }
}

/// Appending a fresh key inserts it into the map.
pub proof fn lemma_assoc_push<K, V>(s: Seq<(K, V)>, k: K, v: V)
    requires
        assoc_wf(s),
        !assoc_map(s).dom().contains(k),
    ensures
        assoc_map(s.push((k, v))) == assoc_map(s).insert(k, v),
        assoc_wf(s.push((k, v))),
{
    lemma_assoc_dom(s, k);
    assert(s.push((k, v)).drop_last() =~= s);
    assert(forall|a: int| 0 <= a < s.len() ==> #[trigger] s.push((k, v))[a] == s[a]);
}

/// Values keyed by account, as a duplicate-free association list.
#[derive(Debug)]
pub struct KvVec<V> {
    /// The entries; keys are unique.
    pub entries: Vec<(u64, V)>,
}

impl<V> KvVec<V> {
    /// No key occurs twice.
    pub open spec fn wf(self) -> bool {
        assoc_wf(self.entries@)
    }

    /// The store as a map.
    pub open spec fn as_map(self) -> Map<u64, V> {
        assoc_map(self.entries@)
    }

    /// An empty store.
    pub fn new() -> (r: Self)
        ensures
            r.wf(),
            r.as_map() == Map::<u64, V>::empty(),
            r.entries@.len() == 0,
    {
        KvVec { entries: Vec::new() }
    }

    /// Index of the entry carrying `k`, or the length when absent.
    pub fn position(&self, k: u64) -> (r: usize)
        ensures
            r <= self.entries@.len(),
            r < self.entries@.len() ==> (self.entries@[r as int]).0 == k && self.as_map(
            ).dom().contains(k),
            r == self.entries@.len() ==> !self.as_map().dom().contains(k),
    {
        proof {
            lemma_assoc_dom(self.entries@, k);
        }
        let n = self.entries.len();
        let mut i: usize = 0;
        while i < n
            invariant
                0 <= i <= n,
                n == self.entries@.len(),
                forall|j: int| 0 <= j < i ==> (#[trigger] self.entries@[j]).0 != k,
            decreases n - i,
        {
            if self.entries[i].0 == k {
                proof {
                    lemma_assoc_dom(self.entries@, k);
                    assert((self.entries@[i as int]).0 == k);
                }
                return i;
            }
            i = i + 1;
        }
        i
    }

    /// True when the store has a value for `k`.
    pub fn contains_key(&self, k: u64) -> (r: bool)
        ensures
            r == self.as_map().dom().contains(k),
    {
        let pos = self.position(k);
        pos < self.entries.len()
    }

    /// Looks a key up.
    pub fn get(&self, k: u64) -> (r: Option<&V>)
        requires
            self.wf(),
        ensures
            self.as_map().dom().contains(k) ==> (r matches Some(v) && *v == self.as_map()[k]),
            !self.as_map().dom().contains(k) ==> r.is_none(),
    {
        let pos = self.position(k);
        if pos < self.entries.len() {
            proof {
                lemma_assoc_index(self.entries@, pos as int);
            }
            Some(&self.entries[pos].1)
        } else {
            None
        }
    }

    /// Inserts or replaces the value for `k`; an existing entry keeps its
    /// place in the list.
    pub fn upsert(&mut self, k: u64, v: V)
        requires
            old(self).wf(),
        ensures
            final(self).wf(),
            final(self).as_map() == old(self).as_map().insert(k, v),
    {
        let pos = self.position(k);
        if pos < self.entries.len() {
            proof {
                lemma_assoc_update(self.entries@, pos as int, v);
            }
            self.entries.set(pos, (k, v));
        } else {
            proof {
                lemma_assoc_push(self.entries@, k, v);
            }
            self.entries.push((k, v));
        }
    }

    /// Removes and returns the value for `k`, if any.
    pub fn remove_key(&mut self, k: u64) -> (r: Option<V>)
        requires
            old(self).wf(),
        ensures
            final(self).wf(),
            old(self).as_map().dom().contains(k) ==> (r matches Some(v) && v == old(
                self,
            ).as_map()[k] && final(self).as_map() == old(self).as_map().remove(k)),
            !old(self).as_map().dom().contains(k) ==> r.is_none() && *final(self) == *old(self),
    {
        let pos = self.position(k);
        if pos < self.entries.len() {
            proof {
                lemma_assoc_remove(self.entries@, pos as int);
            }
            let entry = self.entries.remove(pos);
            Some(entry.1)
        } else {
            None
        }
    }
}

/// Removing the entry at `idx` removes exactly its key from the map.
pub proof fn lemma_assoc_remove<K, V>(s: Seq<(K, V)>, idx: int)
    requires
        assoc_wf(s),
        0 <= idx < s.len(),
    ensures
        assoc_map(s.remove(idx)) == assoc_map(s).remove((s[idx]).0),
        assoc_map(s)[(s[idx]).0] == (s[idx]).1,
        assoc_wf(s.remove(idx)),
    decreases s.len(),
{
    let k = (s[idx]).0;
    lemma_assoc_index(s, idx);
    assert(assoc_wf(s.remove(idx))) by {
        assert(forall|a: int|
            0 <= a < s.remove(idx).len() ==> #[trigger] s.remove(idx)[a] == if a < idx {
                s[a]
            } else {
                s[a + 1]
            });
    }
    assert(assoc_wf(s.drop_last())) by {
        assert(forall|a: int| 0 <= a < s.drop_last().len() ==> #[trigger] s.drop_last()[a] == s[a]);
    }
    lemma_assoc_dom(s.drop_last(), k);
    if idx == s.len() - 1 {
        assert(s.remove(idx) =~= s.drop_last());
        assert(!assoc_map(s.drop_last()).dom().contains(k));
        assert(assoc_map(s.remove(idx)) =~= assoc_map(s).remove(k));
    } else {
        lemma_assoc_remove(s.drop_last(), idx);
        assert(s.remove(idx).drop_last() =~= s.drop_last().remove(idx));
        assert(s.remove(idx).last() == s.last());
        assert(s.drop_last()[idx] == s[idx]);
        assert(assoc_map(s.remove(idx)) == assoc_map(s.drop_last().remove(idx)).insert(
            (s.last()).0,
            (s.last()).1,
        ));
        assert(assoc_map(s).remove(k) =~= assoc_map(s.drop_last()).remove(k).insert(
            (s.last()).0,
            (s.last()).1,
        ));
    }
}

/// Sum of the ledgers' total balances of an entry list.
pub open spec fn ledgers_total_sum(s: Seq<(DerivativeIndex, StakingLedger)>) -> int
    decreases s.len(),
{
    if s.len() == 0 {
        0
    } else {
        ledgers_total_sum(s.drop_last()) + (s.last()).1.total
    }
}

/// Sum of the ledgers' active balances of an entry list.
pub open spec fn ledgers_active_sum(s: Seq<(DerivativeIndex, StakingLedger)>) -> int
    decreases s.len(),
{
    if s.len() == 0 {
        0
    } else {
        ledgers_active_sum(s.drop_last()) + (s.last()).1.active
    }
}

pub proof fn lemma_ledgers_sums_nonneg(s: Seq<(DerivativeIndex, StakingLedger)>)
    ensures
        ledgers_total_sum(s) >= 0,
        ledgers_active_sum(s) >= 0,
    decreases s.len(),
{
    if s.len() > 0 {
        lemma_ledgers_sums_nonneg(s.drop_last());
    }
}

/// Stepping a prefix forward by one entry adds that ledger's balances.
pub proof fn lemma_ledgers_sums_take_step(s: Seq<(DerivativeIndex, StakingLedger)>, i: int)
    requires
        0 <= i < s.len(),
    ensures
        ledgers_total_sum(s.take(i + 1)) == ledgers_total_sum(s.take(i)) + (s[i]).1.total,
        ledgers_active_sum(s.take(i + 1)) == ledgers_active_sum(s.take(i)) + (s[i]).1.active,
{
    assert(s.take(i + 1).drop_last() =~= s.take(i));
    assert(s.take(i + 1).last() == s[i]);
}

/// Delegate ledgers keyed by derivative index.
#[derive(Debug)]
pub struct LedgerStore {
    /// The entries; indexes are unique.
    pub entries: Vec<(DerivativeIndex, StakingLedger)>,
}

impl LedgerStore {
    /// No index occurs twice.
    pub open spec fn wf(self) -> bool {
        assoc_wf(self.entries@)
    }

    /// The store as a map.
    pub open spec fn as_map(self) -> Map<DerivativeIndex, StakingLedger> {
        assoc_map(self.entries@)
    }

    /// An empty store.
    pub fn new() -> (r: Self)
        ensures
            r.wf(),
            r.as_map() == Map::<DerivativeIndex, StakingLedger>::empty(),
            r.entries@.len() == 0,
    {
        LedgerStore { entries: Vec::new() }
    }

    /// Index of the entry carrying `k`, or the length when absent.
    pub fn position(&self, k: DerivativeIndex) -> (r: usize)
        ensures
            r <= self.entries@.len(),
            r < self.entries@.len() ==> (self.entries@[r as int]).0 == k && self.as_map(
            ).dom().contains(k),
            r == self.entries@.len() ==> !self.as_map().dom().contains(k),
    {
        proof {
            lemma_assoc_dom(self.entries@, k);
        }
        let n = self.entries.len();
        let mut i: usize = 0;
        while i < n
            invariant
                0 <= i <= n,
                n == self.entries@.len(),
                forall|j: int| 0 <= j < i ==> (#[trigger] self.entries@[j]).0 != k,
            decreases n - i,
        {
            if self.entries[i].0 == k {
                proof {
                    lemma_assoc_dom(self.entries@, k);
                    assert((self.entries@[i as int]).0 == k);
                }
                return i;
            }
            i = i + 1;
        }
        i
    }

    /// True when the delegate has a ledger.
    pub fn contains_key(&self, k: DerivativeIndex) -> (r: bool)
        ensures
            r == self.as_map().dom().contains(k),
    {
        let pos = self.position(k);
        pos < self.entries.len()
    }

    /// Inserts or replaces a delegate's ledger; an existing entry keeps
    /// its place in the list.
    pub fn upsert(&mut self, k: DerivativeIndex, v: StakingLedger)
        requires
            old(self).wf(),
        ensures
            final(self).wf(),
            final(self).as_map() == old(self).as_map().insert(k, v),
            old(self).as_map().dom().contains(k) ==> exists|pos: int|
                0 <= pos < old(self).entries@.len() && (#[trigger] old(self).entries@[pos]).0 == k
                    && final(self).entries@ == old(self).entries@.update(pos, (k, v)),
            !old(self).as_map().dom().contains(k) ==> final(self).entries@ == old(
                self,
            ).entries@.push((k, v)),
    {
        let pos = self.position(k);
        if pos < self.entries.len() {
            proof {
                lemma_assoc_update(self.entries@, pos as int, v);
            }
            self.entries.set(pos, (k, v));
        } else {
            proof {
                lemma_assoc_push(self.entries@, k, v);
            }
            self.entries.push((k, v));
        }
    }

    /// Looks a delegate's ledger up.
    pub fn get(&self, k: DerivativeIndex) -> (r: Option<&StakingLedger>)
        requires
            self.wf(),
        ensures
            self.as_map().dom().contains(k) ==> (r matches Some(v) && *v == self.as_map()[k]),
            !self.as_map().dom().contains(k) ==> r.is_none(),
    {
        let pos = self.position(k);
        if pos < self.entries.len() {
            proof {
                lemma_assoc_index(self.entries@, pos as int);
            }
            Some(&self.entries[pos].1)
        } else {
            None
        }
    }
}

} // verus!
