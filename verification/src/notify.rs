//! Confirmation processing and externally proven ledger updates.
//!
//! Each remote operation stays tracked until its confirmation arrives.  A
//! successful confirmation applies the recorded mutation to the targeted
//! delegate ledger and consolidates the matching pool's lock, exactly
//! once; the entry is then removed.  A failed confirmation drops the
//! entry without applying its effect — the locked amounts deliberately
//! stay locked.  Ledger snapshots proven against the admitted relay state
//! root may also overwrite a ledger wholesale, at most once per round.

use vstd::prelude::*;
use crate::kv::lemma_assoc_index;
use crate::ledger::{
    kept_chunks, matured_sum, rebond_chunks, unlocking_sum, StakingLedger, UnlockChunk,
};
use crate::matching::{spec_consolidate_stake, spec_consolidate_unstake, MatchingLedger};
use crate::pallet::Pallet;
use crate::rate::{mul_rate_floor, RATE_ONE};
use crate::requests::XcmRequest;
use crate::{Balance, DerivativeIndex, Error, QueryId, MAX_UNLOCKING_CHUNKS};

verus! {

/// Asset movement a processed confirmation asks the runtime to perform.
#[derive(Clone, Copy, Debug, PartialEq, Eq, Structural)]
pub enum NotificationEffect {
    /// Burn base asset from the pool account: it is now bonded remotely.
    BurnStaking { amount: Balance },
    /// Mint base asset into the pool account: it was withdrawn remotely.
    MintStaking { amount: Balance },
}

impl Pallet {
    /// Delivers the outcome of the remote operation tracked under
    /// `query_id`.  An unknown id is a no-op: the confirmation was
    /// already processed or never existed.  A failure outcome drops the
    /// pending entry without applying it.  A success outcome applies the
    /// recorded ledger mutation and consolidates the pool, exactly once.
    pub fn notification_received(&mut self, query_id: QueryId, success: bool) -> (r: Result<
        Option<NotificationEffect>,
        Error,
    >)
        requires
            old(self).inv(),
        ensures
            final(self).inv(),
            r.is_err() ==> *final(self) == *old(self),
            !old(self).xcm_requests.as_map().dom().contains(query_id) ==> r == Ok::<
                Option<NotificationEffect>,
                Error,
            >(None) && *final(self) == *old(self),
            old(self).xcm_requests.as_map().dom().contains(query_id) && !success ==> r == Ok::<
                Option<NotificationEffect>,
                Error,
            >(None) && *final(self) == (Pallet {
                xcm_requests: final(self).xcm_requests,
                ..*old(self)
            }) && final(self).xcm_requests.as_map() == old(self).xcm_requests.as_map().remove(
                query_id,
            ),
            old(self).xcm_requests.as_map().dom().contains(query_id) && success ==> ({
                let req = old(self).xcm_requests.as_map()[query_id];
                &&& (req matches XcmRequest::Bond { index, amount } ==> final(self).bond_confirmed_post(
                    *old(self),
                    query_id,
                    index,
                    amount,
                    r,
                ))
                &&& (req matches XcmRequest::BondExtra { index, amount }
                    ==> final(self).bond_extra_confirmed_post(*old(self), query_id, index, amount, r))
                &&& (req matches XcmRequest::Unbond { index, amount }
                    ==> final(self).unbond_confirmed_post(*old(self), query_id, index, amount, r))
                &&& (req matches XcmRequest::Rebond { index, amount }
                    ==> final(self).rebond_confirmed_post(*old(self), query_id, index, amount, r))
                &&& (req matches XcmRequest::WithdrawUnbonded { index, num_slashing_spans }
                    ==> final(self).withdraw_confirmed_post(*old(self), query_id, index, r))
                &&& (req matches XcmRequest::Nominate { index, targets } ==> r == Ok::<
                    Option<NotificationEffect>,
                    Error,
                >(None) && *final(self) == (Pallet {
                    xcm_requests: final(self).xcm_requests,
                    ..*old(self)
                }) && final(self).xcm_requests.as_map() == old(self).xcm_requests.as_map().remove(
                    query_id,
                ))
            }),
    {
        let (index, amount, kind) = match self.xcm_requests.get(query_id) {
            Some(req) => match req {
                XcmRequest::Bond { index, amount } => (*index, *amount, 0u8),
                XcmRequest::BondExtra { index, amount } => (*index, *amount, 1u8),
                XcmRequest::Unbond { index, amount } => (*index, *amount, 2u8),
                XcmRequest::Rebond { index, amount } => (*index, *amount, 3u8),
                XcmRequest::WithdrawUnbonded { index, .. } => (*index, 0u128, 4u8),
                XcmRequest::Nominate { index, .. } => (*index, 0u128, 5u8),
            },
            None => {
                return Ok(None);
            },
        };
        if !success {
            let _ = self.xcm_requests.take(query_id);
            return Ok(None);
        }
        if kind == 0 {
            self.apply_bond_confirmed(query_id, index, amount)
        } else if kind == 1 {
            self.apply_bond_extra_confirmed(query_id, index, amount)
        } else if kind == 2 {
            self.apply_unbond_confirmed(query_id, index, amount)
        } else if kind == 3 {
            self.apply_rebond_confirmed(query_id, index, amount)
        } else if kind == 4 {
            self.apply_withdraw_confirmed(query_id, index)
        } else {
            let _ = self.xcm_requests.take(query_id);
            Ok(None)
        }
    }

    /// State after a confirmed first bond: a fresh all-active ledger for
    /// the delegate, the bonded amount consolidated out of the pool's
    /// stake side, and the entry gone.
    pub open spec fn bond_confirmed_post(
        self,
        pre: Pallet,
        query_id: QueryId,
        index: DerivativeIndex,
        amount: Balance,
        r: Result<Option<NotificationEffect>, Error>,
    ) -> bool {
        &&& pre.staking_ledgers.as_map().dom().contains(index) ==> r == Err::<
            Option<NotificationEffect>,
            Error,
        >(Error::AlreadyBonded)
        &&& !pre.staking_ledgers.as_map().dom().contains(index)
            && !pre.params.derivative_index_list@.contains(index) ==> r == Err::<
            Option<NotificationEffect>,
            Error,
        >(Error::InvalidDerivativeIndex)
        &&& !pre.staking_ledgers.as_map().dom().contains(index)
            && pre.params.derivative_index_list@.contains(index) && amount
            > pre.matching_pool.total_stake_amount.locked ==> r == Err::<
            Option<NotificationEffect>,
            Error,
        >(Error::ArithmeticUnderflow)
        &&& !pre.staking_ledgers.as_map().dom().contains(index)
            && pre.params.derivative_index_list@.contains(index) && amount
            <= pre.matching_pool.total_stake_amount.locked ==> {
            &&& r == Ok::<Option<NotificationEffect>, Error>(
                Some(NotificationEffect::BurnStaking { amount }),
            )
            &&& self == (Pallet {
                staking_ledgers: self.staking_ledgers,
                matching_pool: spec_consolidate_stake(pre.matching_pool, amount),
                xcm_requests: self.xcm_requests,
                ..pre
            })
            &&& self.staking_ledgers.as_map() == pre.staking_ledgers.as_map().insert(
                index,
                self.staking_ledgers.as_map()[index],
            )
            &&& self.staking_ledgers.as_map()[index].total == amount
            &&& self.staking_ledgers.as_map()[index].active == amount
            &&& self.staking_ledgers.as_map()[index].unlocking@.len() == 0
            &&& self.xcm_requests.as_map() == pre.xcm_requests.as_map().remove(query_id)
        }
    }

    fn apply_bond_confirmed(
        &mut self,
        query_id: QueryId,
        index: DerivativeIndex,
        amount: Balance,
    ) -> (r: Result<Option<NotificationEffect>, Error>)
        requires
            old(self).inv(),
            old(self).xcm_requests.as_map().dom().contains(query_id),
        ensures
            final(self).inv(),
            r.is_err() ==> *final(self) == *old(self),
            final(self).bond_confirmed_post(*old(self), query_id, index, amount, r),
    {
        if self.staking_ledgers.contains_key(index) {
            return Err(Error::AlreadyBonded);
        }
        let stash = match self.derivative_sovereign_account_id(index) {
            Some(a) => a,
            None => {
                return Err(Error::InvalidDerivativeIndex);
            },
        };
        if amount > self.matching_pool.total_stake_amount.locked {
            return Err(Error::ArithmeticUnderflow);
        }
        let ledger = StakingLedger::new(stash, amount);
        self.staking_ledgers.upsert(index, ledger);
        let pool_res = self.matching_pool.consolidate_stake(amount);
        proof {
            assert(pool_res.is_ok());
        }
        let _ = self.xcm_requests.take(query_id);
        proof {
            assert forall|i: int| 0 <= i < self.staking_ledgers.entries@.len() implies (
            #[trigger] self.staking_ledgers.entries@[i]).1.wf()
                && self.params.derivative_index_list@.contains(
                (self.staking_ledgers.entries@[i]).0,
            ) by {
                if i < self.staking_ledgers.entries@.len() - 1 {
                    assert(self.staking_ledgers.entries@[i] == old(
                        self,
                    ).staking_ledgers.entries@[i]);
                }
            }
        }
        Ok(Some(NotificationEffect::BurnStaking { amount }))
    }

    /// State after a confirmed additional bond: the delegate's total and
    /// active grew by the amount, which also left the pool's stake side.
    pub open spec fn bond_extra_confirmed_post(
        self,
        pre: Pallet,
        query_id: QueryId,
        index: DerivativeIndex,
        amount: Balance,
        r: Result<Option<NotificationEffect>, Error>,
    ) -> bool {
        &&& !pre.staking_ledgers.as_map().dom().contains(index) ==> r == Err::<
            Option<NotificationEffect>,
            Error,
        >(Error::NotBonded)
        &&& pre.staking_ledgers.as_map().dom().contains(index)
            && pre.staking_ledgers.as_map()[index].total + amount > u128::MAX as int ==> r
            == Err::<Option<NotificationEffect>, Error>(Error::ArithmeticOverflow)
        &&& pre.staking_ledgers.as_map().dom().contains(index)
            && pre.staking_ledgers.as_map()[index].total + amount <= u128::MAX as int && amount
            > pre.matching_pool.total_stake_amount.locked ==> r == Err::<
            Option<NotificationEffect>,
            Error,
        >(Error::ArithmeticUnderflow)
        &&& pre.staking_ledgers.as_map().dom().contains(index)
            && pre.staking_ledgers.as_map()[index].total + amount <= u128::MAX as int && amount
            <= pre.matching_pool.total_stake_amount.locked ==> {
            &&& r == Ok::<Option<NotificationEffect>, Error>(
                Some(NotificationEffect::BurnStaking { amount }),
            )
            &&& self == (Pallet {
                staking_ledgers: self.staking_ledgers,
                matching_pool: spec_consolidate_stake(pre.matching_pool, amount),
                xcm_requests: self.xcm_requests,
                is_updated: self.is_updated,
                ..pre
            })
            &&& self.staking_ledgers.as_map() == pre.staking_ledgers.as_map().insert(
                index,
                self.staking_ledgers.as_map()[index],
            )
            &&& self.staking_ledgers.as_map()[index].total == pre.staking_ledgers.as_map()[index].total
                + amount
            &&& self.staking_ledgers.as_map()[index].active == pre.staking_ledgers.as_map()[index].active
                + amount
            &&& self.staking_ledgers.as_map()[index].unlocking@
                == pre.staking_ledgers.as_map()[index].unlocking@
            &&& self.xcm_requests.as_map() == pre.xcm_requests.as_map().remove(query_id)
            &&& self.is_updated@ == pre.is_updated@.push(index)
        }
    }

    fn apply_bond_extra_confirmed(
        &mut self,
        query_id: QueryId,
        index: DerivativeIndex,
        amount: Balance,
    ) -> (r: Result<Option<NotificationEffect>, Error>)
        requires
            old(self).inv(),
            old(self).xcm_requests.as_map().dom().contains(query_id),
        ensures
            final(self).inv(),
            r.is_err() ==> *final(self) == *old(self),
            final(self).bond_extra_confirmed_post(*old(self), query_id, index, amount, r),
    {
        let pos = self.staking_ledgers.position(index);
        if pos >= self.staking_ledgers.entries.len() {
            return Err(Error::NotBonded);
        }
        proof {
            lemma_assoc_index(self.staking_ledgers.entries@, pos as int);
        }
        if amount > u128::MAX - self.staking_ledgers.entries[pos].1.total {
            return Err(Error::ArithmeticOverflow);
        }
        if amount > self.matching_pool.total_stake_amount.locked {
            return Err(Error::ArithmeticUnderflow);
        }
        let mut entry = self.staking_ledgers.entries.remove(pos);
        let led_res = entry.1.bond_extra(amount);
        proof {
            assert(led_res.is_ok());
        }
        self.staking_ledgers.entries.insert(pos, entry);
        proof {
            self.lemma_ledgers_entry_replaced(*old(self), pos as int, index);
        }
        let pool_res = self.matching_pool.consolidate_stake(amount);
        proof {
            assert(pool_res.is_ok());
        }
        let _ = self.xcm_requests.take(query_id);
        self.mark_updated(index);
        Ok(Some(NotificationEffect::BurnStaking { amount }))
    }

    /// State after a confirmed unbond: the amount moved from the
    /// delegate's active bond into an unlock chunk one bonding duration
    /// ahead, and left the pool's unstake side.
    pub open spec fn unbond_confirmed_post(
        self,
        pre: Pallet,
        query_id: QueryId,
        index: DerivativeIndex,
        amount: Balance,
        r: Result<Option<NotificationEffect>, Error>,
    ) -> bool {
        let target = if pre.current_era + pre.params.bonding_duration <= u32::MAX as int {
            (pre.current_era + pre.params.bonding_duration) as u32
        } else {
            u32::MAX
        };
        let l = pre.staking_ledgers.as_map()[index];
        let merge = l.unlocking@.len() > 0 && l.unlocking@.last().era == target;
        &&& !pre.staking_ledgers.as_map().dom().contains(index) ==> r == Err::<
            Option<NotificationEffect>,
            Error,
        >(Error::NotBonded)
        &&& pre.staking_ledgers.as_map().dom().contains(index) && amount > l.active ==> r == Err::<
            Option<NotificationEffect>,
            Error,
        >(Error::ArithmeticUnderflow)
        &&& pre.staking_ledgers.as_map().dom().contains(index) && amount <= l.active && !merge
            && l.unlocking@.len() >= MAX_UNLOCKING_CHUNKS ==> r == Err::<
            Option<NotificationEffect>,
            Error,
        >(Error::NoMoreChunks)
        &&& pre.staking_ledgers.as_map().dom().contains(index) && amount <= l.active && (merge
            || l.unlocking@.len() < MAX_UNLOCKING_CHUNKS) && amount
            > pre.matching_pool.total_unstake_amount.locked ==> r == Err::<
            Option<NotificationEffect>,
            Error,
        >(Error::ArithmeticUnderflow)
        &&& pre.staking_ledgers.as_map().dom().contains(index) && amount <= l.active && (merge
            || l.unlocking@.len() < MAX_UNLOCKING_CHUNKS) && amount
            <= pre.matching_pool.total_unstake_amount.locked ==> {
            &&& r == Ok::<Option<NotificationEffect>, Error>(None)
            &&& self == (Pallet {
                staking_ledgers: self.staking_ledgers,
                matching_pool: spec_consolidate_unstake(pre.matching_pool, amount),
                xcm_requests: self.xcm_requests,
                is_updated: self.is_updated,
                ..pre
            })
            &&& self.staking_ledgers.as_map() == pre.staking_ledgers.as_map().insert(
                index,
                self.staking_ledgers.as_map()[index],
            )
            &&& self.staking_ledgers.as_map()[index].total == l.total
            &&& self.staking_ledgers.as_map()[index].active == l.active - amount
            &&& self.staking_ledgers.as_map()[index].unlocking@
                == Pallet::scheduled_chunks(l.unlocking@, amount, target)
            &&& self.xcm_requests.as_map() == pre.xcm_requests.as_map().remove(query_id)
            &&& self.is_updated@ == pre.is_updated@.push(index)
        }
    }

    fn apply_unbond_confirmed(
        &mut self,
        query_id: QueryId,
        index: DerivativeIndex,
        amount: Balance,
    ) -> (r: Result<Option<NotificationEffect>, Error>)
        requires
            old(self).inv(),
            old(self).xcm_requests.as_map().dom().contains(query_id),
        ensures
            final(self).inv(),
            r.is_err() ==> *final(self) == *old(self),
            final(self).unbond_confirmed_post(*old(self), query_id, index, amount, r),
    {
        let target = if self.params.bonding_duration <= u32::MAX - self.current_era {
            self.current_era + self.params.bonding_duration
        } else {
            u32::MAX
        };
        let pos = self.staking_ledgers.position(index);
        if pos >= self.staking_ledgers.entries.len() {
            return Err(Error::NotBonded);
        }
        proof {
            lemma_assoc_index(self.staking_ledgers.entries@, pos as int);
        }
        let n = self.staking_ledgers.entries[pos].1.unlocking.len();
        if amount > self.staking_ledgers.entries[pos].1.active {
            return Err(Error::ArithmeticUnderflow);
        }
        let merge = n > 0 && self.staking_ledgers.entries[pos].1.unlocking[n - 1].era == target;
        if !merge && n >= MAX_UNLOCKING_CHUNKS {
            return Err(Error::NoMoreChunks);
        }
        if amount > self.matching_pool.total_unstake_amount.locked {
            return Err(Error::ArithmeticUnderflow);
        }
        let mut entry = self.staking_ledgers.entries.remove(pos);
        let led_res = entry.1.unbond(amount, target);
        proof {
            assert(led_res.is_ok());
        }
        self.staking_ledgers.entries.insert(pos, entry);
        proof {
            self.lemma_ledgers_entry_replaced(*old(self), pos as int, index);
        }
        let pool_res = self.matching_pool.consolidate_unstake(amount);
        proof {
            assert(pool_res.is_ok());
        }
        let _ = self.xcm_requests.take(query_id);
        self.mark_updated(index);
        Ok(None)
    }

    /// State after a confirmed rebond: up to the amount moved back from
    /// the tail of the delegate's unlocking schedule into its active
    /// bond, and the requested amount left the pool's stake side.
    pub open spec fn rebond_confirmed_post(
        self,
        pre: Pallet,
        query_id: QueryId,
        index: DerivativeIndex,
        amount: Balance,
        r: Result<Option<NotificationEffect>, Error>,
    ) -> bool {
        let l = pre.staking_ledgers.as_map()[index];
        &&& !pre.staking_ledgers.as_map().dom().contains(index) ==> r == Err::<
            Option<NotificationEffect>,
            Error,
        >(Error::NotBonded)
        &&& pre.staking_ledgers.as_map().dom().contains(index) && amount
            > pre.matching_pool.total_stake_amount.locked ==> r == Err::<
            Option<NotificationEffect>,
            Error,
        >(Error::ArithmeticUnderflow)
        &&& pre.staking_ledgers.as_map().dom().contains(index) && amount
            <= pre.matching_pool.total_stake_amount.locked ==> {
            &&& r == Ok::<Option<NotificationEffect>, Error>(None)
            &&& self == (Pallet {
                staking_ledgers: self.staking_ledgers,
                matching_pool: spec_consolidate_stake(pre.matching_pool, amount),
                xcm_requests: self.xcm_requests,
                is_updated: self.is_updated,
                ..pre
            })
            &&& self.staking_ledgers.as_map() == pre.staking_ledgers.as_map().insert(
                index,
                self.staking_ledgers.as_map()[index],
            )
            &&& self.staking_ledgers.as_map()[index].total == l.total
            &&& self.staking_ledgers.as_map()[index].unlocking@ == rebond_chunks(
                l.unlocking@,
                amount as int,
            )
            &&& self.staking_ledgers.as_map()[index].active as int == l.active + (unlocking_sum(
                l.unlocking@,
            ) - unlocking_sum(self.staking_ledgers.as_map()[index].unlocking@))
            &&& self.xcm_requests.as_map() == pre.xcm_requests.as_map().remove(query_id)
            &&& self.is_updated@ == pre.is_updated@.push(index)
        }
    }

    fn apply_rebond_confirmed(
        &mut self,
        query_id: QueryId,
        index: DerivativeIndex,
        amount: Balance,
    ) -> (r: Result<Option<NotificationEffect>, Error>)
        requires
            old(self).inv(),
            old(self).xcm_requests.as_map().dom().contains(query_id),
        ensures
            final(self).inv(),
            r.is_err() ==> *final(self) == *old(self),
            final(self).rebond_confirmed_post(*old(self), query_id, index, amount, r),
    {
        let pos = self.staking_ledgers.position(index);
        if pos >= self.staking_ledgers.entries.len() {
            return Err(Error::NotBonded);
        }
        proof {
            lemma_assoc_index(self.staking_ledgers.entries@, pos as int);
        }
        if amount > self.matching_pool.total_stake_amount.locked {
            return Err(Error::ArithmeticUnderflow);
        }
        let mut entry = self.staking_ledgers.entries.remove(pos);
        entry.1.rebond(amount);
        self.staking_ledgers.entries.insert(pos, entry);
        proof {
            self.lemma_ledgers_entry_replaced(*old(self), pos as int, index);
        }
        let pool_res = self.matching_pool.consolidate_stake(amount);
        proof {
            assert(pool_res.is_ok());
        }
        let _ = self.xcm_requests.take(query_id);
        self.mark_updated(index);
        Ok(None)
    }

    /// State after a confirmed withdrawal: every chunk matured at the
    /// current era left the delegate's ledger and its total, and that
    /// sum is minted back into the pool account.
    pub open spec fn withdraw_confirmed_post(
        self,
        pre: Pallet,
        query_id: QueryId,
        index: DerivativeIndex,
        r: Result<Option<NotificationEffect>, Error>,
    ) -> bool {
        let l = pre.staking_ledgers.as_map()[index];
        let withdrawn = matured_sum(l.unlocking@, pre.current_era);
        &&& !pre.staking_ledgers.as_map().dom().contains(index) ==> r == Err::<
            Option<NotificationEffect>,
            Error,
        >(Error::NotBonded)
        &&& pre.staking_ledgers.as_map().dom().contains(index) ==> {
            &&& r == Ok::<Option<NotificationEffect>, Error>(
                Some(NotificationEffect::MintStaking { amount: withdrawn as u128 }),
            )
            &&& self == (Pallet {
                staking_ledgers: self.staking_ledgers,
                xcm_requests: self.xcm_requests,
                is_updated: self.is_updated,
                ..pre
            })
            &&& self.staking_ledgers.as_map() == pre.staking_ledgers.as_map().insert(
                index,
                self.staking_ledgers.as_map()[index],
            )
            &&& self.staking_ledgers.as_map()[index].total as int == l.total - withdrawn
            &&& self.staking_ledgers.as_map()[index].active == l.active
            &&& self.staking_ledgers.as_map()[index].unlocking@ == kept_chunks(
                l.unlocking@,
                pre.current_era,
            )
            &&& self.xcm_requests.as_map() == pre.xcm_requests.as_map().remove(query_id)
            &&& self.is_updated@ == pre.is_updated@.push(index)
        }
    }

    fn apply_withdraw_confirmed(&mut self, query_id: QueryId, index: DerivativeIndex) -> (r: Result<
        Option<NotificationEffect>,
        Error,
    >)
        requires
            old(self).inv(),
            old(self).xcm_requests.as_map().dom().contains(query_id),
        ensures
            final(self).inv(),
            r.is_err() ==> *final(self) == *old(self),
            final(self).withdraw_confirmed_post(*old(self), query_id, index, r),
    {
        let pos = self.staking_ledgers.position(index);
        if pos >= self.staking_ledgers.entries.len() {
            return Err(Error::NotBonded);
        }
        proof {
            lemma_assoc_index(self.staking_ledgers.entries@, pos as int);
        }
        let era = self.current_era;
        let mut entry = self.staking_ledgers.entries.remove(pos);
        let withdrawn = entry.1.consolidate_unlocked(era);
        self.staking_ledgers.entries.insert(pos, entry);
        proof {
            self.lemma_ledgers_entry_replaced(*old(self), pos as int, index);
        }
        let _ = self.xcm_requests.take(query_id);
        self.mark_updated(index);
        Ok(Some(NotificationEffect::MintStaking { amount: withdrawn }))
    }

    /// Removing and reinserting an entry at its position is exactly a
    /// keyed update: the store stays duplicate-free, the map gains the
    /// new value, the other ledgers stay put, and every stored ledger is
    /// still well formed and configured.
    proof fn lemma_ledgers_entry_replaced(self, pre: Pallet, pos: int, index: DerivativeIndex)
        requires
            pre.inv(),
            0 <= pos < pre.staking_ledgers.entries@.len(),
            (pre.staking_ledgers.entries@[pos]).0 == index,
            self.staking_ledgers.entries@ == pre.staking_ledgers.entries@.remove(pos).insert(
                pos,
                ((pre.staking_ledgers.entries@[pos]).0, (self.staking_ledgers.entries@[pos]).1),
            ),
            (self.staking_ledgers.entries@[pos]).1.wf(),
            self.params == pre.params,
        ensures
            self.staking_ledgers.wf(),
            self.staking_ledgers.as_map() == pre.staking_ledgers.as_map().insert(
                index,
                (self.staking_ledgers.entries@[pos]).1,
            ),
            self.ledgers_wf(),
            self.staking_ledgers.as_map()[index] == (self.staking_ledgers.entries@[pos]).1,
            forall|j: DerivativeIndex|
                j != index && #[trigger] pre.staking_ledgers.as_map().dom().contains(j)
                    ==> self.staking_ledgers.as_map().dom().contains(j)
                    && self.staking_ledgers.as_map()[j] == pre.staking_ledgers.as_map()[j],
    {
        let s = pre.staking_ledgers.entries@;
        let v = (self.staking_ledgers.entries@[pos]).1;
        assert(self.staking_ledgers.entries@ =~= s.update(pos, (index, v)));
        crate::kv::lemma_assoc_update(s, pos, v);
        assert forall|i: int| 0 <= i < self.staking_ledgers.entries@.len() implies (
        #[trigger] self.staking_ledgers.entries@[i]).1.wf()
            && self.params.derivative_index_list@.contains(
            (self.staking_ledgers.entries@[i]).0,
        ) by {
            if i != pos {
                assert(self.staking_ledgers.entries@[i] == s[i]);
            }
        }
        lemma_assoc_index(self.staking_ledgers.entries@, pos);
        assert forall|j: DerivativeIndex|
            j != index && #[trigger] pre.staking_ledgers.as_map().dom().contains(j)
                implies self.staking_ledgers.as_map().dom().contains(j)
                && self.staking_ledgers.as_map()[j] == pre.staking_ledgers.as_map()[j] by {
        }
    }
}

/// Outcome of accepting a proven ledger snapshot.
#[derive(Clone, Copy, Debug, PartialEq, Eq, Structural)]
pub struct LedgerUpdateOutcome {
    /// Derivative tokens to mint to the protocol fee receiver as
    /// commission on the observed rewards.
    pub inflate_liquid: Balance,
    /// Incentive owed to the caller who drove the update.
    pub incentive: Balance,
    /// Whether the snapshot looked non-ideal: it shrank the ledger,
    /// changed the unlocking schedule, or arrived while operations were
    /// still in flight.
    pub non_ideal: bool,
}

/// Exact sum of a chunk list, or `None` when it does not fit a balance.
fn checked_chunks_sum(v: &Vec<UnlockChunk>) -> (r: Option<Balance>)
    ensures
        unlocking_sum(v@) >= 0,
        unlocking_sum(v@) <= u128::MAX ==> r == Some(unlocking_sum(v@) as u128),
        unlocking_sum(v@) > u128::MAX ==> r.is_none(),
{
    let ghost s = v@;
    proof {
        crate::ledger::lemma_unlocking_sum_nonneg(s);
    }
    let n = v.len();
    let mut acc: Balance = 0;
    let mut i: usize = 0;
    while i < n
        invariant
            0 <= i <= n,
            n == s.len(),
            v@ == s,
            acc as int == unlocking_sum(s.take(i as int)),
        decreases n - i,
    {
        proof {
            crate::ledger::lemma_unlocking_sum_take_step(s, i as int);
            crate::ledger::lemma_unlocking_sum_take_le(s, i + 1);
            crate::ledger::lemma_unlocking_sum_nonneg(s.take(i as int));
        }
        if v[i].value > u128::MAX - acc {
            return None;
        }
        acc = acc + v[i].value;
        i = i + 1;
    }
    proof {
        assert(s.take(n as int) =~= s);
    }
    Some(acc)
}

/// Element-wise equality of two chunk lists.
fn chunks_eq(a: &Vec<UnlockChunk>, b: &Vec<UnlockChunk>) -> (r: bool)
    ensures
        r <==> a@ =~= b@,
{
    let n = a.len();
    if n != b.len() {
        return false;
    }
    let mut i: usize = 0;
    while i < n
        invariant
            0 <= i <= n,
            n == a@.len(),
            n == b@.len(),
            forall|j: int| 0 <= j < i ==> a@[j] == b@[j],
        decreases n - i,
    {
        if !(a[i].value == b[i].value && a[i].era == b[i].era) {
            return false;
        }
        i = i + 1;
    }
    true
}

impl Pallet {
    /// The commission, in derivative tokens, that the observed rewards
    /// earn the protocol: `issuance * commissionRate * rewards /
    /// (totalStake + (1 - commissionRate) * rewards)`, each step rounded
    /// down and clamped as the fixed-point arithmetic dictates; `None`
    /// when the aggregate stake over- or underflows.
    pub open spec fn spec_inflate_liquid_amount(
        self,
        rewards: Balance,
        issuance: Balance,
    ) -> Option<Balance> {
        if issuance == 0 || self.commission_rate == 0 || rewards == 0 {
            Some(0u128)
        } else {
            let tab = if crate::kv::ledgers_active_sum(self.staking_ledgers.entries@)
                <= u128::MAX as int {
                crate::kv::ledgers_active_sum(self.staking_ledgers.entries@)
            } else {
                u128::MAX as int
            };
            let with_stake = tab + self.matching_pool.total_stake_amount.total;
            let total_stake = with_stake - self.matching_pool.total_unstake_amount.total;
            if with_stake > u128::MAX as int || total_stake < 0 {
                None
            } else {
                let commission_staking = mul_rate_floor(self.commission_rate as int, rewards as int);
                let grown = if total_stake + rewards <= u128::MAX as int {
                    total_stake + rewards
                } else {
                    u128::MAX as int
                };
                let denom = if grown >= commission_staking {
                    grown - commission_staking
                } else {
                    0
                };
                let inflate_rate = if denom == 0 {
                    0
                } else {
                    let q = (commission_staking * (RATE_ONE as int)) / denom;
                    if q > u128::MAX as int {
                        0
                    } else {
                        q
                    }
                };
                let inflate = mul_rate_floor(inflate_rate, issuance as int);
                Some(
                    (if inflate <= u128::MAX as int {
                        inflate
                    } else {
                        u128::MAX as int
                    }) as u128,
                )
            }
        }
    }

    /// Executable twin of [`Pallet::spec_inflate_liquid_amount`]; the
    /// overflow case surfaces as an error.
    pub fn get_inflate_liquid_amount(&self, rewards: Balance, issuance: Balance) -> (r: Result<
        Balance,
        Error,
    >)
        requires
            self.inv(),
        ensures
            self.spec_inflate_liquid_amount(rewards, issuance) matches Some(v) ==> r == Ok::<
                Balance,
                Error,
            >(v),
            self.spec_inflate_liquid_amount(rewards, issuance).is_none() ==> r == Err::<
                Balance,
                Error,
            >(Error::ArithmeticOverflow),
    {
        if issuance == 0 || self.commission_rate == 0 || rewards == 0 {
            return Ok(0);
        }
        let tab = self.get_total_active_bonded();
        if self.matching_pool.total_stake_amount.total > u128::MAX - tab {
            return Err(Error::ArithmeticOverflow);
        }
        let with_stake = tab + self.matching_pool.total_stake_amount.total;
        if with_stake < self.matching_pool.total_unstake_amount.total {
            return Err(Error::ArithmeticOverflow);
        }
        let total_stake = with_stake - self.matching_pool.total_unstake_amount.total;
        let commission_staking = crate::rate::fixed_saturating_mul_int(
            self.commission_rate,
            rewards,
        );
        proof {
            crate::rate::lemma_mul_rate_floor_le(self.commission_rate as int, rewards as int);
        }
        let grown = Self::sat_add(total_stake, rewards);
        let denom = Self::sat_sub(grown, commission_staking);
        let inflate_rate = match crate::rate::fixed_from_rational(commission_staking, denom) {
            Some(q) => q,
            None => 0,
        };
        let inflate = crate::rate::fixed_saturating_mul_int(inflate_rate, issuance);
        Ok(inflate)
    }

    /// Accepts a ledger snapshot proven against the admitted relay state
    /// root: mints commission on any observed rewards, replaces the
    /// delegate's ledger, and locks it against further updates this
    /// round.  The snapshot must account for every unit exactly once.
    pub fn set_staking_ledger(
        &mut self,
        derivative_index: DerivativeIndex,
        staking_ledger: StakingLedger,
        proof_valid: bool,
        issuance: Balance,
    ) -> (r: Result<LedgerUpdateOutcome, Error>)
        requires
            old(self).inv(),
        ensures
            final(self).inv(),
            r.is_err() ==> *final(self) == *old(self),
            !old(self).staking_ledgers.as_map().dom().contains(derivative_index) ==> r == Err::<
                LedgerUpdateOutcome,
                Error,
            >(Error::NotBonded),
            old(self).staking_ledgers.as_map().dom().contains(derivative_index) && old(
                self,
            ).is_updated@.contains(derivative_index) ==> r == Err::<LedgerUpdateOutcome, Error>(
                Error::StakingLedgerLocked,
            ),
            old(self).staking_ledgers.as_map().dom().contains(derivative_index) && !old(
                self,
            ).is_updated@.contains(derivative_index) && !proof_valid ==> r == Err::<
                LedgerUpdateOutcome,
                Error,
            >(Error::InvalidProof),
            old(self).staking_ledgers.as_map().dom().contains(derivative_index) && !old(
                self,
            ).is_updated@.contains(derivative_index) && proof_valid ==> ({
                let l = old(self).staking_ledgers.as_map()[derivative_index];
                let rewards = if staking_ledger.total >= l.total {
                    (staking_ledger.total - l.total) as u128
                } else {
                    0u128
                };
                let sound = staking_ledger.wf() && unlocking_sum(staking_ledger.unlocking@)
                    <= u128::MAX as int;
                &&& old(self).spec_inflate_liquid_amount(rewards, issuance).is_none() ==> r
                    == Err::<LedgerUpdateOutcome, Error>(Error::ArithmeticOverflow)
                &&& old(self).spec_inflate_liquid_amount(rewards, issuance).is_some() && !sound
                    ==> r == Err::<LedgerUpdateOutcome, Error>(Error::InvalidStakingLedger)
                &&& old(self).spec_inflate_liquid_amount(rewards, issuance).is_some() && sound
                    ==> r.is_ok()
                &&& r matches Ok(out) ==> out.inflate_liquid == old(
                    self,
                ).spec_inflate_liquid_amount(rewards, issuance).unwrap()
            }),
            old(self).staking_ledgers.as_map().dom().contains(derivative_index) && !old(
                self,
            ).is_updated@.contains(derivative_index) && proof_valid ==> (r matches Ok(out) ==> ({
                let l = old(self).staking_ledgers.as_map()[derivative_index];
                &&& staking_ledger.wf()
                &&& *final(self) == (Pallet {
                    staking_ledgers: final(self).staking_ledgers,
                    is_updated: final(self).is_updated,
                    ..*old(self)
                })
                &&& final(self).staking_ledgers.as_map() == old(self).staking_ledgers.as_map().insert(
                    derivative_index,
                    staking_ledger,
                )
                &&& final(self).is_updated@ == old(self).is_updated@.push(derivative_index)
                &&& out.incentive == old(self).incentive
                &&& out.non_ideal == (staking_ledger.total < l.total || staking_ledger.active
                    < l.active || staking_ledger.unlocking@ != l.unlocking@ || old(
                    self,
                ).xcm_requests.entries@.len() > 0)
            })),
    {
        let pos = self.staking_ledgers.position(derivative_index);
        if pos >= self.staking_ledgers.entries.len() {
            return Err(Error::NotBonded);
        }
        proof {
            lemma_assoc_index(self.staking_ledgers.entries@, pos as int);
        }
        if self.is_updated(derivative_index) {
            return Err(Error::StakingLedgerLocked);
        }
        let requests_pending = !self.xcm_requests.is_empty();
        let non_ideal = staking_ledger.total < self.staking_ledgers.entries[pos].1.total
            || staking_ledger.active < self.staking_ledgers.entries[pos].1.active || !chunks_eq(
            &staking_ledger.unlocking,
            &self.staking_ledgers.entries[pos].1.unlocking,
        ) || requests_pending;
        if !proof_valid {
            return Err(Error::InvalidProof);
        }
        let rewards = Self::sat_sub(staking_ledger.total, self.staking_ledgers.entries[pos].1.total);
        let inflate_liquid = self.get_inflate_liquid_amount(rewards, issuance)?;
        let sum = match checked_chunks_sum(&staking_ledger.unlocking) {
            Some(s) => s,
            None => {
                return Err(Error::InvalidStakingLedger);
            },
        };
        if !(staking_ledger.unlocking.len() <= MAX_UNLOCKING_CHUNKS && staking_ledger.active
            <= u128::MAX - sum && staking_ledger.total == staking_ledger.active + sum) {
            return Err(Error::InvalidStakingLedger);
        }
        let ghost nl = staking_ledger;
        proof {
            assert(sum as int == unlocking_sum(staking_ledger.unlocking@));
            assert(nl.wf());
        }
        self.staking_ledgers.upsert(derivative_index, staking_ledger);
        proof {
            let pre = old(self).staking_ledgers.entries@;
            let p = choose|p: int|
                0 <= p < pre.len() && (#[trigger] pre[p]).0 == derivative_index
                    && self.staking_ledgers.entries@ == pre.update(p, (derivative_index, nl));
            assert(self.staking_ledgers.entries@ =~= pre.update(p, (derivative_index, nl)));
            crate::kv::lemma_assoc_update(pre, p, nl);
            assert forall|i: int| 0 <= i < self.staking_ledgers.entries@.len() implies (
            #[trigger] self.staking_ledgers.entries@[i]).1.wf()
                && self.params.derivative_index_list@.contains(
                (self.staking_ledgers.entries@[i]).0,
            ) by {
                if i != p {
                    assert(self.staking_ledgers.entries@[i] == pre[i]);
                } else {
                    assert(self.staking_ledgers.entries@[p] == (derivative_index, nl));
                    assert((pre[p]).1.wf() && self.params.derivative_index_list@.contains(
                        (pre[p]).0,
                    ));
                    assert(nl.wf());
                }
            }
        }
        self.mark_updated(derivative_index);
        proof {
            if requests_pending {
                assert(old(self).xcm_requests.entries@.len() > 0) by {
                    if old(self).xcm_requests.entries@.len() == 0 {
                        assert(old(self).xcm_requests.as_map() =~= Map::<
                            QueryId,
                            XcmRequest,
                        >::empty());
                    }
                }
            }
        }
        Ok(LedgerUpdateOutcome { inflate_liquid, incentive: self.incentive, non_ideal })
    }

    /// Administrative ledger overwrite: allowed only while nothing was
    /// updated this round and nothing is in flight.  The snapshot must
    /// account for every unit exactly once.
    pub fn force_set_staking_ledger(
        &mut self,
        derivative_index: DerivativeIndex,
        staking_ledger: StakingLedger,
    ) -> (r: Result<(), Error>)
        requires
            old(self).inv(),
        ensures
            final(self).inv(),
            r.is_err() ==> *final(self) == *old(self),
            !old(self).staking_ledgers.as_map().dom().contains(derivative_index) ==> r == Err::<
                (),
                Error,
            >(Error::NotBonded),
            old(self).staking_ledgers.as_map().dom().contains(derivative_index) && (old(
                self,
            ).is_updated@.contains(derivative_index) || old(self).xcm_requests.entries@.len() > 0)
                ==> r == Err::<(), Error>(Error::StakingLedgerLocked),
            old(self).staking_ledgers.as_map().dom().contains(derivative_index) && !old(
                self,
            ).is_updated@.contains(derivative_index) && old(self).xcm_requests.entries@.len() == 0
                && !(staking_ledger.wf() && unlocking_sum(staking_ledger.unlocking@)
                <= u128::MAX as int) ==> r == Err::<(), Error>(Error::InvalidStakingLedger),
            old(self).staking_ledgers.as_map().dom().contains(derivative_index) && !old(
                self,
            ).is_updated@.contains(derivative_index) && old(self).xcm_requests.entries@.len() == 0
                && staking_ledger.wf() && unlocking_sum(staking_ledger.unlocking@)
                <= u128::MAX as int ==> r == Ok::<(), Error>(()) && *final(self) == (Pallet {
                staking_ledgers: final(self).staking_ledgers,
                is_updated: final(self).is_updated,
                ..*old(self)
            }) && final(self).staking_ledgers.as_map() == old(self).staking_ledgers.as_map().insert(
                derivative_index,
                staking_ledger,
            ) && final(self).is_updated@ == old(self).is_updated@.push(derivative_index),
    {
        let pos = self.staking_ledgers.position(derivative_index);
        if pos >= self.staking_ledgers.entries.len() {
            return Err(Error::NotBonded);
        }
        proof {
            lemma_assoc_index(self.staking_ledgers.entries@, pos as int);
        }
        let no_requests = self.xcm_requests.is_empty();
        proof {
            if self.xcm_requests.entries@.len() > 0 {
                crate::requests::lemma_seq_to_map_dom(
                    self.xcm_requests.entries@,
                    self.xcm_requests.entries@.last().0,
                );
            } else {
                assert(self.xcm_requests.as_map() =~= Map::<QueryId, XcmRequest>::empty());
            }
        }
        if self.is_updated(derivative_index) || !no_requests {
            return Err(Error::StakingLedgerLocked);
        }
        let sum = match checked_chunks_sum(&staking_ledger.unlocking) {
            Some(s) => s,
            None => {
                return Err(Error::InvalidStakingLedger);
            },
        };
        if !(staking_ledger.unlocking.len() <= MAX_UNLOCKING_CHUNKS && staking_ledger.active
            <= u128::MAX - sum && staking_ledger.total == staking_ledger.active + sum) {
            return Err(Error::InvalidStakingLedger);
        }
        let ghost nl = staking_ledger;
        proof {
            assert(sum as int == unlocking_sum(staking_ledger.unlocking@));
            assert(nl.wf());
        }
        self.staking_ledgers.upsert(derivative_index, staking_ledger);
        proof {
            let pre = old(self).staking_ledgers.entries@;
            let p = choose|p: int|
                0 <= p < pre.len() && (#[trigger] pre[p]).0 == derivative_index
                    && self.staking_ledgers.entries@ == pre.update(p, (derivative_index, nl));
            assert(self.staking_ledgers.entries@ =~= pre.update(p, (derivative_index, nl)));
            crate::kv::lemma_assoc_update(pre, p, nl);
            assert forall|i: int| 0 <= i < self.staking_ledgers.entries@.len() implies (
            #[trigger] self.staking_ledgers.entries@[i]).1.wf()
                && self.params.derivative_index_list@.contains(
                (self.staking_ledgers.entries@[i]).0,
            ) by {
                if i != p {
                    assert(self.staking_ledgers.entries@[i] == pre[i]);
                } else {
                    assert(self.staking_ledgers.entries@[p] == (derivative_index, nl));
                    assert((pre[p]).1.wf() && self.params.derivative_index_list@.contains(
                        (pre[p]).0,
                    ));
                    assert(nl.wf());
                }
            }
        }
        self.mark_updated(derivative_index);
        Ok(())
    }
}

} // verus!
