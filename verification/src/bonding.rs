//! Remote bonding submissions.
//!
//! Each operation here decides whether a remote call may go out, commits
//! the matching pool's lock for it, and records the pending request under
//! a fresh correlation id.  Delegate ledgers are never touched at
//! submission time: they change only when the confirmation arrives.

use vstd::prelude::*;
use crate::matching::{BondingAmounts, MatchingLedger};
use crate::pallet::Pallet;
use crate::requests::XcmRequest;
use crate::{AccountId, Balance, BlockNumber, DerivativeIndex, Error, QueryId, RewardDestination, MAX_UNLOCKING_CHUNKS};

verus! {

/// The pool after committing `amount` more of its stake side.
pub open spec fn lock_stake(m: MatchingLedger, amount: Balance) -> MatchingLedger {
    MatchingLedger {
        total_stake_amount: BondingAmounts {
            total: m.total_stake_amount.total,
            locked: (m.total_stake_amount.locked + amount) as u128,
        },
        total_unstake_amount: m.total_unstake_amount,
    }
}

/// The pool after committing `amount` more of its unstake side.
pub open spec fn lock_unstake(m: MatchingLedger, amount: Balance) -> MatchingLedger {
    MatchingLedger {
        total_stake_amount: m.total_stake_amount,
        total_unstake_amount: BondingAmounts {
            total: m.total_unstake_amount.total,
            locked: (m.total_unstake_amount.locked + amount) as u128,
        },
    }
}

/// Relates the state after a submission to the one before: the request
/// sits under the previously fresh id, the id counter moved on, the pool
/// took the given shape, and nothing else changed.
pub open spec fn submitted(old_p: Pallet, new_p: Pallet, pool: MatchingLedger, req: XcmRequest) -> bool {
    &&& new_p == (Pallet {
        matching_pool: new_p.matching_pool,
        xcm_requests: new_p.xcm_requests,
        next_query_id: new_p.next_query_id,
        ..old_p
    })
    &&& new_p.matching_pool == pool
    &&& new_p.xcm_requests.as_map() == old_p.xcm_requests.as_map().insert(old_p.next_query_id, req)
    &&& new_p.xcm_requests.entries@ == old_p.xcm_requests.entries@.push((old_p.next_query_id, req))
    &&& new_p.next_query_id == old_p.next_query_id + 1
}

/// A pushed entry leaves the list before `l` untouched and adds its
/// commitments to the sums over the part recorded after `l`.
proof fn lemma_entries_extended(
    pre: Seq<(QueryId, XcmRequest)>,
    post: Seq<(QueryId, XcmRequest)>,
    l: int,
    e: (QueryId, XcmRequest),
)
    requires
        0 <= l <= pre.len(),
        post == pre.push(e),
    ensures
        post.take(l) == pre.take(l),
        post.skip(l) == pre.skip(l).push(e),
        crate::requests::stake_request_sum(post.skip(l)) == crate::requests::stake_request_sum(
            pre.skip(l),
        ) + crate::requests::stake_side_amount(e.1),
        crate::requests::unstake_request_sum(post.skip(l)) == crate::requests::unstake_request_sum(
            pre.skip(l),
        ) + crate::requests::unstake_side_amount(e.1),
{
    assert(post.take(l) =~= pre.take(l));
    assert(post.skip(l) =~= pre.skip(l).push(e));
    crate::requests::lemma_request_sums_push(pre.skip(l), e);
}

/// Four successive prefix-preserving extensions of the entry list keep
/// the first list as a prefix, and the commitments recorded after it sum
/// over the four added parts.
proof fn lemma_suffix_chain(
    e0: Seq<(QueryId, XcmRequest)>,
    e1: Seq<(QueryId, XcmRequest)>,
    e2: Seq<(QueryId, XcmRequest)>,
    e3: Seq<(QueryId, XcmRequest)>,
    e4: Seq<(QueryId, XcmRequest)>,
)
    requires
        e1.take(e0.len() as int) == e0,
        e2.take(e1.len() as int) == e1,
        e3.take(e2.len() as int) == e2,
        e4.take(e3.len() as int) == e3,
        e0.len() <= e1.len() <= e2.len() <= e3.len() <= e4.len(),
    ensures
        e4.take(e0.len() as int) == e0,
        crate::requests::stake_request_sum(e4.skip(e0.len() as int))
            == crate::requests::stake_request_sum(e1.skip(e0.len() as int))
            + crate::requests::stake_request_sum(e2.skip(e1.len() as int))
            + crate::requests::stake_request_sum(e3.skip(e2.len() as int))
            + crate::requests::stake_request_sum(e4.skip(e3.len() as int)),
        crate::requests::unstake_request_sum(e4.skip(e0.len() as int))
            == crate::requests::unstake_request_sum(e1.skip(e0.len() as int))
            + crate::requests::unstake_request_sum(e2.skip(e1.len() as int))
            + crate::requests::unstake_request_sum(e3.skip(e2.len() as int))
            + crate::requests::unstake_request_sum(e4.skip(e3.len() as int)),
{
    lemma_suffix_step(e0.len() as int, e1, e2);
    lemma_suffix_step(e0.len() as int, e2, e3);
    lemma_suffix_step(e0.len() as int, e3, e4);
    assert(e4.take(e0.len() as int) =~= e0);
}

/// One prefix-preserving extension splits the suffix after `l` into the
/// old suffix plus the added part.
proof fn lemma_suffix_step(l: int, prev: Seq<(QueryId, XcmRequest)>, next: Seq<(QueryId, XcmRequest)>)
    requires
        0 <= l <= prev.len() <= next.len(),
        next.take(prev.len() as int) == prev,
    ensures
        next.take(l) == prev.take(l),
        next.skip(l) == prev.skip(l) + next.skip(prev.len() as int),
        crate::requests::stake_request_sum(next.skip(l)) == crate::requests::stake_request_sum(
            prev.skip(l),
        ) + crate::requests::stake_request_sum(next.skip(prev.len() as int)),
        crate::requests::unstake_request_sum(next.skip(l)) == crate::requests::unstake_request_sum(
            prev.skip(l),
        ) + crate::requests::unstake_request_sum(next.skip(prev.len() as int)),
{
    assert(next.take(l) =~= prev.take(l));
    assert(next.skip(l) =~= prev.skip(l) + next.skip(prev.len() as int));
    crate::requests::lemma_request_sums_concat(prev.skip(l), next.skip(prev.len() as int));
}

impl Pallet {
    /// A fresh correlation id is still available.
    pub open spec fn can_submit(self) -> bool {
        self.next_query_id < u64::MAX
    }

    /// The stake side can take `amount` more lock.
    pub open spec fn stake_lock_fits(self, amount: Balance) -> bool {
        self.matching_pool.total_stake_amount.locked + amount
            <= self.matching_pool.total_stake_amount.total
    }

    /// The unstake side can take `amount` more lock.
    pub open spec fn unstake_lock_fits(self, amount: Balance) -> bool {
        self.matching_pool.total_unstake_amount.locked + amount
            <= self.matching_pool.total_unstake_amount.total
    }

    /// Total balance already bonded through `index`, zero without a
    /// ledger (specification twin of [`Pallet::total_bonded_of`]).
    pub open spec fn spec_total_bonded_of(self, index: DerivativeIndex) -> int {
        if self.staking_ledgers.as_map().dom().contains(index) {
            self.staking_ledgers.as_map()[index].total as int
        } else {
            0
        }
    }

    /// Records and submits a first bond through `index`.  With an
    /// existing ledger this is an additional bond instead.  Locks the
    /// pool's stake side by `amount`; the delegate ledger itself is
    /// created only when the confirmation arrives.
    pub fn bond(
        &mut self,
        derivative_index: DerivativeIndex,
        amount: Balance,
        payee: RewardDestination,
    ) -> (r: Result<(), Error>)
        requires
            old(self).inv(),
        ensures
            final(self).inv(),
            r.is_err() ==> *final(self) == *old(self),
            amount == 0 ==> r == Ok::<(), Error>(()) && *final(self) == *old(self),
            amount > 0 && old(self).staking_ledgers.as_map().dom().contains(derivative_index) ==> {
                let cap_ok = old(self).spec_total_bonded_of(derivative_index) + amount <= old(
                    self,
                ).staking_ledger_cap;
                &&& !cap_ok ==> r == Err::<(), Error>(Error::CapExceeded)
                &&& cap_ok && !old(self).stake_lock_fits(amount) ==> r == Err::<(), Error>(
                    Error::ArithmeticOverflow,
                )
                &&& cap_ok && old(self).stake_lock_fits(amount) && !old(self).can_submit() ==> r
                    == Err::<(), Error>(Error::ArithmeticOverflow)
                &&& cap_ok && old(self).stake_lock_fits(amount) && old(self).can_submit() ==> r
                    == Ok::<(), Error>(()) && submitted(
                    *old(self),
                    *final(self),
                    lock_stake(old(self).matching_pool, amount),
                    (XcmRequest::BondExtra { index: derivative_index, amount }),
                )
            },
            amount > 0 && !old(self).staking_ledgers.as_map().dom().contains(derivative_index)
                ==> {
                let valid = old(self).params.derivative_index_list@.contains(derivative_index);
                let min_ok = amount >= old(self).params.min_nominator_bond;
                let cap_ok = amount <= old(self).staking_ledger_cap;
                &&& !valid ==> r == Err::<(), Error>(Error::InvalidDerivativeIndex)
                &&& valid && !min_ok ==> r == Err::<(), Error>(Error::InsufficientBond)
                &&& valid && min_ok && !cap_ok ==> r == Err::<(), Error>(Error::CapExceeded)
                &&& valid && min_ok && cap_ok && !old(self).stake_lock_fits(amount) ==> r
                    == Err::<(), Error>(Error::ArithmeticOverflow)
                &&& valid && min_ok && cap_ok && old(self).stake_lock_fits(amount) && !old(
                    self,
                ).can_submit() ==> r == Err::<(), Error>(Error::ArithmeticOverflow)
                &&& valid && min_ok && cap_ok && old(self).stake_lock_fits(amount) && old(
                    self,
                ).can_submit() ==> r == Ok::<(), Error>(()) && submitted(
                    *old(self),
                    *final(self),
                    lock_stake(old(self).matching_pool, amount),
                    (XcmRequest::Bond { index: derivative_index, amount }),
                )
            },
    {
        let _ = payee;
        if amount == 0 {
            return Ok(());
        }
        if self.staking_ledgers.contains_key(derivative_index) {
            proof {
                self.lemma_ledger_value_wf(derivative_index);
            }
            return self.bond_extra(derivative_index, amount);
        }
        if !self.is_valid_derivative_index(derivative_index) {
            return Err(Error::InvalidDerivativeIndex);
        }
        if amount < self.params.min_nominator_bond {
            return Err(Error::InsufficientBond);
        }
        self.ensure_staking_ledger_cap(derivative_index, amount)?;
        if !self.can_submit_exec() {
            return Err(Error::ArithmeticOverflow);
        }
        self.matching_pool.set_stake_amount_lock(amount)?;
        let id = self.next_query_id;
        proof {
            crate::requests::lemma_seq_to_map_dom(self.xcm_requests.entries@, id);
        }
        self.xcm_requests.insert(id, XcmRequest::Bond { index: derivative_index, amount });
        self.next_query_id = id + 1;
        Ok(())
    }

    /// Records and submits an additional bond through `index`.  Locks the
    /// pool's stake side by `amount`.
    pub fn bond_extra(&mut self, derivative_index: DerivativeIndex, amount: Balance) -> (r: Result<
        (),
        Error,
    >)
        requires
            old(self).inv(),
        ensures
            final(self).inv(),
            r.is_err() ==> *final(self) == *old(self),
            amount == 0 ==> r == Ok::<(), Error>(()) && *final(self) == *old(self),
            amount > 0 ==> {
                let valid = old(self).params.derivative_index_list@.contains(derivative_index);
                let bonded = old(self).staking_ledgers.as_map().dom().contains(derivative_index);
                let cap_ok = old(self).spec_total_bonded_of(derivative_index) + amount <= old(
                    self,
                ).staking_ledger_cap;
                &&& !valid ==> r == Err::<(), Error>(Error::InvalidDerivativeIndex)
                &&& valid && !bonded ==> r == Err::<(), Error>(Error::NotBonded)
                &&& valid && bonded && !cap_ok ==> r == Err::<(), Error>(Error::CapExceeded)
                &&& valid && bonded && cap_ok && !old(self).stake_lock_fits(amount) ==> r
                    == Err::<(), Error>(Error::ArithmeticOverflow)
                &&& valid && bonded && cap_ok && old(self).stake_lock_fits(amount) && !old(
                    self,
                ).can_submit() ==> r == Err::<(), Error>(Error::ArithmeticOverflow)
                &&& valid && bonded && cap_ok && old(self).stake_lock_fits(amount) && old(
                    self,
                ).can_submit() ==> r == Ok::<(), Error>(()) && submitted(
                    *old(self),
                    *final(self),
                    lock_stake(old(self).matching_pool, amount),
                    (XcmRequest::BondExtra { index: derivative_index, amount }),
                )
            },
    {
        if amount == 0 {
            return Ok(());
        }
        if !self.is_valid_derivative_index(derivative_index) {
            return Err(Error::InvalidDerivativeIndex);
        }
        if !self.staking_ledgers.contains_key(derivative_index) {
            return Err(Error::NotBonded);
        }
        self.ensure_staking_ledger_cap(derivative_index, amount)?;
        if !self.can_submit_exec() {
            return Err(Error::ArithmeticOverflow);
        }
        self.matching_pool.set_stake_amount_lock(amount)?;
        let id = self.next_query_id;
        self.xcm_requests.insert(id, XcmRequest::BondExtra { index: derivative_index, amount });
        self.next_query_id = id + 1;
        Ok(())
    }

    /// Records and submits an unbond of `amount` from `index`'s active
    /// bond.  Locks the pool's unstake side by `amount`.  The remaining
    /// active bond must keep the nominator minimum or be emptied exactly.
    pub fn unbond(&mut self, derivative_index: DerivativeIndex, amount: Balance) -> (r: Result<
        (),
        Error,
    >)
        requires
            old(self).inv(),
        ensures
            final(self).inv(),
            r.is_err() ==> *final(self) == *old(self),
            amount == 0 ==> r == Ok::<(), Error>(()) && *final(self) == *old(self),
            amount > 0 ==> {
                let valid = old(self).params.derivative_index_list@.contains(derivative_index);
                let bonded = old(self).staking_ledgers.as_map().dom().contains(derivative_index);
                let room = bonded && old(
                    self,
                ).staking_ledgers.as_map()[derivative_index].unlocking@.len()
                    < MAX_UNLOCKING_CHUNKS;
                let min_ok = bonded && amount
                    <= old(self).staking_ledgers.as_map()[derivative_index].active && (old(
                    self,
                ).staking_ledgers.as_map()[derivative_index].active - amount >= old(
                    self,
                ).params.min_nominator_bond || old(
                    self,
                ).staking_ledgers.as_map()[derivative_index].active == amount);
                &&& !valid ==> r == Err::<(), Error>(Error::InvalidDerivativeIndex)
                &&& valid && !bonded ==> r == Err::<(), Error>(Error::NotBonded)
                &&& valid && bonded && !room ==> r == Err::<(), Error>(Error::NoMoreChunks)
                &&& valid && bonded && room && !min_ok ==> r == Err::<(), Error>(
                    Error::InsufficientBond,
                )
                &&& valid && bonded && room && min_ok && !old(self).unstake_lock_fits(amount) ==> r
                    == Err::<(), Error>(Error::ArithmeticOverflow)
                &&& valid && bonded && room && min_ok && old(self).unstake_lock_fits(amount)
                    && !old(self).can_submit() ==> r == Err::<(), Error>(Error::ArithmeticOverflow)
                &&& valid && bonded && room && min_ok && old(self).unstake_lock_fits(amount) && old(
                    self,
                ).can_submit() ==> r == Ok::<(), Error>(()) && submitted(
                    *old(self),
                    *final(self),
                    lock_unstake(old(self).matching_pool, amount),
                    (XcmRequest::Unbond { index: derivative_index, amount }),
                )
            },
    {
        if amount == 0 {
            return Ok(());
        }
        if !self.is_valid_derivative_index(derivative_index) {
            return Err(Error::InvalidDerivativeIndex);
        }
        let pos = self.staking_ledgers.position(derivative_index);
        if pos >= self.staking_ledgers.entries.len() {
            return Err(Error::NotBonded);
        }
        proof {
            crate::kv::lemma_assoc_index(self.staking_ledgers.entries@, pos as int);
        }
        let active = self.staking_ledgers.entries[pos].1.active;
        if self.staking_ledgers.entries[pos].1.unlocking.len() >= MAX_UNLOCKING_CHUNKS {
            return Err(Error::NoMoreChunks);
        }
        if !(amount <= active && (active - amount >= self.params.min_nominator_bond || active
            == amount)) {
            return Err(Error::InsufficientBond);
        }
        if !self.can_submit_exec() {
            return Err(Error::ArithmeticOverflow);
        }
        self.matching_pool.set_unstake_amount_lock(amount)?;
        let id = self.next_query_id;
        self.xcm_requests.insert(id, XcmRequest::Unbond { index: derivative_index, amount });
        self.next_query_id = id + 1;
        Ok(())
    }

    /// Records and submits a rebond of `amount` toward `index`.  Locks
    /// the pool's stake side by `amount`: incoming stake is what finances
    /// reactivating the unbonding balance.
    pub fn rebond(&mut self, derivative_index: DerivativeIndex, amount: Balance) -> (r: Result<
        (),
        Error,
    >)
        requires
            old(self).inv(),
        ensures
            final(self).inv(),
            r.is_err() ==> *final(self) == *old(self),
            amount == 0 ==> r == Ok::<(), Error>(()) && *final(self) == *old(self),
            amount > 0 ==> {
                let valid = old(self).params.derivative_index_list@.contains(derivative_index);
                let bonded = old(self).staking_ledgers.as_map().dom().contains(derivative_index);
                &&& !valid ==> r == Err::<(), Error>(Error::InvalidDerivativeIndex)
                &&& valid && !bonded ==> r == Err::<(), Error>(Error::NotBonded)
                &&& valid && bonded && !old(self).stake_lock_fits(amount) ==> r == Err::<(), Error>(
                    Error::ArithmeticOverflow,
                )
                &&& valid && bonded && old(self).stake_lock_fits(amount) && !old(self).can_submit()
                    ==> r == Err::<(), Error>(Error::ArithmeticOverflow)
                &&& valid && bonded && old(self).stake_lock_fits(amount) && old(self).can_submit()
                    ==> r == Ok::<(), Error>(()) && submitted(
                    *old(self),
                    *final(self),
                    lock_stake(old(self).matching_pool, amount),
                    (XcmRequest::Rebond { index: derivative_index, amount }),
                )
            },
    {
        if amount == 0 {
            return Ok(());
        }
        if !self.is_valid_derivative_index(derivative_index) {
            return Err(Error::InvalidDerivativeIndex);
        }
        if !self.staking_ledgers.contains_key(derivative_index) {
            return Err(Error::NotBonded);
        }
        if !self.can_submit_exec() {
            return Err(Error::ArithmeticOverflow);
        }
        self.matching_pool.set_stake_amount_lock(amount)?;
        let id = self.next_query_id;
        self.xcm_requests.insert(id, XcmRequest::Rebond { index: derivative_index, amount });
        self.next_query_id = id + 1;
        Ok(())
    }

    /// Records and submits a withdrawal of `index`'s matured unlocks.  A
    /// delegate with nothing matured is skipped silently.
    pub fn withdraw_unbonded(
        &mut self,
        derivative_index: DerivativeIndex,
        num_slashing_spans: u32,
    ) -> (r: Result<(), Error>)
        requires
            old(self).inv(),
        ensures
            final(self).inv(),
            r.is_err() ==> *final(self) == *old(self),
            ({
                let matured = if old(self).staking_ledgers.as_map().dom().contains(
                    derivative_index,
                ) {
                    crate::ledger::matured_sum(
                        old(self).staking_ledgers.as_map()[derivative_index].unlocking@,
                        old(self).current_era,
                    )
                } else {
                    0
                };
                let valid = old(self).params.derivative_index_list@.contains(derivative_index);
                let bonded = old(self).staking_ledgers.as_map().dom().contains(derivative_index);
                &&& matured == 0 ==> r == Ok::<(), Error>(()) && *final(self) == *old(self)
                &&& matured != 0 && !valid ==> r == Err::<(), Error>(Error::InvalidDerivativeIndex)
                &&& matured != 0 && valid && !bonded ==> r == Err::<(), Error>(Error::NotBonded)
                &&& matured != 0 && valid && bonded && !old(self).can_submit() ==> r == Err::<
                    (),
                    Error,
                >(Error::ArithmeticOverflow)
                &&& matured != 0 && valid && bonded && old(self).can_submit() ==> r == Ok::<
                    (),
                    Error,
                >(()) && submitted(
                    *old(self),
                    *final(self),
                    old(self).matching_pool,
                    (XcmRequest::WithdrawUnbonded { index: derivative_index, num_slashing_spans }),
                )
            }),
    {
        if self.unbonded_of(derivative_index) == 0 {
            return Ok(());
        }
        if !self.is_valid_derivative_index(derivative_index) {
            return Err(Error::InvalidDerivativeIndex);
        }
        if !self.staking_ledgers.contains_key(derivative_index) {
            return Err(Error::NotBonded);
        }
        if !self.can_submit_exec() {
            return Err(Error::ArithmeticOverflow);
        }
        let id = self.next_query_id;
        self.xcm_requests.insert(
            id,
            XcmRequest::WithdrawUnbonded { index: derivative_index, num_slashing_spans },
        );
        self.next_query_id = id + 1;
        Ok(())
    }

    /// Records and submits a nomination of validators through `index`.
    /// The choice has no ledger effect.
    pub fn nominate(&mut self, derivative_index: DerivativeIndex, targets: Vec<AccountId>) -> (r:
        Result<(), Error>)
        requires
            old(self).inv(),
        ensures
            final(self).inv(),
            r.is_err() ==> *final(self) == *old(self),
            ({
                let valid = old(self).params.derivative_index_list@.contains(derivative_index);
                let bonded = old(self).staking_ledgers.as_map().dom().contains(derivative_index);
                &&& !valid ==> r == Err::<(), Error>(Error::InvalidDerivativeIndex)
                &&& valid && !bonded ==> r == Err::<(), Error>(Error::NotBonded)
                &&& valid && bonded && !old(self).can_submit() ==> r == Err::<(), Error>(
                    Error::ArithmeticOverflow,
                )
                &&& valid && bonded && old(self).can_submit() ==> r == Ok::<(), Error>(())
                    && submitted(
                    *old(self),
                    *final(self),
                    old(self).matching_pool,
                    (XcmRequest::Nominate { index: derivative_index, targets }),
                )
            }),
    {
        if !self.is_valid_derivative_index(derivative_index) {
            return Err(Error::InvalidDerivativeIndex);
        }
        if !self.staking_ledgers.contains_key(derivative_index) {
            return Err(Error::NotBonded);
        }
        if !self.can_submit_exec() {
            return Err(Error::ArithmeticOverflow);
        }
        let id = self.next_query_id;
        self.xcm_requests.insert(
            id,
            XcmRequest::Nominate { index: derivative_index, targets },
        );
        self.next_query_id = id + 1;
        Ok(())
    }

    /// Rejects a bond that would push `index`'s total over the
    /// per-delegate cap.
    pub fn ensure_staking_ledger_cap(
        &self,
        derivative_index: DerivativeIndex,
        amount: Balance,
    ) -> (r: Result<(), Error>)
        requires
            self.inv(),
        ensures
            self.spec_total_bonded_of(derivative_index) + amount <= self.staking_ledger_cap ==> r
                == Ok::<(), Error>(()),
            self.spec_total_bonded_of(derivative_index) + amount > self.staking_ledger_cap ==> r
                == Err::<(), Error>(Error::CapExceeded),
    {
        let bonded = self.total_bonded_of(derivative_index);
        if amount <= u128::MAX - bonded && bonded + amount <= self.staking_ledger_cap {
            Ok(())
        } else {
            Err(Error::CapExceeded)
        }
    }

    /// Rejects a stake that would push the aggregate bond over the
    /// global market cap.
    pub fn ensure_market_cap(&self, amount: Balance) -> (r: Result<(), Error>)
        requires
            self.inv(),
        ensures
            ({
                let bonded = if crate::kv::ledgers_total_sum(self.staking_ledgers.entries@)
                    <= u128::MAX as int {
                    crate::kv::ledgers_total_sum(self.staking_ledgers.entries@)
                } else {
                    u128::MAX as int
                };
                let cap = if self.staking_ledger_cap * self.params.derivative_index_list@.len()
                    <= u128::MAX as int {
                    self.staking_ledger_cap * self.params.derivative_index_list@.len()
                } else {
                    u128::MAX as int
                };
                let reach = if bonded + amount <= u128::MAX as int {
                    bonded + amount
                } else {
                    u128::MAX as int
                };
                if reach <= cap {
                    r == Ok::<(), Error>(())
                } else {
                    r == Err::<(), Error>(Error::CapExceeded)
                }
            }),
    {
        let bonded = self.get_total_bonded();
        let reach = Self::sat_add(bonded, amount);
        if reach <= self.get_market_cap() {
            Ok(())
        } else {
            Err(Error::CapExceeded)
        }
    }

    /// Executable twin of [`Pallet::can_submit`].
    fn can_submit_exec(&self) -> (r: bool)
        ensures
            r == self.can_submit(),
    {
        self.next_query_id < u64::MAX
    }
}

impl Pallet {
    /// Active balance bonded through `index`, zero without a ledger
    /// (specification twin of [`Pallet::active_bonded_of`]).
    pub open spec fn spec_active_bonded_of(self, index: DerivativeIndex) -> int {
        if self.staking_ledgers.as_map().dom().contains(index) {
            self.staking_ledgers.as_map()[index].active as int
        } else {
            0
        }
    }

    /// Balance of `index` on its way out of the active bond, zero
    /// without a ledger.
    pub open spec fn spec_unbonding_of(self, index: DerivativeIndex) -> int {
        if self.staking_ledgers.as_map().dom().contains(index) {
            self.staking_ledgers.as_map()[index].total as int
                - self.staking_ledgers.as_map()[index].active as int
        } else {
            0
        }
    }

    /// The delegate has a ledger with room for one more unlock chunk.
    pub open spec fn spec_chunk_room(self, index: DerivativeIndex) -> bool {
        self.staking_ledgers.as_map().dom().contains(index)
            && self.staking_ledgers.as_map()[index].unlocking@.len() < MAX_UNLOCKING_CHUNKS
    }

    /// One row per configured delegate: its index, active bond and total
    /// bond.
    #[verifier::loop_isolation(false)]
    fn bond_amounts_list(&self) -> (r: Vec<(DerivativeIndex, Balance, Balance)>)
        requires
            self.inv(),
        ensures
            r@.len() == self.params.derivative_index_list@.len(),
            forall|j: int|
                0 <= j < r@.len() ==> (#[trigger] r@[j]).0 == self.params.derivative_index_list@[j]
                    && r@[j].1 as int == self.spec_active_bonded_of(r@[j].0) && r@[j].2 as int
                    == self.spec_total_bonded_of(r@[j].0),
    {
        let n = self.params.derivative_index_list.len();
        let mut out: Vec<(DerivativeIndex, Balance, Balance)> = Vec::new();
        let mut i: usize = 0;
        while i < n
            invariant
                0 <= i <= n,
                out@.len() == i,
                forall|j: int|
                    0 <= j < i ==> (#[trigger] out@[j]).0 == self.params.derivative_index_list@[j]
                        && out@[j].1 as int == self.spec_active_bonded_of(out@[j].0) && out@[j].2
                        as int == self.spec_total_bonded_of(out@[j].0),
            decreases n - i,
        {
            let idx = self.params.derivative_index_list[i];
            let active = self.active_bonded_of(idx);
            let total = self.total_bonded_of(idx);
            out.push((idx, active, total));
            i = i + 1;
        }
        out
    }

    /// One row per configured delegate: its index and unbonding balance.
    #[verifier::loop_isolation(false)]
    fn rebond_amounts_list(&self) -> (r: Vec<(DerivativeIndex, Balance)>)
        requires
            self.inv(),
        ensures
            r@.len() == self.params.derivative_index_list@.len(),
            forall|j: int|
                0 <= j < r@.len() ==> (#[trigger] r@[j]).0 == self.params.derivative_index_list@[j]
                    && r@[j].1 as int == self.spec_unbonding_of(r@[j].0),
    {
        let n = self.params.derivative_index_list.len();
        let mut out: Vec<(DerivativeIndex, Balance)> = Vec::new();
        let mut i: usize = 0;
        while i < n
            invariant
                0 <= i <= n,
                out@.len() == i,
                forall|j: int|
                    0 <= j < i ==> (#[trigger] out@[j]).0 == self.params.derivative_index_list@[j]
                        && out@[j].1 as int == self.spec_unbonding_of(out@[j].0),
            decreases n - i,
        {
            let idx = self.params.derivative_index_list[i];
            let unbonding = self.unbonding_of(idx);
            out.push((idx, unbonding));
            i = i + 1;
        }
        out
    }

    /// One row per delegate that can take another unlock chunk: its
    /// index and active bond.  Delegates without a ledger or at the
    /// chunk cap are left out, so an unbond split over these rows can
    /// always be recorded.
    #[verifier::loop_isolation(false)]
    fn unbond_amounts_list(&self) -> (r: Vec<(DerivativeIndex, Balance)>)
        requires
            self.inv(),
        ensures
            r@.len() <= self.params.derivative_index_list@.len(),
            forall|k1: int, k2: int|
                0 <= k1 < k2 < r@.len() ==> (#[trigger] r@[k1]).0 != (#[trigger] r@[k2]).0,
            forall|k: int|
                0 <= k < r@.len() ==> self.params.derivative_index_list@.contains(
                    (#[trigger] r@[k]).0,
                ) && self.spec_chunk_room(r@[k].0) && r@[k].1 as int == self.spec_active_bonded_of(
                    r@[k].0,
                ),
    {
        let n = self.params.derivative_index_list.len();
        let mut out: Vec<(DerivativeIndex, Balance)> = Vec::new();
        let mut i: usize = 0;
        while i < n
            invariant
                0 <= i <= n,
                out@.len() <= i,
                forall|k1: int, k2: int|
                    0 <= k1 < k2 < out@.len() ==> (#[trigger] out@[k1]).0 != (
                    #[trigger] out@[k2]).0,
                forall|k: int|
                    0 <= k < out@.len() ==> self.params.derivative_index_list@.contains(
                        (#[trigger] out@[k]).0,
                    ) && self.spec_chunk_room(out@[k].0) && out@[k].1 as int
                        == self.spec_active_bonded_of(out@[k].0) && exists|j: int|
                        0 <= j < i && self.params.derivative_index_list@[j] == out@[k].0,
            decreases n - i,
        {
            let idx = self.params.derivative_index_list[i];
            let pos = self.staking_ledgers.position(idx);
            if pos < self.staking_ledgers.entries.len() {
                proof {
                    crate::kv::lemma_assoc_index(self.staking_ledgers.entries@, pos as int);
                }
                if self.staking_ledgers.entries[pos].1.unlocking.len() < MAX_UNLOCKING_CHUNKS {
                    let active = self.staking_ledgers.entries[pos].1.active;
                    proof {
                        assert forall|k: int| 0 <= k < out@.len() implies (#[trigger] out@[k]).0
                            != idx by {
                            let j = choose|j: int|
                                0 <= j < i && self.params.derivative_index_list@[j] == out@[k].0;
                            assert(self.params.derivative_index_list@[j]
                                != self.params.derivative_index_list@[i as int]);
                        }
                        assert(self.params.derivative_index_list@[i as int] == idx);
                    }
                    out.push((idx, active));
                }
            }
            i = i + 1;
        }
        out
    }

    /// Splits the aggregate bond delta across delegates and records one
    /// submission per chosen delegate.  Cannot fail: the pool lock and
    /// the id headroom are covered by the preconditions, and the
    /// strategy's contract keeps every split within the caps.
    #[verifier::loop_isolation(false)]
    fn do_multi_bond<S: crate::distribution::DistributionStrategy>(
        &mut self,
        strategy: &S,
        total_amount: Balance,
        payee: RewardDestination,
    ) -> (r: Result<(), Error>)
        requires
            old(self).inv(),
            old(self).matching_pool.total_stake_amount.locked + total_amount <= old(
                self,
            ).matching_pool.total_stake_amount.total,
            old(self).next_query_id + old(self).params.derivative_index_list@.len()
                <= u64::MAX,
        ensures
            final(self).inv(),
            r == Ok::<(), Error>(()),
            *final(self) == (Pallet {
                matching_pool: final(self).matching_pool,
                xcm_requests: final(self).xcm_requests,
                next_query_id: final(self).next_query_id,
                ..*old(self)
            }),
            final(self).matching_pool.total_stake_amount.total == old(
                self,
            ).matching_pool.total_stake_amount.total,
            final(self).matching_pool.total_unstake_amount == old(
                self,
            ).matching_pool.total_unstake_amount,
            old(self).matching_pool.total_stake_amount.locked
                <= final(self).matching_pool.total_stake_amount.locked,
            final(self).matching_pool.total_stake_amount.locked
                <= old(self).matching_pool.total_stake_amount.locked + total_amount,
            old(self).next_query_id <= final(self).next_query_id,
            final(self).next_query_id <= old(self).next_query_id + old(
                self,
            ).params.derivative_index_list@.len(),
            final(self).xcm_requests.entries@.len() >= old(self).xcm_requests.entries@.len(),
            final(self).xcm_requests.entries@.take(
                old(self).xcm_requests.entries@.len() as int,
            ) == old(self).xcm_requests.entries@,
            final(self).matching_pool.total_stake_amount.locked as int == old(
                self,
            ).matching_pool.total_stake_amount.locked + crate::requests::stake_request_sum(
                final(self).xcm_requests.entries@.skip(
                    old(self).xcm_requests.entries@.len() as int,
                ),
            ),
            crate::requests::unstake_request_sum(
                final(self).xcm_requests.entries@.skip(
                    old(self).xcm_requests.entries@.len() as int,
                ),
            ) == 0,
            forall|q: QueryId|
                #[trigger] old(self).xcm_requests.as_map().dom().contains(q) ==> final(self).xcm_requests.as_map().dom().contains(q) && final(self).xcm_requests.as_map()[q]
                    == old(self).xcm_requests.as_map()[q],
    {
        if total_amount == 0 {
            return Ok(());
        }
        let amounts = self.bond_amounts_list();
        let dists = strategy.get_bond_distributions(
            &amounts,
            total_amount,
            self.staking_ledger_cap,
            self.params.min_nominator_bond,
        );
        proof {
            assert forall|k: int| 0 <= k < dists@.len() implies
                self.params.derivative_index_list@.contains((#[trigger] dists@[k]).0) by {
                let j = choose|j: int|
                    0 <= j < amounts@.len() && (#[trigger] amounts@[j]).0 == dists@[k].0
                        && amounts@[j].2 + dists@[k].1 <= self.staking_ledger_cap;
                assert(self.params.derivative_index_list@[j] == dists@[k].0);
            }
            crate::distribution::lemma_dist_len_bounded(
                dists@,
                self.params.derivative_index_list@,
            );
            crate::distribution::lemma_dist_sum_nonneg(dists@);
        }
        let n = dists.len();
        let mut k: usize = 0;
        while k < n
            invariant
                0 <= k <= n,
                self.inv(),
                *self == (Pallet {
                    matching_pool: self.matching_pool,
                    xcm_requests: self.xcm_requests,
                    next_query_id: self.next_query_id,
                    ..*old(self)
                }),
                self.matching_pool.total_stake_amount.total == old(
                    self,
                ).matching_pool.total_stake_amount.total,
                self.matching_pool.total_unstake_amount == old(
                    self,
                ).matching_pool.total_unstake_amount,
                self.matching_pool.total_stake_amount.locked == old(
                    self,
                ).matching_pool.total_stake_amount.locked + crate::distribution::dist_sum(
                    dists@.take(k as int),
                ),
                old(self).next_query_id <= self.next_query_id,
                self.next_query_id <= old(self).next_query_id + k,
                self.xcm_requests.entries@.len() >= old(self).xcm_requests.entries@.len(),
                self.xcm_requests.entries@.take(old(self).xcm_requests.entries@.len() as int)
                    == old(self).xcm_requests.entries@,
                self.matching_pool.total_stake_amount.locked as int == old(
                    self,
                ).matching_pool.total_stake_amount.locked + crate::requests::stake_request_sum(
                    self.xcm_requests.entries@.skip(
                        old(self).xcm_requests.entries@.len() as int,
                    ),
                ),
                crate::requests::unstake_request_sum(
                    self.xcm_requests.entries@.skip(
                        old(self).xcm_requests.entries@.len() as int,
                    ),
                ) == 0,
                forall|q: QueryId|
                    #[trigger] old(self).xcm_requests.as_map().dom().contains(q)
                        ==> self.xcm_requests.as_map().dom().contains(q)
                        && self.xcm_requests.as_map()[q] == old(self).xcm_requests.as_map()[q],
            decreases n - k,
        {
            proof {
                crate::distribution::lemma_dist_sum_take_step(dists@, k as int);
                crate::distribution::lemma_dist_sum_take_le(dists@, k + 1);
                crate::distribution::lemma_dist_sum_nonneg(dists@.take(k as int));
            }
            let entry = dists[k];
            let idx = entry.0;
            let a = entry.1;
            proof {
                let j = choose|j: int|
                    0 <= j < amounts@.len() && (#[trigger] amounts@[j]).0 == idx && amounts@[j].2
                        + a <= self.staking_ledger_cap;
                assert(self.params.derivative_index_list@[j] == idx);
                assert(self.params.derivative_index_list@.contains(idx));
                assert(amounts@[j].2 as int == self.spec_total_bonded_of(idx));
            }
            let ghost pe = self.xcm_requests.entries@;
            let res = self.bond(idx, a, payee);
            proof {
                assert(res.is_ok());
                lemma_entries_extended(
                    pe,
                    self.xcm_requests.entries@,
                    old(self).xcm_requests.entries@.len() as int,
                    self.xcm_requests.entries@.last(),
                );
            }
            k = k + 1;
        }
        proof {
            assert(dists@.take(n as int) =~= dists@);
        }
        Ok(())
    }

    /// Splits the aggregate rebond delta and records one submission per
    /// chosen delegate.  Incoming stake finances the rebond, so the
    /// pool's stake side takes the lock.
    #[verifier::loop_isolation(false)]
    fn do_multi_rebond<S: crate::distribution::DistributionStrategy>(
        &mut self,
        strategy: &S,
        total_amount: Balance,
    ) -> (r: Result<(), Error>)
        requires
            old(self).inv(),
            old(self).matching_pool.total_stake_amount.locked + total_amount <= old(
                self,
            ).matching_pool.total_stake_amount.total,
            old(self).next_query_id + old(self).params.derivative_index_list@.len()
                <= u64::MAX,
        ensures
            final(self).inv(),
            r == Ok::<(), Error>(()),
            *final(self) == (Pallet {
                matching_pool: final(self).matching_pool,
                xcm_requests: final(self).xcm_requests,
                next_query_id: final(self).next_query_id,
                ..*old(self)
            }),
            final(self).matching_pool.total_stake_amount.total == old(
                self,
            ).matching_pool.total_stake_amount.total,
            final(self).matching_pool.total_unstake_amount == old(
                self,
            ).matching_pool.total_unstake_amount,
            old(self).matching_pool.total_stake_amount.locked
                <= final(self).matching_pool.total_stake_amount.locked,
            final(self).matching_pool.total_stake_amount.locked
                <= old(self).matching_pool.total_stake_amount.locked + total_amount,
            old(self).next_query_id <= final(self).next_query_id,
            final(self).next_query_id <= old(self).next_query_id + old(
                self,
            ).params.derivative_index_list@.len(),
            final(self).xcm_requests.entries@.len() >= old(self).xcm_requests.entries@.len(),
            final(self).xcm_requests.entries@.take(
                old(self).xcm_requests.entries@.len() as int,
            ) == old(self).xcm_requests.entries@,
            final(self).matching_pool.total_stake_amount.locked as int == old(
                self,
            ).matching_pool.total_stake_amount.locked + crate::requests::stake_request_sum(
                final(self).xcm_requests.entries@.skip(
                    old(self).xcm_requests.entries@.len() as int,
                ),
            ),
            crate::requests::unstake_request_sum(
                final(self).xcm_requests.entries@.skip(
                    old(self).xcm_requests.entries@.len() as int,
                ),
            ) == 0,
            forall|q: QueryId|
                #[trigger] old(self).xcm_requests.as_map().dom().contains(q) ==> final(self).xcm_requests.as_map().dom().contains(q) && final(self).xcm_requests.as_map()[q]
                    == old(self).xcm_requests.as_map()[q],
    {
        if total_amount == 0 {
            return Ok(());
        }
        let amounts = self.rebond_amounts_list();
        let dists = strategy.get_rebond_distributions(&amounts, total_amount);
        proof {
            assert forall|k: int| 0 <= k < dists@.len() implies
                self.params.derivative_index_list@.contains((#[trigger] dists@[k]).0) by {
                let j = choose|j: int|
                    0 <= j < amounts@.len() && (#[trigger] amounts@[j]).0 == dists@[k].0
                        && dists@[k].1 <= amounts@[j].1;
                assert(self.params.derivative_index_list@[j] == dists@[k].0);
            }
            crate::distribution::lemma_dist_len_bounded(
                dists@,
                self.params.derivative_index_list@,
            );
            crate::distribution::lemma_dist_sum_nonneg(dists@);
        }
        let n = dists.len();
        let mut k: usize = 0;
        while k < n
            invariant
                0 <= k <= n,
                self.inv(),
                *self == (Pallet {
                    matching_pool: self.matching_pool,
                    xcm_requests: self.xcm_requests,
                    next_query_id: self.next_query_id,
                    ..*old(self)
                }),
                self.matching_pool.total_stake_amount.total == old(
                    self,
                ).matching_pool.total_stake_amount.total,
                self.matching_pool.total_unstake_amount == old(
                    self,
                ).matching_pool.total_unstake_amount,
                self.matching_pool.total_stake_amount.locked == old(
                    self,
                ).matching_pool.total_stake_amount.locked + crate::distribution::dist_sum(
                    dists@.take(k as int),
                ),
                old(self).next_query_id <= self.next_query_id,
                self.next_query_id <= old(self).next_query_id + k,
                self.xcm_requests.entries@.len() >= old(self).xcm_requests.entries@.len(),
                self.xcm_requests.entries@.take(old(self).xcm_requests.entries@.len() as int)
                    == old(self).xcm_requests.entries@,
                self.matching_pool.total_stake_amount.locked as int == old(
                    self,
                ).matching_pool.total_stake_amount.locked + crate::requests::stake_request_sum(
                    self.xcm_requests.entries@.skip(
                        old(self).xcm_requests.entries@.len() as int,
                    ),
                ),
                crate::requests::unstake_request_sum(
                    self.xcm_requests.entries@.skip(
                        old(self).xcm_requests.entries@.len() as int,
                    ),
                ) == 0,
                forall|q: QueryId|
                    #[trigger] old(self).xcm_requests.as_map().dom().contains(q)
                        ==> self.xcm_requests.as_map().dom().contains(q)
                        && self.xcm_requests.as_map()[q] == old(self).xcm_requests.as_map()[q],
            decreases n - k,
        {
            proof {
                crate::distribution::lemma_dist_sum_take_step(dists@, k as int);
                crate::distribution::lemma_dist_sum_take_le(dists@, k + 1);
                crate::distribution::lemma_dist_sum_nonneg(dists@.take(k as int));
            }
            let entry = dists[k];
            let idx = entry.0;
            let a = entry.1;
            proof {
                let j = choose|j: int|
                    0 <= j < amounts@.len() && (#[trigger] amounts@[j]).0 == idx && a
                        <= amounts@[j].1;
                assert(self.params.derivative_index_list@[j] == idx);
                assert(self.params.derivative_index_list@.contains(idx));
                assert(amounts@[j].1 as int == self.spec_unbonding_of(idx));
                assert(self.staking_ledgers.as_map().dom().contains(idx));
            }
            let ghost pe = self.xcm_requests.entries@;
            let res = self.rebond(idx, a);
            proof {
                assert(res.is_ok());
                lemma_entries_extended(
                    pe,
                    self.xcm_requests.entries@,
                    old(self).xcm_requests.entries@.len() as int,
                    self.xcm_requests.entries@.last(),
                );
            }
            k = k + 1;
        }
        proof {
            assert(dists@.take(n as int) =~= dists@);
        }
        Ok(())
    }

    /// Splits the aggregate unbond delta over the delegates that can
    /// still take an unlock chunk and records one submission per chosen
    /// delegate.  The pool's unstake side takes the lock.
    #[verifier::loop_isolation(false)]
    fn do_multi_unbond<S: crate::distribution::DistributionStrategy>(
        &mut self,
        strategy: &S,
        total_amount: Balance,
    ) -> (r: Result<(), Error>)
        requires
            old(self).inv(),
            old(self).matching_pool.total_unstake_amount.locked + total_amount <= old(
                self,
            ).matching_pool.total_unstake_amount.total,
            old(self).next_query_id + old(self).params.derivative_index_list@.len()
                <= u64::MAX,
        ensures
            final(self).inv(),
            r == Ok::<(), Error>(()),
            *final(self) == (Pallet {
                matching_pool: final(self).matching_pool,
                xcm_requests: final(self).xcm_requests,
                next_query_id: final(self).next_query_id,
                ..*old(self)
            }),
            final(self).matching_pool.total_unstake_amount.total == old(
                self,
            ).matching_pool.total_unstake_amount.total,
            final(self).matching_pool.total_stake_amount == old(
                self,
            ).matching_pool.total_stake_amount,
            old(self).matching_pool.total_unstake_amount.locked
                <= final(self).matching_pool.total_unstake_amount.locked,
            final(self).matching_pool.total_unstake_amount.locked
                <= old(self).matching_pool.total_unstake_amount.locked + total_amount,
            old(self).next_query_id <= final(self).next_query_id,
            final(self).next_query_id <= old(self).next_query_id + old(
                self,
            ).params.derivative_index_list@.len(),
            final(self).xcm_requests.entries@.len() >= old(self).xcm_requests.entries@.len(),
            final(self).xcm_requests.entries@.take(
                old(self).xcm_requests.entries@.len() as int,
            ) == old(self).xcm_requests.entries@,
            final(self).matching_pool.total_unstake_amount.locked as int == old(
                self,
            ).matching_pool.total_unstake_amount.locked + crate::requests::unstake_request_sum(
                final(self).xcm_requests.entries@.skip(
                    old(self).xcm_requests.entries@.len() as int,
                ),
            ),
            crate::requests::stake_request_sum(
                final(self).xcm_requests.entries@.skip(
                    old(self).xcm_requests.entries@.len() as int,
                ),
            ) == 0,
            forall|q: QueryId|
                #[trigger] old(self).xcm_requests.as_map().dom().contains(q) ==> final(self).xcm_requests.as_map().dom().contains(q) && final(self).xcm_requests.as_map()[q]
                    == old(self).xcm_requests.as_map()[q],
    {
        if total_amount == 0 {
            return Ok(());
        }
        let amounts = self.unbond_amounts_list();
        let dists = strategy.get_unbond_distributions(
            &amounts,
            total_amount,
            self.params.min_nominator_bond,
        );
        proof {
            assert forall|k: int| 0 <= k < dists@.len() implies
                self.params.derivative_index_list@.contains((#[trigger] dists@[k]).0) by {
                let j = choose|j: int|
                    0 <= j < amounts@.len() && (#[trigger] amounts@[j]).0 == dists@[k].0
                        && dists@[k].1 + self.params.min_nominator_bond <= amounts@[j].1;
                assert(self.params.derivative_index_list@.contains(amounts@[j].0));
            }
            crate::distribution::lemma_dist_len_bounded(
                dists@,
                self.params.derivative_index_list@,
            );
            crate::distribution::lemma_dist_sum_nonneg(dists@);
        }
        let n = dists.len();
        let mut k: usize = 0;
        while k < n
            invariant
                0 <= k <= n,
                self.inv(),
                *self == (Pallet {
                    matching_pool: self.matching_pool,
                    xcm_requests: self.xcm_requests,
                    next_query_id: self.next_query_id,
                    ..*old(self)
                }),
                self.matching_pool.total_unstake_amount.total == old(
                    self,
                ).matching_pool.total_unstake_amount.total,
                self.matching_pool.total_stake_amount == old(
                    self,
                ).matching_pool.total_stake_amount,
                self.matching_pool.total_unstake_amount.locked == old(
                    self,
                ).matching_pool.total_unstake_amount.locked + crate::distribution::dist_sum(
                    dists@.take(k as int),
                ),
                old(self).next_query_id <= self.next_query_id,
                self.next_query_id <= old(self).next_query_id + k,
                self.xcm_requests.entries@.len() >= old(self).xcm_requests.entries@.len(),
                self.xcm_requests.entries@.take(old(self).xcm_requests.entries@.len() as int)
                    == old(self).xcm_requests.entries@,
                self.matching_pool.total_unstake_amount.locked as int == old(
                    self,
                ).matching_pool.total_unstake_amount.locked + crate::requests::unstake_request_sum(
                    self.xcm_requests.entries@.skip(
                        old(self).xcm_requests.entries@.len() as int,
                    ),
                ),
                crate::requests::stake_request_sum(
                    self.xcm_requests.entries@.skip(
                        old(self).xcm_requests.entries@.len() as int,
                    ),
                ) == 0,
                forall|q: QueryId|
                    #[trigger] old(self).xcm_requests.as_map().dom().contains(q)
                        ==> self.xcm_requests.as_map().dom().contains(q)
                        && self.xcm_requests.as_map()[q] == old(self).xcm_requests.as_map()[q],
            decreases n - k,
        {
            proof {
                crate::distribution::lemma_dist_sum_take_step(dists@, k as int);
                crate::distribution::lemma_dist_sum_take_le(dists@, k + 1);
                crate::distribution::lemma_dist_sum_nonneg(dists@.take(k as int));
            }
            let entry = dists[k];
            let idx = entry.0;
            let a = entry.1;
            proof {
                let j = choose|j: int|
                    0 <= j < amounts@.len() && (#[trigger] amounts@[j]).0 == idx && a
                        + self.params.min_nominator_bond <= amounts@[j].1;
                assert(self.params.derivative_index_list@.contains(idx));
                assert(self.spec_chunk_room(idx));
                assert(amounts@[j].1 as int == self.spec_active_bonded_of(idx));
                assert(self.staking_ledgers.as_map().dom().contains(idx));
            }
            let ghost pe = self.xcm_requests.entries@;
            let res = self.unbond(idx, a);
            proof {
                assert(res.is_ok());
                lemma_entries_extended(
                    pe,
                    self.xcm_requests.entries@,
                    old(self).xcm_requests.entries@.len() as int,
                    self.xcm_requests.entries@.last(),
                );
            }
            k = k + 1;
        }
        proof {
            assert(dists@.take(n as int) =~= dists@);
        }
        Ok(())
    }

    /// Records a withdrawal submission for every delegate with matured
    /// unlocks.
    #[verifier::loop_isolation(false)]
    fn do_multi_withdraw_unbonded(&mut self, num_slashing_spans: u32) -> (r: Result<(), Error>)
        requires
            old(self).inv(),
            old(self).next_query_id + old(self).staking_ledgers.entries@.len() <= u64::MAX,
        ensures
            final(self).inv(),
            r == Ok::<(), Error>(()),
            *final(self) == (Pallet {
                xcm_requests: final(self).xcm_requests,
                next_query_id: final(self).next_query_id,
                ..*old(self)
            }),
            old(self).next_query_id <= final(self).next_query_id,
            final(self).next_query_id <= old(self).next_query_id + old(
                self,
            ).staking_ledgers.entries@.len(),
            final(self).xcm_requests.entries@.len() >= old(self).xcm_requests.entries@.len(),
            final(self).xcm_requests.entries@.take(
                old(self).xcm_requests.entries@.len() as int,
            ) == old(self).xcm_requests.entries@,
            crate::requests::stake_request_sum(
                final(self).xcm_requests.entries@.skip(
                    old(self).xcm_requests.entries@.len() as int,
                ),
            ) == 0,
            crate::requests::unstake_request_sum(
                final(self).xcm_requests.entries@.skip(
                    old(self).xcm_requests.entries@.len() as int,
                ),
            ) == 0,
            forall|q: QueryId|
                #[trigger] old(self).xcm_requests.as_map().dom().contains(q) ==> final(self).xcm_requests.as_map().dom().contains(q) && final(self).xcm_requests.as_map()[q]
                    == old(self).xcm_requests.as_map()[q],
    {
        let n = self.staking_ledgers.entries.len();
        let mut k: usize = 0;
        while k < n
            invariant
                0 <= k <= n,
                n == self.staking_ledgers.entries@.len(),
                self.inv(),
                *self == (Pallet {
                    matching_pool: self.matching_pool,
                    xcm_requests: self.xcm_requests,
                    next_query_id: self.next_query_id,
                    ..*old(self)
                }),
                self.matching_pool == old(self).matching_pool,
                old(self).next_query_id <= self.next_query_id,
                self.next_query_id <= old(self).next_query_id + k,
                self.xcm_requests.entries@.len() >= old(self).xcm_requests.entries@.len(),
                self.xcm_requests.entries@.take(old(self).xcm_requests.entries@.len() as int)
                    == old(self).xcm_requests.entries@,
                crate::requests::stake_request_sum(
                    self.xcm_requests.entries@.skip(
                        old(self).xcm_requests.entries@.len() as int,
                    ),
                ) == 0,
                crate::requests::unstake_request_sum(
                    self.xcm_requests.entries@.skip(
                        old(self).xcm_requests.entries@.len() as int,
                    ),
                ) == 0,
                forall|q: QueryId|
                    #[trigger] old(self).xcm_requests.as_map().dom().contains(q)
                        ==> self.xcm_requests.as_map().dom().contains(q)
                        && self.xcm_requests.as_map()[q] == old(self).xcm_requests.as_map()[q],
            decreases n - k,
        {
            let idx = self.staking_ledgers.entries[k].0;
            proof {
                crate::kv::lemma_assoc_index(self.staking_ledgers.entries@, k as int);
            }
            let ghost pe = self.xcm_requests.entries@;
            let res = self.withdraw_unbonded(idx, num_slashing_spans);
            proof {
                assert(res.is_ok());
                if self.xcm_requests.entries@ != pe {
                    lemma_entries_extended(
                        pe,
                        self.xcm_requests.entries@,
                        old(self).xcm_requests.entries@.len() as int,
                        self.xcm_requests.entries@.last(),
                    );
                }
            }
            k = k + 1;
        }
        Ok(())
    }
}

impl Pallet {
    /// Enough correlation ids remain for a full matching round: at most
    /// one per delegate for each of bond, rebond and unbond, and one per
    /// existing ledger for withdrawal.
    pub open spec fn matching_budget_ok(self) -> bool {
        self.next_query_id + 3 * self.params.derivative_index_list@.len()
            + self.staking_ledgers.entries@.len() <= u64::MAX
    }

    /// Aggregate unbonding balance as the matching round sees it.
    pub open spec fn spec_total_unbonding(self) -> int {
        if crate::kv::ledgers_total_sum(self.staking_ledgers.entries@)
            - crate::kv::ledgers_active_sum(self.staking_ledgers.entries@) <= u128::MAX as int {
            crate::kv::ledgers_total_sum(self.staking_ledgers.entries@)
                - crate::kv::ledgers_active_sum(self.staking_ledgers.entries@)
        } else {
            u128::MAX as int
        }
    }

    /// Runs one matching round: nets the pool's two sides, splits the
    /// bond, rebond and unbond deltas across the delegates through the
    /// strategy, and records one pending submission per chosen delegate
    /// plus one withdrawal per delegate with matured unlocks.  Returns
    /// the aggregate `(bond, rebond, unbond)` deltas.  The round either
    /// applies completely or, when the correlation-id space is exhausted,
    /// not at all.
    pub fn do_matching<S: crate::distribution::DistributionStrategy>(&mut self, strategy: &S) -> (r:
        Result<(Balance, Balance, Balance), Error>)
        requires
            old(self).inv(),
        ensures
            final(self).inv(),
            r.is_err() <==> !old(self).matching_budget_ok(),
            r.is_err() ==> r == Err::<(Balance, Balance, Balance), Error>(
                Error::ArithmeticOverflow,
            ) && *final(self) == *old(self),
            r matches Ok(v) ==> ({
                let ub = old(self).spec_total_unbonding();
                &&& v.0 as int == old(self).matching_pool.spec_bond_amount(ub)
                &&& v.1 as int == old(self).matching_pool.spec_rebond_amount(ub)
                &&& v.2 as int == old(self).matching_pool.spec_unbond_amount(ub)
                &&& v.0 == 0 || v.2 == 0
            }),
            r.is_ok() ==> *final(self) == (Pallet {
                matching_pool: final(self).matching_pool,
                xcm_requests: final(self).xcm_requests,
                next_query_id: final(self).next_query_id,
                is_matched: true,
                ..*old(self)
            }),
            r.is_ok() ==> final(self).matching_pool.total_stake_amount.total == old(
                self,
            ).matching_pool.total_stake_amount.total
                && final(self).matching_pool.total_unstake_amount.total == old(
                self,
            ).matching_pool.total_unstake_amount.total && old(
                self,
            ).matching_pool.total_stake_amount.locked
                <= final(self).matching_pool.total_stake_amount.locked && old(
                self,
            ).matching_pool.total_unstake_amount.locked
                <= final(self).matching_pool.total_unstake_amount.locked,
            r.is_ok() ==> old(self).next_query_id <= final(self).next_query_id,
            r.is_ok() ==> final(self).xcm_requests.entries@.take(
                old(self).xcm_requests.entries@.len() as int,
            ) == old(self).xcm_requests.entries@,
            r.is_ok() ==> final(self).matching_pool.total_stake_amount.locked as int == old(
                self,
            ).matching_pool.total_stake_amount.locked + crate::requests::stake_request_sum(
                final(self).xcm_requests.entries@.skip(
                    old(self).xcm_requests.entries@.len() as int,
                ),
            ),
            r.is_ok() ==> final(self).matching_pool.total_unstake_amount.locked as int == old(
                self,
            ).matching_pool.total_unstake_amount.locked + crate::requests::unstake_request_sum(
                final(self).xcm_requests.entries@.skip(
                    old(self).xcm_requests.entries@.len() as int,
                ),
            ),
            r.is_ok() ==> final(self).matching_pool.total_stake_amount.locked as int <= old(
                self,
            ).matching_pool.total_stake_amount.locked + old(self).matching_pool.spec_bond_amount(
                old(self).spec_total_unbonding(),
            ) + old(self).matching_pool.spec_rebond_amount(old(self).spec_total_unbonding()),
            r.is_ok() ==> final(self).matching_pool.total_unstake_amount.locked as int <= old(
                self,
            ).matching_pool.total_unstake_amount.locked + old(self).matching_pool.spec_unbond_amount(
                old(self).spec_total_unbonding(),
            ),
            forall|q: QueryId|
                #[trigger] old(self).xcm_requests.as_map().dom().contains(q) ==> final(self).xcm_requests.as_map().dom().contains(q) && final(self).xcm_requests.as_map()[q]
                    == old(self).xcm_requests.as_map()[q],
    {
        let total_unbonding = self.get_total_unbonding();
        let deltas = self.matching_pool.matching(total_unbonding);
        let bond_amount = deltas.0;
        let rebond_amount = deltas.1;
        let unbond_amount = deltas.2;
        let list_len = self.params.derivative_index_list.len() as u128;
        let ledger_len = self.staking_ledgers.entries.len() as u128;
        let needed = 3 * list_len + ledger_len;
        if (self.next_query_id as u128) + needed > u64::MAX as u128 {
            return Err(Error::ArithmeticOverflow);
        }
        self.is_matched = true;
        let ghost g0 = *self;
        let res_bond = self.do_multi_bond(strategy, bond_amount, RewardDestination::Staked);
        proof {
            assert(res_bond.is_ok());
        }
        let ghost g1 = *self;
        let res_rebond = self.do_multi_rebond(strategy, rebond_amount);
        proof {
            assert(res_rebond.is_ok());
        }
        let ghost g2 = *self;
        let res_unbond = self.do_multi_unbond(strategy, unbond_amount);
        proof {
            assert(res_unbond.is_ok());
        }
        let ghost g3 = *self;
        let res_withdraw = self.do_multi_withdraw_unbonded(self.params.num_slashing_spans);
        proof {
            assert(res_withdraw.is_ok());
            assert forall|q: QueryId|
                #[trigger] old(self).xcm_requests.as_map().dom().contains(q) implies
                self.xcm_requests.as_map().dom().contains(q) && self.xcm_requests.as_map()[q]
                    == old(self).xcm_requests.as_map()[q] by {
                assert(g0.xcm_requests.as_map().dom().contains(q));
                assert(g1.xcm_requests.as_map().dom().contains(q));
                assert(g2.xcm_requests.as_map().dom().contains(q));
                assert(g3.xcm_requests.as_map().dom().contains(q));
            }
            lemma_suffix_chain(
                g0.xcm_requests.entries@,
                g1.xcm_requests.entries@,
                g2.xcm_requests.entries@,
                g3.xcm_requests.entries@,
                self.xcm_requests.entries@,
            );
        }
        Ok((bond_amount, rebond_amount, unbond_amount))
    }

    /// Administrative matching round.
    pub fn force_matching<S: crate::distribution::DistributionStrategy>(&mut self, strategy: &S) -> (
        r: Result<(Balance, Balance, Balance), Error>)
        requires
            old(self).inv(),
        ensures
            final(self).inv(),
            r.is_err() <==> !old(self).matching_budget_ok(),
            r.is_err() ==> *final(self) == *old(self),
            r matches Ok(v) ==> ({
                let ub = old(self).spec_total_unbonding();
                &&& v.0 as int == old(self).matching_pool.spec_bond_amount(ub)
                &&& v.1 as int == old(self).matching_pool.spec_rebond_amount(ub)
                &&& v.2 as int == old(self).matching_pool.spec_unbond_amount(ub)
            }),
            r.is_ok() ==> *final(self) == (Pallet {
                matching_pool: final(self).matching_pool,
                xcm_requests: final(self).xcm_requests,
                next_query_id: final(self).next_query_id,
                is_matched: true,
                ..*old(self)
            }) && final(self).matching_pool.total_stake_amount.total == old(
                self,
            ).matching_pool.total_stake_amount.total
                && final(self).matching_pool.total_unstake_amount.total == old(
                self,
            ).matching_pool.total_unstake_amount.total,
            r.is_ok() ==> final(self).xcm_requests.entries@.take(
                old(self).xcm_requests.entries@.len() as int,
            ) == old(self).xcm_requests.entries@,
            r.is_ok() ==> final(self).matching_pool.total_stake_amount.locked as int == old(
                self,
            ).matching_pool.total_stake_amount.locked + crate::requests::stake_request_sum(
                final(self).xcm_requests.entries@.skip(
                    old(self).xcm_requests.entries@.len() as int,
                ),
            ),
            r.is_ok() ==> final(self).matching_pool.total_unstake_amount.locked as int == old(
                self,
            ).matching_pool.total_unstake_amount.locked + crate::requests::unstake_request_sum(
                final(self).xcm_requests.entries@.skip(
                    old(self).xcm_requests.entries@.len() as int,
                ),
            ),
            r.is_ok() ==> final(self).matching_pool.total_stake_amount.locked as int <= old(
                self,
            ).matching_pool.total_stake_amount.locked + old(self).matching_pool.spec_bond_amount(
                old(self).spec_total_unbonding(),
            ) + old(self).matching_pool.spec_rebond_amount(old(self).spec_total_unbonding()),
            r.is_ok() ==> final(self).matching_pool.total_unstake_amount.locked as int <= old(
                self,
            ).matching_pool.total_unstake_amount.locked + old(self).matching_pool.spec_unbond_amount(
                old(self).spec_total_unbonding(),
            ),
    {
        self.do_matching(strategy)
    }

    /// Whether the periodic tick should run a matching round now.
    pub open spec fn should_match(self, relaychain_block_number: BlockNumber) -> bool {
        &&& !self.is_matched
        &&& (if self.params.election_solution_stored_offset + self.era_start_block
            <= u64::MAX as int {
            self.params.election_solution_stored_offset + self.era_start_block
        } else {
            u64::MAX as int
        }) <= relaychain_block_number
    }

    /// The periodic tick: runs the matching round once per era when its
    /// trigger height is reached, then advances the era by however many
    /// whole era lengths the oracle has moved.  A failed matching round
    /// rolls the whole tick back.
    pub fn on_initialize<S: crate::distribution::DistributionStrategy>(
        &mut self,
        strategy: &S,
        relaychain_block_number: BlockNumber,
        issuance: Balance,
    )
        requires
            old(self).inv(),
        ensures
            final(self).inv(),
            final(self).staking_ledgers == old(self).staking_ledgers,
            final(self).unlockings == old(self).unlockings,
            final(self).fast_unstake_requests == old(self).fast_unstake_requests,
            final(self).total_reserves == old(self).total_reserves,
            final(self).exchange_rate >= old(self).exchange_rate,
            final(self).matching_pool.total_stake_amount.total == old(
                self,
            ).matching_pool.total_stake_amount.total,
            final(self).matching_pool.total_unstake_amount.total == old(
                self,
            ).matching_pool.total_unstake_amount.total,
            final(self).xcm_requests.entries@.take(
                old(self).xcm_requests.entries@.len() as int,
            ) == old(self).xcm_requests.entries@,
            final(self).matching_pool.total_stake_amount.locked as int == old(
                self,
            ).matching_pool.total_stake_amount.locked + crate::requests::stake_request_sum(
                final(self).xcm_requests.entries@.skip(
                    old(self).xcm_requests.entries@.len() as int,
                ),
            ),
            final(self).matching_pool.total_unstake_amount.locked as int == old(
                self,
            ).matching_pool.total_unstake_amount.locked + crate::requests::unstake_request_sum(
                final(self).xcm_requests.entries@.skip(
                    old(self).xcm_requests.entries@.len() as int,
                ),
            ),
            old(self).should_match(relaychain_block_number) && !old(self).matching_budget_ok()
                ==> *final(self) == *old(self),
            !old(self).should_match(relaychain_block_number) && old(self).spec_offset(
                relaychain_block_number,
            ) == 0 ==> *final(self) == *old(self),
            (old(self).should_match(relaychain_block_number) ==> old(self).matching_budget_ok())
                ==> ({
                let off = old(self).spec_offset(relaychain_block_number);
                &&& off == 0 ==> final(self).current_era == old(self).current_era && final(self).era_start_block == old(self).era_start_block
                &&& off > 0 ==> final(self).era_start_block == relaychain_block_number && final(self).current_era as int == (if old(self).current_era + off <= u32::MAX as int {
                    old(self).current_era + off
                } else {
                    u32::MAX as int
                }) && !final(self).is_matched
            }),
    {
        let trigger = if self.era_start_block
            <= u64::MAX - self.params.election_solution_stored_offset {
            self.params.election_solution_stored_offset + self.era_start_block
        } else {
            u64::MAX
        };
        if !self.is_matched && trigger <= relaychain_block_number {
            let res = self.do_matching(strategy);
            if res.is_err() {
                return ;
            }
        }
        let off = self.offset(relaychain_block_number);
        if off == 0 {
            return ;
        }
        self.do_advance_era(off, relaychain_block_number, issuance);
    }
}

} // verus!
