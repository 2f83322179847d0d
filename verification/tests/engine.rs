use liquid_staking::distribution::InOrderDistribution;
use liquid_staking::ledger::StakingLedger;
use liquid_staking::notify::NotificationEffect;
use liquid_staking::pallet::{Pallet, Params};
use liquid_staking::rate::RATE_ONE;
use liquid_staking::staking::{ClaimEffect, UnstakeEffect};
use liquid_staking::{Error, RewardDestination, UnstakeProvider};

fn test_params() -> Params {
    Params {
        min_stake: 10,
        min_unstake: 5,
        xcm_fees: 0,
        bonding_duration: 3,
        era_length: 100,
        min_nominator_bond: 50,
        num_slashing_spans: 0,
        election_solution_stored_offset: 10,
        derivative_index_list: vec![0u16, 1u16],
        derivative_accounts: vec![1000u64, 1001u64],
        loans_instant_unstake_fee: RATE_ONE / 10,
        matching_pool_fast_unstake_fee: RATE_ONE / 100,
        account_id: 1,
        loans_account_id: 2,
        sovereign_account_id: 3,
        protocol_fee_receiver: 4,
        staking_currency: Some(10),
        liquid_currency: Some(11),
        collateral_currency: 12,
        native_currency: 13,
    }
}

fn engine() -> Pallet {
    let mut p = Pallet::new(test_params(), RATE_ONE, 0);
    p.update_staking_ledger_cap(800).unwrap();
    p
}

#[test]
fn stake_nets_to_two_capped_bonds() {
    // Scenario: stake 1000, cap 800 per delegate: the round splits 800/200
    // and confirming both leaves the ledgers holding all of it.
    let mut p = engine();
    p.stake(7, 1000).unwrap();
    assert_eq!(p.matching_pool.total_stake_amount.total, 1000);
    let (bond, rebond, unbond) = p.force_matching(&InOrderDistribution).unwrap();
    assert_eq!((bond, rebond, unbond), (1000, 0, 0));
    assert_eq!(p.matching_pool.total_stake_amount.locked, 1000);
    let first = p.notification_received(0, true).unwrap();
    assert_eq!(first, Some(NotificationEffect::BurnStaking { amount: 800 }));
    let second = p.notification_received(1, true).unwrap();
    assert_eq!(second, Some(NotificationEffect::BurnStaking { amount: 200 }));
    assert_eq!(p.get_total_active_bonded(), 1000);
    assert_eq!(p.total_bonded_of(0), 800);
    assert_eq!(p.total_bonded_of(1), 200);
    assert_eq!(p.matching_pool.total_stake_amount.total, 0);
    assert_eq!(p.matching_pool.total_stake_amount.locked, 0);
}

#[test]
fn unstake_schedules_one_chunk() {
    // Scenario: unstake 500 derivative at rate one with no prior
    // unlockings: the depositor gains one chunk at era + duration + 1.
    let mut p = engine();
    let effect = p
        .unstake(7, 500, UnstakeProvider::RelayChain, 0, 0)
        .unwrap();
    assert_eq!(effect, UnstakeEffect::Scheduled { burn_liquid: 500 });
    let chunks = p.unlockings.get(7).unwrap();
    assert_eq!(chunks.len(), 1);
    assert_eq!(chunks[0].value, 500);
    assert_eq!(chunks[0].era, 4);
    assert_eq!(p.matching_pool.total_unstake_amount.total, 500);
}

#[test]
fn fast_unstake_settles_against_free_liquidity() {
    // Scenario: request 300 when only 100 of stake liquidity is free:
    // 100 settles (minus the one-percent fee), 200 stays queued.
    let mut p = engine();
    p.stake(7, 100).unwrap();
    let queued = p
        .unstake(7, 300, UnstakeProvider::MatchingPool, 300, 0)
        .unwrap();
    assert_eq!(queued, UnstakeEffect::Queued);
    assert_eq!(*p.fast_unstake_requests.get(7).unwrap(), 300);
    let effects = p.fast_match_unstake(&vec![(7u64, 300u128)]).unwrap();
    assert_eq!(effects.len(), 1);
    assert_eq!(effects[0].unstaker, 7);
    assert_eq!(effects[0].fee_liquid, 1);
    assert_eq!(effects[0].burn_liquid, 99);
    assert_eq!(effects[0].payout_staking, 99);
    assert_eq!(*p.fast_unstake_requests.get(7).unwrap(), 200);
    assert_eq!(p.matching_pool.total_stake_amount.total, 1);
}

#[test]
fn unbond_confirmation_matures_and_withdraws() {
    // Scenario: a confirmed unbond moves the amount from active into an
    // unlocking chunk at era + duration; once the era passes, the
    // withdrawal takes it out of the total and returns it.
    let mut p = engine();
    p.stake(7, 200).unwrap();
    p.force_matching(&InOrderDistribution).unwrap();
    p.notification_received(0, true).unwrap();
    assert_eq!(p.active_bonded_of(0), 200);
    p.unstake(8, 100, UnstakeProvider::RelayChain, 0, 0).unwrap();
    p.force_set_current_era(0);
    let (bond, rebond, unbond) = p.force_matching(&InOrderDistribution).unwrap();
    assert_eq!((bond, rebond, unbond), (0, 0, 100));
    assert_eq!(p.notification_received(1, true).unwrap(), None);
    assert_eq!(p.active_bonded_of(0), 100);
    assert_eq!(p.total_bonded_of(0), 200);
    assert_eq!(p.unbonding_of(0), 100);
    let ledger = p.staking_ledgers.get(0).unwrap();
    assert_eq!(ledger.unlocking.len(), 1);
    assert_eq!(ledger.unlocking[0].value, 100);
    assert_eq!(ledger.unlocking[0].era, 3);
    // Nothing is withdrawable before the chunk's era.
    assert_eq!(p.unbonded_of(0), 0);
    p.force_set_current_era(3);
    assert_eq!(p.unbonded_of(0), 100);
    p.force_matching(&InOrderDistribution).unwrap();
    let minted = p.notification_received(2, true).unwrap();
    assert_eq!(minted, Some(NotificationEffect::MintStaking { amount: 100 }));
    assert_eq!(p.total_bonded_of(0), 100);
    assert_eq!(p.active_bonded_of(0), 100);
    assert_eq!(p.staking_ledgers.get(0).unwrap().unlocking.len(), 0);
}

#[test]
fn claim_pays_matured_unlockings() {
    let mut p = engine();
    p.unstake(7, 500, UnstakeProvider::RelayChain, 0, 0).unwrap();
    // Not matured yet.
    assert_eq!(
        p.claim_for(7, 1000, 0, 0),
        Err(Error::NothingToClaim)
    );
    p.force_set_current_era(4);
    // Matured, but the pool has not withdrawn enough yet: the unstake
    // flow of 500 is still counted in the pool's stake total of zero.
    assert_eq!(p.claim_for(7, 100, 0, 0), Err(Error::NotWithdrawn));
    let effect = p.claim_for(7, 1000, 0, 0).unwrap();
    assert_eq!(
        effect,
        ClaimEffect::Transfer { beneficiary: 7, amount: 500 }
    );
    assert!(p.unlockings.get(7).is_none());
    assert_eq!(p.claim_for(7, 1000, 0, 0), Err(Error::NoUnlockings));
}

#[test]
fn loans_unstake_settles_at_once() {
    // The loans path schedules the chunk for the loans pseudo-account and
    // computes the fee, borrow and collateral amounts: ten-percent fee on
    // 100, collateral at a one-half factor is 200.
    let mut p = engine();
    let effect = p
        .unstake(7, 100, UnstakeProvider::Loans, 0, 500_000)
        .unwrap();
    assert_eq!(
        effect,
        UnstakeEffect::LoansSettled {
            burn_liquid: 100,
            mint_collateral: 200,
            borrow_amount: 90,
        }
    );
    let chunks = p.unlockings.get(2).unwrap();
    assert_eq!(chunks.len(), 1);
    assert_eq!(chunks[0].value, 100);
    // The loans pseudo-account claims with a one-half collateral factor:
    // repay is capped by the outstanding borrow.
    p.force_set_current_era(4);
    let claim = p.claim_for(2, 1000, 90, 500_000).unwrap();
    assert_eq!(
        claim,
        ClaimEffect::LoansRepay { repay: 90, redeem: 200, amount: 100 }
    );
    // The collateral division rounds up: 100 at a thirty-percent factor
    // needs 334, not 333.
    let mut q = engine();
    let effect = q
        .unstake(8, 100, UnstakeProvider::Loans, 0, 300_000)
        .unwrap();
    assert_eq!(
        effect,
        UnstakeEffect::LoansSettled {
            burn_liquid: 100,
            mint_collateral: 334,
            borrow_amount: 90,
        }
    );
}

#[test]
fn failed_confirmation_keeps_locks() {
    // A failure outcome drops the pending entry; the locked amounts stay
    // locked, by design.
    let mut p = engine();
    p.stake(7, 100).unwrap();
    p.force_matching(&InOrderDistribution).unwrap();
    assert_eq!(p.matching_pool.total_stake_amount.locked, 100);
    assert_eq!(p.notification_received(0, false).unwrap(), None);
    assert_eq!(p.matching_pool.total_stake_amount.locked, 100);
    assert_eq!(p.matching_pool.total_stake_amount.total, 100);
    // The entry is gone: redelivery is a no-op.
    assert_eq!(p.notification_received(0, true).unwrap(), None);
    assert_eq!(p.get_total_bonded(), 0);
}

#[test]
fn matching_runs_once_per_era() {
    let mut p = engine();
    p.stake(7, 100).unwrap();
    p.on_initialize(&InOrderDistribution, 20, 0);
    assert!(p.is_matched);
    assert_eq!(p.matching_pool.total_stake_amount.locked, 100);
    // A later tick in the same era does not re-match; the era advances
    // once a whole era length has passed.
    p.on_initialize(&InOrderDistribution, 150, 100);
    assert_eq!(p.current_era, 1);
    assert_eq!(p.era_start_block, 150);
    assert!(!p.is_matched);
}

#[test]
fn ledger_snapshot_updates_once_per_round() {
    let mut p = engine();
    p.stake(7, 200).unwrap();
    p.force_matching(&InOrderDistribution).unwrap();
    p.notification_received(0, true).unwrap();
    let snapshot = StakingLedger::new(1000, 250);
    assert_eq!(
        p.set_staking_ledger(0, StakingLedger::new(1000, 250), false, 0),
        Err(Error::InvalidProof)
    );
    let outcome = p.set_staking_ledger(0, snapshot, true, 0).unwrap();
    assert!(!outcome.non_ideal);
    assert_eq!(outcome.inflate_liquid, 0);
    assert_eq!(p.total_bonded_of(0), 250);
    // The round lock now refuses a second update.
    assert_eq!(
        p.set_staking_ledger(0, StakingLedger::new(1000, 260), true, 0),
        Err(Error::StakingLedgerLocked)
    );
    p.on_finalize();
    let shrunk = StakingLedger::new(1000, 240);
    let outcome = p.set_staking_ledger(0, shrunk, true, 0).unwrap();
    assert!(outcome.non_ideal);
}

#[test]
fn snapshot_commission_mints_liquid() {
    // Rewards of 100 on a one-tenth commission with issuance 1000 and a
    // total stake of 200: commission is 10, the inflation rate is
    // 10 / (200 + 100 - 10), and the minted amount is 1000 times that.
    let mut p = engine();
    p.update_commission_rate(RATE_ONE / 10).unwrap();
    p.stake(7, 200).unwrap();
    p.force_matching(&InOrderDistribution).unwrap();
    p.notification_received(0, true).unwrap();
    let outcome = p
        .set_staking_ledger(0, StakingLedger::new(1000, 300), true, 1000)
        .unwrap();
    assert_eq!(outcome.inflate_liquid, 1000 * 10 / 290);
}

#[test]
fn forced_snapshot_requires_idle_round() {
    let mut p = engine();
    p.stake(7, 200).unwrap();
    p.force_matching(&InOrderDistribution).unwrap();
    // The ledger only exists once its bond is confirmed.
    assert_eq!(
        p.force_set_staking_ledger(0, StakingLedger::new(1000, 250)),
        Err(Error::NotBonded)
    );
    p.notification_received(0, true).unwrap();
    p.on_finalize();
    // A request still in flight refuses the overwrite.
    p.stake(7, 100).unwrap();
    p.bond(1, 100, RewardDestination::Staked).unwrap();
    assert_eq!(
        p.force_set_staking_ledger(0, StakingLedger::new(1000, 250)),
        Err(Error::StakingLedgerLocked)
    );
    p.notification_received(1, true).unwrap();
    p.on_finalize();
    p.force_set_staking_ledger(0, StakingLedger::new(1000, 250)).unwrap();
    assert_eq!(p.total_bonded_of(0), 250);
    // An inconsistent snapshot is rejected.
    p.on_finalize();
    let mut bad = StakingLedger::new(1000, 250);
    bad.total = 300;
    assert_eq!(
        p.force_set_staking_ledger(0, bad),
        Err(Error::InvalidStakingLedger)
    );
}

#[test]
fn validation_errors_reject_synchronously() {
    let mut p = engine();
    assert_eq!(p.stake(7, 5), Err(Error::StakeTooSmall));
    assert_eq!(
        p.unstake(7, 1, UnstakeProvider::RelayChain, 0, 0),
        Err(Error::UnstakeTooSmall)
    );
    assert_eq!(p.update_staking_ledger_cap(0), Err(Error::InvalidCap));
    assert_eq!(p.update_reserve_factor(0), Err(Error::InvalidFactor));
    assert_eq!(p.update_reserve_factor(1_000_000), Err(Error::InvalidFactor));
    assert_eq!(
        p.update_commission_rate(0),
        Err(Error::InvalidCommissionRate)
    );
    assert_eq!(
        p.update_commission_rate(RATE_ONE),
        Err(Error::InvalidCommissionRate)
    );
    assert_eq!(
        p.bond(5, 100, RewardDestination::Staked),
        Err(Error::InvalidDerivativeIndex)
    );
    assert_eq!(
        p.bond(0, 20, RewardDestination::Staked),
        Err(Error::InsufficientBond)
    );
    assert_eq!(
        p.bond(0, 900, RewardDestination::Staked),
        Err(Error::CapExceeded)
    );
    // Bonding beyond the pool's uncommitted stake cannot be locked.
    assert_eq!(
        p.bond(0, 100, RewardDestination::Staked),
        Err(Error::ArithmeticOverflow)
    );
    assert_eq!(p.bond_extra(0, 100), Err(Error::NotBonded));
    assert_eq!(p.reduce_reserves(5), Err(Error::ArithmeticUnderflow));
    assert_eq!(p.claim_for(9, 0, 0, 0), Err(Error::NoUnlockings));
}

#[test]
fn misconfigured_currencies_are_reported() {
    let mut params = test_params();
    params.staking_currency = None;
    let mut p = Pallet::new(params, RATE_ONE, 0);
    p.update_staking_ledger_cap(800).unwrap();
    assert_eq!(p.stake(7, 100), Err(Error::InvalidStakingCurrency));

    let mut params = test_params();
    params.liquid_currency = None;
    let mut p = Pallet::new(params, RATE_ONE, 0);
    p.update_staking_ledger_cap(800).unwrap();
    assert_eq!(p.stake(7, 100), Err(Error::InvalidLiquidCurrency));

    let mut p = Pallet::new(test_params(), 0, 0);
    p.update_staking_ledger_cap(800).unwrap();
    assert_eq!(p.stake(7, 100), Err(Error::InvalidExchangeRate));
}

#[test]
fn double_bond_confirmation_is_rejected() {
    let mut p = engine();
    p.stake(7, 400).unwrap();
    p.bond(0, 100, RewardDestination::Staked).unwrap();
    p.bond(0, 100, RewardDestination::Staked).unwrap();
    assert!(p.notification_received(0, true).is_ok());
    assert_eq!(p.notification_received(1, true), Err(Error::AlreadyBonded));
}

#[test]
fn unlocking_chunks_are_capped() {
    let mut p = engine();
    for era in 0..32u32 {
        p.force_set_current_era(era * 10);
        p.unstake(7, 10, UnstakeProvider::RelayChain, 0, 0).unwrap();
    }
    assert_eq!(p.unlockings.get(7).unwrap().len(), 32);
    p.force_set_current_era(900);
    assert_eq!(
        p.unstake(7, 10, UnstakeProvider::RelayChain, 0, 0),
        Err(Error::NoMoreChunks)
    );
}

#[test]
fn fast_unstake_batch_settles_in_order() {
    // Two queued requests against 150 of free liquidity: the first takes
    // 100, the second only the remaining 50; its rest stays queued.
    let mut p = engine();
    p.stake(7, 150).unwrap();
    p.unstake(8, 100, UnstakeProvider::MatchingPool, 100, 0).unwrap();
    p.unstake(9, 100, UnstakeProvider::MatchingPool, 100, 0).unwrap();
    let effects = p
        .fast_match_unstake(&vec![(8u64, 100u128), (9u64, 100u128)])
        .unwrap();
    assert_eq!(effects.len(), 2);
    assert_eq!(effects[0].unstaker, 8);
    assert_eq!(effects[0].burn_liquid, 99);
    assert_eq!(effects[0].payout_staking, 99);
    // 51 of liquidity remains for the second depositor.
    assert_eq!(effects[1].unstaker, 9);
    assert_eq!(effects[1].fee_liquid, 0);
    assert_eq!(effects[1].burn_liquid, 51);
    assert_eq!(effects[1].payout_staking, 51);
    assert!(p.fast_unstake_requests.get(8).is_none());
    assert_eq!(*p.fast_unstake_requests.get(9).unwrap(), 49);
    assert_eq!(p.matching_pool.total_stake_amount.total, 0);
}

#[test]
fn cancel_shrinks_a_queued_request() {
    let mut p = engine();
    p.unstake(7, 300, UnstakeProvider::MatchingPool, 300, 0).unwrap();
    p.cancel_unstake(7, 100, 300);
    assert_eq!(*p.fast_unstake_requests.get(7).unwrap(), 200);
    // Cancelling more than remains clamps at zero, and the request is
    // first capped at the current derivative balance.
    p.cancel_unstake(7, 500, 150);
    assert_eq!(*p.fast_unstake_requests.get(7).unwrap(), 0);
}

#[test]
fn reserves_follow_the_factor() {
    // A ten-percent reserve factor keeps 100 of a 1000 stake aside.
    let mut p = Pallet::new(test_params(), RATE_ONE, 100_000);
    p.update_staking_ledger_cap(800).unwrap();
    let effect = p.stake(7, 1000).unwrap();
    assert_eq!(effect.reserves_added, 100);
    assert_eq!(effect.liquid_minted, 900);
    assert_eq!(p.total_reserves, 100);
    assert_eq!(p.matching_pool.total_stake_amount.total, 900);
    p.reduce_reserves(40).unwrap();
    assert_eq!(p.total_reserves, 60);
}
