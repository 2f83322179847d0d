use liquid_staking::distribution::InOrderDistribution;
use liquid_staking::matching::MatchingLedger;
use liquid_staking::pallet::{Pallet, Params};
use liquid_staking::rate::RATE_ONE;

fn rate_params() -> Params {
    Params {
        min_stake: 1,
        min_unstake: 1,
        xcm_fees: 2,
        bonding_duration: 2,
        era_length: 50,
        min_nominator_bond: 1,
        num_slashing_spans: 0,
        election_solution_stored_offset: 5,
        derivative_index_list: vec![9u16],
        derivative_accounts: vec![2000u64],
        loans_instant_unstake_fee: RATE_ONE / 20,
        matching_pool_fast_unstake_fee: RATE_ONE / 50,
        account_id: 1,
        loans_account_id: 2,
        sovereign_account_id: 3,
        protocol_fee_receiver: 4,
        staking_currency: Some(10),
        liquid_currency: Some(11),
        collateral_currency: 12,
        native_currency: 13,
    }
}

fn at_rate(rate: u128) -> Pallet {
    let mut p = Pallet::new(rate_params(), rate, 0);
    p.update_staking_ledger_cap(1_000_000).unwrap();
    p
}

#[test]
fn matching_nets_the_imbalance() {
    // The round's deltas are non-negative by type, exactly the netting
    // formula, and never both bond and unbond at once.
    let mut pool = MatchingLedger::new();
    pool.add_stake_amount(100).unwrap();
    pool.add_unstake_amount(30).unwrap();
    assert_eq!(pool.matching(50), (70, 30, 0));
    pool.add_unstake_amount(100).unwrap();
    // Net unstake of 30 against 100 of current unbonding: the stake side
    // rebonds what it can and the remainder unbonds.
    assert_eq!(pool.matching(20), (0, 20, 10));
    assert_eq!(pool.matching(0), (0, 0, 30));
    // Rebonding can absorb the whole imbalance.
    pool.add_stake_amount(125).unwrap();
    assert_eq!(pool.matching(200), (95, 130, 0));
}

#[test]
fn confirmations_commute() {
    // Consolidating two non-overlapping confirmed amounts leaves the
    // same pool in either order.
    let mut one = MatchingLedger::new();
    one.add_stake_amount(100).unwrap();
    one.set_stake_amount_lock(70).unwrap();
    let mut two = one;
    one.consolidate_stake(30).unwrap();
    one.consolidate_stake(40).unwrap();
    two.consolidate_stake(40).unwrap();
    two.consolidate_stake(30).unwrap();
    assert_eq!(one, two);
    assert_eq!(one.total_stake_amount.total, 30);
    assert_eq!(one.total_stake_amount.locked, 0);
}

#[test]
fn round_trip_loses_at_most_the_rounding() {
    // Base to derivative and back at a rate of one and a half: 1000
    // becomes 666 derivative and returns as 999 base.
    let p = at_rate(RATE_ONE + RATE_ONE / 2);
    let liquid = p.staking_to_liquid(1000).unwrap();
    assert_eq!(liquid, 666);
    let back = p.liquid_to_staking(liquid).unwrap();
    assert_eq!(back, 999);
    // At a rate of exactly one the round trip is exact.
    let q = at_rate(RATE_ONE);
    assert_eq!(q.liquid_to_staking(q.staking_to_liquid(12345).unwrap()).unwrap(), 12345);
    // At a rate of two, 100 base is 50 derivative and 50 derivative is
    // 100 base: the conversions really scale, in both directions.
    let r = at_rate(2 * RATE_ONE);
    assert_eq!(r.staking_to_liquid(100).unwrap(), 50);
    assert_eq!(r.liquid_to_staking(50).unwrap(), 100);
    // A zero rate has no reciprocal.
    let z = at_rate(0);
    assert!(z.staking_to_liquid(100).is_none());
}

#[test]
fn recomputed_rate_never_falls() {
    // With 300 of net stake against an issuance of 200 the supported
    // rate is one and a half and replaces the lower current rate; a
    // later, lower candidate is ignored.
    let mut p = at_rate(RATE_ONE);
    p.stake(7, 302).unwrap();
    // Two units go to transport fees, so 300 reach the pool.
    assert_eq!(p.matching_pool.total_stake_amount.total, 300);
    p.do_update_exchange_rate(200).unwrap();
    assert_eq!(p.get_exchange_rate(), RATE_ONE + RATE_ONE / 2);
    p.do_update_exchange_rate(400).unwrap();
    assert_eq!(p.get_exchange_rate(), RATE_ONE + RATE_ONE / 2);
    // A zero issuance leaves the rate alone.
    p.do_update_exchange_rate(0).unwrap();
    assert_eq!(p.get_exchange_rate(), RATE_ONE + RATE_ONE / 2);
}

#[test]
fn zero_advance_changes_nothing() {
    let mut p = at_rate(RATE_ONE);
    p.stake(7, 102).unwrap();
    let era = p.current_era;
    let start = p.era_start_block;
    let rate = p.get_exchange_rate();
    p.force_advance_era(0, 777, 50);
    assert_eq!(p.current_era, era);
    assert_eq!(p.era_start_block, start);
    assert_eq!(p.get_exchange_rate(), rate);
    // A nonzero advance moves the era and recomputes the rate.
    p.force_advance_era(2, 777, 50);
    assert_eq!(p.current_era, 2);
    assert_eq!(p.era_start_block, 777);
    assert_eq!(p.get_exchange_rate(), 2 * RATE_ONE);
}

#[test]
fn accounting_invariants_hold_across_a_cycle() {
    // After a stake, a matching round, a confirmation and an unbond, the
    // pool keeps locked within total on both sides and each ledger's
    // total equals its active part plus its scheduled unlocks.
    let mut p = at_rate(RATE_ONE);
    p.stake(7, 402).unwrap();
    p.force_matching(&InOrderDistribution).unwrap();
    assert!(p.matching_pool.total_stake_amount.locked <= p.matching_pool.total_stake_amount.total);
    p.notification_received(0, true).unwrap();
    p.unstake(8, 150, liquid_staking::UnstakeProvider::RelayChain, 0, 0).unwrap();
    p.force_matching(&InOrderDistribution).unwrap();
    assert!(
        p.matching_pool.total_unstake_amount.locked <= p.matching_pool.total_unstake_amount.total
    );
    p.notification_received(1, true).unwrap();
    let ledger = p.staking_ledgers.get(9).unwrap();
    let scheduled: u128 = ledger.unlocking.iter().map(|c| c.value).sum();
    assert_eq!(ledger.total, ledger.active + scheduled);
    assert_eq!(ledger.total, 400);
    assert_eq!(ledger.active, 250);
}

#[test]
fn era_offset_follows_the_oracle() {
    let mut p = at_rate(RATE_ONE);
    p.force_set_era_start_block(100);
    assert_eq!(p.offset(99), 0);
    assert_eq!(p.offset(100), 0);
    assert_eq!(p.offset(149), 0);
    assert_eq!(p.offset(150), 1);
    assert_eq!(p.offset(349), 4);
}

#[test]
fn proven_era_advances_and_rewards() {
    let mut p = at_rate(RATE_ONE);
    p.update_incentive(9);
    assert_eq!(
        p.set_current_era(3, false, 500, 0),
        Err(liquid_staking::Error::InvalidProof)
    );
    assert_eq!(p.set_current_era(3, true, 500, 0), Ok(9));
    assert_eq!(p.current_era, 3);
    assert_eq!(p.era_start_block, 500);
    // A stale era is a proven no-op and earns nothing.
    assert_eq!(p.set_current_era(2, true, 600, 0), Ok(0));
    assert_eq!(p.current_era, 3);
}
