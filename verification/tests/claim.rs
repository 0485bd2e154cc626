use xmining::assets::Assets;
use xmining::claim::{wait_blocks, ConfirmationParams};
use xmining::primitives::{Error, StakeTarget, NATIVE_TOKEN, X_BTC};
use xmining::store::{DepositVoteWeight, PseduIntentionVoteWeight};
use xmining::tokens::Module;

const A: u64 = 10;
const B: u64 = 11;

fn record(weight: u64, update: u64) -> DepositVoteWeight {
    DepositVoteWeight { last_deposit_weight: weight, last_deposit_weight_update: update }
}

fn profile(jackpot: u128, weight: u64, update: u64) -> PseduIntentionVoteWeight {
    PseduIntentionVoteWeight {
        jackpot,
        last_total_deposit_weight: weight,
        last_total_deposit_weight_update: update,
    }
}

/// One bitcoin block to wait for, and blocks of five minutes here: a wait
/// of two blocks.
fn two_blocks() -> ConfirmationParams {
    ConfirmationParams { btc_irr_block: 1, block_period: 300 }
}

/// A holds 100 of the bridged bitcoin since block 10; the pool holds
/// `jackpot`.
fn one_holder(jackpot: u128) -> (Module, Assets) {
    let mut store = Module::new();
    let mut assets = Assets::new();
    store.register_psedu_intention(X_BTC).unwrap();
    store.on_issue(&mut assets, X_BTC, A, 100, 10).unwrap();
    store.reward(X_BTC, jackpot).unwrap();
    (store, assets)
}

#[test]
fn the_wait_is_the_confirmation_time_in_blocks() {
    let params = ConfirmationParams { btc_irr_block: 6, block_period: 2 };
    assert_eq!(wait_blocks(X_BTC, &params), Ok(1800));
    assert_eq!(wait_blocks(X_BTC, &two_blocks()), Ok(2));
    let slow = ConfirmationParams { btc_irr_block: 6, block_period: 7 };
    assert_eq!(wait_blocks(X_BTC, &slow), Ok(514));
    let long = ConfirmationParams { btc_irr_block: u32::MAX, block_period: 1 };
    assert_eq!(wait_blocks(X_BTC, &long), Ok(4294967295 * 600));
    let none = ConfirmationParams { btc_irr_block: 0, block_period: 6 };
    assert_eq!(wait_blocks(X_BTC, &none), Ok(0));
}

#[test]
fn the_wait_is_known_for_the_bridged_bitcoin_alone() {
    let params = ConfirmationParams { btc_irr_block: 6, block_period: 2 };
    assert_eq!(wait_blocks(7, &params), Err(Error::NotSupported));
    assert_eq!(wait_blocks(NATIVE_TOKEN, &params), Err(Error::NotSupported));
    let stopped = ConfirmationParams { btc_irr_block: 6, block_period: 0 };
    assert_eq!(wait_blocks(X_BTC, &stopped), Err(Error::NotSupported));
}

#[test]
fn a_claim_that_exceeds_the_pool_is_held_to_the_pool() {
    // Weight of the asset 1000, weight of A 1000, pool 500, wait 2: the raw
    // share is 500 * 2 * 1000 / 1000 = 1000.
    let (mut store, mut assets) = one_holder(500);
    let paid = store.claim(&mut assets, &two_blocks(), A, StakeTarget::AssetTarget(X_BTC), 20);
    assert_eq!(paid, Ok(500));
    assert_eq!(store.psedu_intention_profiles(X_BTC), Some(profile(0, 1000, 20)));
    assert_eq!(assets.all_type_balance_of(A, NATIVE_TOKEN), 500);
    assert_eq!(assets.all_type_balance(NATIVE_TOKEN), 500);
}

#[test]
fn a_claim_pays_the_share_of_the_weight() {
    let mut store = Module::new();
    let mut assets = Assets::new();
    store.register_psedu_intention(X_BTC).unwrap();
    store.on_issue(&mut assets, X_BTC, A, 100, 10).unwrap();
    store.on_issue(&mut assets, X_BTC, B, 700, 10).unwrap();
    store.reward(X_BTC, 1000).unwrap();
    // At block 20: A has 1000 of 8000. With a wait of 2: 1000 * 2 / 8 = 250.
    assert_eq!(store.apply_claim(&mut assets, A, X_BTC, Ok(2), 20), Ok(250));
    assert_eq!(store.psedu_intention_profiles(X_BTC), Some(profile(750, 8000, 20)));
    assert_eq!(store.deposit_records(A, X_BTC), Some(record(1000, 20)));
    assert_eq!(store.deposit_records(B, X_BTC), Some(record(0, 10)));
    assert_eq!(assets.all_type_balance_of(A, NATIVE_TOKEN), 250);
    assert_eq!(assets.all_type_balance_of(A, X_BTC), 100);
    // B has 7000 of 8000: 750 * 2 * 7000 / 8000 = 1312, held to 750.
    assert_eq!(store.apply_claim(&mut assets, B, X_BTC, Ok(2), 20), Ok(750));
    assert_eq!(store.psedu_intention_profiles(X_BTC), Some(profile(0, 8000, 20)));
    assert_eq!(assets.all_type_balance_of(B, NATIVE_TOKEN), 750);
}

#[test]
fn a_claim_rounds_down() {
    let mut store = Module::new();
    let mut assets = Assets::new();
    store.register_psedu_intention(X_BTC).unwrap();
    store.on_issue(&mut assets, X_BTC, A, 1, 0).unwrap();
    store.on_issue(&mut assets, X_BTC, B, 2, 0).unwrap();
    store.reward(X_BTC, 10).unwrap();
    // At block 1: A has 1 of 3. 10 * 1 * 1 / 3 = 3.
    assert_eq!(store.apply_claim(&mut assets, A, X_BTC, Ok(1), 1), Ok(3));
    assert_eq!(store.psedu_intention_profiles(X_BTC), Some(profile(7, 3, 1)));
    // 7 * 1 * 1 / 3 = 2.
    assert_eq!(store.apply_claim(&mut assets, A, X_BTC, Ok(1), 1), Ok(2));
    assert_eq!(store.psedu_intention_profiles(X_BTC), Some(profile(5, 3, 1)));
}

#[test]
fn a_claim_leaves_the_weights_in_place() {
    let (mut store, mut assets) = one_holder(501);
    assert_eq!(store.apply_claim(&mut assets, A, X_BTC, Ok(0), 20), Ok(0));
    assert_eq!(store.deposit_records(A, X_BTC), Some(record(1000, 20)));
    assert_eq!(store.psedu_intention_profiles(X_BTC), Some(profile(501, 1000, 20)));
    // The same weight counts again, and goes on growing.
    assert_eq!(store.apply_claim(&mut assets, A, X_BTC, Ok(1), 30), Ok(501));
    assert_eq!(store.deposit_records(A, X_BTC), Some(record(2000, 30)));
    assert_eq!(store.psedu_intention_profiles(X_BTC), Some(profile(0, 2000, 30)));
    assert_eq!(store.verify_vote_weights(&assets, X_BTC, 30), Ok(true));
}

#[test]
fn a_claim_without_a_record_pays_nothing() {
    let (mut store, mut assets) = one_holder(500);
    assert_eq!(store.apply_claim(&mut assets, B, X_BTC, Ok(2), 20), Ok(0));
    assert_eq!(store.deposit_records(B, X_BTC), Some(record(0, 20)));
    assert_eq!(store.psedu_intention_profiles(X_BTC), Some(profile(500, 1000, 20)));
    assert_eq!(assets.all_type_balance_of(B, NATIVE_TOKEN), 0);
}

#[test]
fn only_a_registered_asset_can_be_claimed_against() {
    let (mut store, mut assets) = one_holder(500);
    let params = two_blocks();
    assert_eq!(
        store.claim(&mut assets, &params, A, StakeTarget::Validator(A), 20),
        Err(Error::NotSupported)
    );
    assert_eq!(
        store.claim(&mut assets, &params, A, StakeTarget::AssetTarget(NATIVE_TOKEN), 20),
        Err(Error::NotSupported)
    );
    assert_eq!(
        store.claim(&mut assets, &params, A, StakeTarget::AssetTarget(7), 20),
        Err(Error::NotSupported)
    );
    assert_eq!(store.apply_claim(&mut assets, A, 7, Ok(2), 20), Err(Error::NotSupported));
    assert_eq!(store.deposit_records(A, X_BTC), Some(record(0, 10)));
    assert_eq!(store.psedu_intention_profiles(X_BTC), Some(profile(500, 0, 10)));
}

#[test]
fn the_native_asset_cannot_be_claimed_against_even_where_it_is_registered() {
    let mut store = Module::new();
    let mut assets = Assets::new();
    store.register_psedu_intention(NATIVE_TOKEN).unwrap();
    store.on_issue(&mut assets, NATIVE_TOKEN, A, 100, 10).unwrap();
    store.reward(NATIVE_TOKEN, 500).unwrap();
    assert_eq!(
        store.claim(&mut assets, &two_blocks(), A, StakeTarget::AssetTarget(NATIVE_TOKEN), 20),
        Err(Error::NotSupported)
    );
    // Nothing was settled and nothing was paid.
    assert_eq!(store.deposit_records(A, NATIVE_TOKEN), Some(record(0, 10)));
    assert_eq!(store.psedu_intention_profiles(NATIVE_TOKEN), Some(profile(500, 0, 10)));
    assert_eq!(assets.all_type_balance_of(A, NATIVE_TOKEN), 100);
}

#[test]
fn a_claim_paid_in_the_asset_it_is_made_against_keeps_the_views_in_agreement() {
    let mut store = Module::new();
    let mut assets = Assets::new();
    store.register_psedu_intention(NATIVE_TOKEN).unwrap();
    store.on_issue(&mut assets, NATIVE_TOKEN, A, 100, 10).unwrap();
    store.on_issue(&mut assets, NATIVE_TOKEN, B, 300, 10).unwrap();
    store.reward(NATIVE_TOKEN, 1000).unwrap();
    // At block 20: A has 1000 of 4000. With a wait of 2: 1000 * 2 / 4 = 500.
    assert_eq!(store.apply_claim(&mut assets, A, NATIVE_TOKEN, Ok(2), 20), Ok(500));
    assert_eq!(store.deposit_records(A, NATIVE_TOKEN), Some(record(1000, 20)));
    assert_eq!(store.psedu_intention_profiles(NATIVE_TOKEN), Some(profile(500, 4000, 20)));
    assert_eq!(assets.all_type_balance_of(A, NATIVE_TOKEN), 600);
    assert_eq!(assets.all_type_balance(NATIVE_TOKEN), 900);
    assert_eq!(store.verify_vote_weights(&assets, NATIVE_TOKEN, 20), Ok(true));
    assert_eq!(store.verify_vote_weights(&assets, NATIVE_TOKEN, 30), Ok(true));
}

#[test]
fn an_asset_without_weight_cannot_be_claimed_against() {
    let (mut store, mut assets) = one_holder(500);
    // At block 10 nothing has accrued yet.
    assert_eq!(
        store.claim(&mut assets, &two_blocks(), A, StakeTarget::AssetTarget(X_BTC), 10),
        Err(Error::ZeroWeight)
    );
    store.register_psedu_intention(7).unwrap();
    // The weight is asked for before the wait.
    assert_eq!(
        store.claim(&mut assets, &two_blocks(), A, StakeTarget::AssetTarget(7), 10),
        Err(Error::ZeroWeight)
    );
    assert_eq!(store.deposit_records(A, 7), None);
    assert_eq!(store.psedu_intention_profiles(X_BTC), Some(profile(500, 0, 10)));
}

#[test]
fn an_asset_without_a_known_wait_cannot_be_claimed_against() {
    let mut store = Module::new();
    let mut assets = Assets::new();
    store.register_psedu_intention(7).unwrap();
    store.on_issue(&mut assets, 7, A, 100, 10).unwrap();
    store.reward(7, 500).unwrap();
    assert_eq!(
        store.claim(&mut assets, &two_blocks(), A, StakeTarget::AssetTarget(7), 20),
        Err(Error::NotSupported)
    );
    assert_eq!(
        store.apply_claim(&mut assets, A, 7, Err(Error::NotSupported), 20),
        Err(Error::NotSupported)
    );
    // Nothing was settled.
    assert_eq!(store.deposit_records(A, 7), Some(record(0, 10)));
    assert_eq!(store.psedu_intention_profiles(7), Some(profile(500, 0, 10)));
    // With a wait handed in, the claim is paid.
    assert_eq!(store.apply_claim(&mut assets, A, 7, Ok(1), 20), Ok(500));
}

#[test]
fn a_claim_before_the_last_update_is_rejected() {
    let (mut store, mut assets) = one_holder(500);
    assert_eq!(
        store.claim(&mut assets, &two_blocks(), A, StakeTarget::AssetTarget(X_BTC), 9),
        Err(Error::ClockWentBackwards)
    );
    assert_eq!(store.deposit_records(A, X_BTC), Some(record(0, 10)));
}

#[test]
fn a_payout_that_the_ledger_cannot_hold_is_rejected() {
    let (mut store, mut assets) = one_holder(500);
    assets.issue(NATIVE_TOKEN, B, u128::MAX - 499).unwrap();
    assert_eq!(
        store.claim(&mut assets, &two_blocks(), A, StakeTarget::AssetTarget(X_BTC), 20),
        Err(Error::Overflow)
    );
    assert_eq!(store.deposit_records(A, X_BTC), Some(record(0, 10)));
    assert_eq!(store.psedu_intention_profiles(X_BTC), Some(profile(500, 0, 10)));
    assert_eq!(assets.all_type_balance_of(A, NATIVE_TOKEN), 0);
    // One unit less in the ledger, and it fits.
    assets.destroy(NATIVE_TOKEN, B, 1).unwrap();
    assert_eq!(
        store.claim(&mut assets, &two_blocks(), A, StakeTarget::AssetTarget(X_BTC), 20),
        Ok(500)
    );
    assert_eq!(assets.all_type_balance(NATIVE_TOKEN), u128::MAX);
}
