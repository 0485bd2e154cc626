use xmining::assets::Assets;
use xmining::funding::{pcx_price_for, PriceEntry};
use xmining::primitives::{Error, StakeTarget, X_BTC};
use xmining::store::PseduIntentionVoteWeight;
use xmining::tokens::Module;

#[test]
fn the_price_is_that_of_the_first_entry() {
    let prices = vec![
        PriceEntry { token: 1, price: 7 },
        PriceEntry { token: 3, price: 5 },
        PriceEntry { token: 1, price: 9 },
    ];
    assert_eq!(pcx_price_for(&prices, 1), Some(7));
    assert_eq!(pcx_price_for(&prices, 3), Some(5));
    assert_eq!(pcx_price_for(&prices, 2), None);
    assert_eq!(pcx_price_for(&Vec::new(), 1), None);
}

#[test]
fn assets_with_a_price_are_valued_at_three_tenths() {
    let mut store = Module::new();
    let mut assets = Assets::new();
    store.register_psedu_intention(1).unwrap();
    store.register_psedu_intention(2).unwrap();
    store.register_psedu_intention(3).unwrap();
    store.on_issue(&mut assets, 1, 10, 60, 1).unwrap();
    store.on_issue(&mut assets, 1, 11, 40, 1).unwrap();
    store.on_issue(&mut assets, 2, 10, 50, 1).unwrap();
    let prices = vec![PriceEntry { token: 1, price: 7 }, PriceEntry { token: 3, price: 5 }];
    // Asset 2 has no price and is left out; asset 3 has a price and nothing
    // outstanding.
    assert_eq!(
        store.psedu_intentions_info(&assets, &prices),
        vec![(StakeTarget::AssetTarget(1), 210), (StakeTarget::AssetTarget(3), 0)]
    );
    assert_eq!(store.psedu_intentions_info(&assets, &Vec::new()), Vec::new());
}

#[test]
fn a_valuation_stops_at_the_ceiling() {
    let mut store = Module::new();
    let mut assets = Assets::new();
    store.register_psedu_intention(X_BTC).unwrap();
    store.on_issue(&mut assets, X_BTC, 10, u128::MAX, 1).unwrap();
    let prices = vec![PriceEntry { token: X_BTC, price: 4 }];
    assert_eq!(
        store.psedu_intentions_info(&assets, &prices),
        vec![(StakeTarget::AssetTarget(X_BTC), u128::MAX)]
    );
}

#[test]
fn a_reward_goes_into_the_pool() {
    let mut store = Module::new();
    store.register_psedu_intention(X_BTC).unwrap();
    assert_eq!(store.reward(X_BTC, 100), Ok(()));
    assert_eq!(store.reward(X_BTC, 23), Ok(()));
    assert_eq!(
        store.psedu_intention_profiles(X_BTC),
        Some(PseduIntentionVoteWeight {
            jackpot: 123,
            last_total_deposit_weight: 0,
            last_total_deposit_weight_update: 0,
        })
    );
}

#[test]
fn a_reward_for_an_unknown_asset_is_rejected() {
    let mut store = Module::new();
    assert_eq!(store.reward(X_BTC, 100), Err(Error::NotSupported));
    assert_eq!(store.psedu_intention_profiles(X_BTC), None);
}

#[test]
fn a_reward_that_the_pool_cannot_hold_is_rejected() {
    let mut store = Module::new();
    store.register_psedu_intention(X_BTC).unwrap();
    assert_eq!(store.reward(X_BTC, u128::MAX), Ok(()));
    assert_eq!(store.reward(X_BTC, 1), Err(Error::Overflow));
    assert_eq!(store.psedu_intention_profiles(X_BTC).unwrap().jackpot, u128::MAX);
}
