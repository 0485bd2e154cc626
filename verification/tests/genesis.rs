use std::collections::HashMap;

use xmining::assets::Assets;
use xmining::genesis::balances;
use xmining::genesis::xassets;
use xmining::genesis::xmining_asset;
use xmining::genesis::xstaking;
use xmining::genesis::{
    credit_all, run_migration, AllParams, BalancesParams, FreeBalanceInfo, LegacyPot, Nomination,
    NominatorInfo, WellknownAccounts, XAssetsParams, XBtcMiner, XMiningAssetParams,
    XStakingParams,
};
use xmining::pots::{RewardPot, StakingAccounts};
use xmining::primitives::{Error, StakeTarget, NATIVE_TOKEN, X_BTC};
use xmining::staking::{NominatorLedger, Staking, ValidatorInfo, ValidatorLedger};
use xmining::store::{DepositVoteWeight, PseduIntentionVoteWeight};
use xmining::tokens::Module;
use xmining::claim::ConfirmationParams;

const COUNCIL: u64 = 1;
const TEAM: u64 = 2;
const POT_OF_V1: u64 = 3;
const B: u64 = 4;
const V1: u64 = 10;
const V2: u64 = 11;
const RETIRED: u64 = 99;
const N1: u64 = 20;
const TREASURY: u64 = 100;
const VESTING: u64 = 101;
const NEW_POT_OF_V1: u64 = 110;

fn accounts() -> StakingAccounts {
    StakingAccounts {
        treasury: TREASURY,
        vesting: VESTING,
        reward_pots: vec![RewardPot { validator: V1, pot: NEW_POT_OF_V1 }],
    }
}

fn wellknown() -> WellknownAccounts {
    WellknownAccounts {
        legacy_council: COUNCIL,
        legacy_team: TEAM,
        legacy_pots: vec![LegacyPot { pot: POT_OF_V1, validator: V1 }],
    }
}

fn balances_params() -> BalancesParams {
    BalancesParams {
        free_balances: vec![
            FreeBalanceInfo { who: COUNCIL, free: 1000 },
            FreeBalanceInfo { who: TEAM, free: 500 },
            FreeBalanceInfo { who: POT_OF_V1, free: 200 },
            FreeBalanceInfo { who: B, free: 50 },
        ],
        wellknown_accounts: wellknown(),
    }
}

fn staking_params() -> XStakingParams {
    XStakingParams {
        validators: vec![
            ValidatorInfo { who: V1, self_bonded: 100 },
            ValidatorInfo { who: V2, self_bonded: 0 },
        ],
        nominators: vec![
            NominatorInfo {
                nominator: N1,
                nominations: vec![
                    Nomination { nominee: V1, nomination: 300, weight: 7 },
                    Nomination { nominee: RETIRED, nomination: 500, weight: 9 },
                    Nomination { nominee: V2, nomination: 0, weight: 0 },
                ],
            },
            NominatorInfo {
                nominator: V1,
                nominations: vec![Nomination { nominee: V1, nomination: 100, weight: 5 }],
            },
            NominatorInfo { nominator: B, nominations: Vec::new() },
        ],
    }
}

fn snapshot() -> AllParams {
    AllParams {
        balances: balances_params(),
        xassets: vec![XAssetsParams {
            asset: X_BTC,
            balances: vec![
                FreeBalanceInfo { who: B, free: 100 },
                FreeBalanceInfo { who: N1, free: 30 },
            ],
        }],
        xstaking: staking_params(),
        xmining_asset: vec![XMiningAssetParams {
            asset: X_BTC,
            weight: 1240,
            miners: vec![XBtcMiner { who: B, weight: 1000 }, XBtcMiner { who: N1, weight: 240 }],
        }],
    }
}

fn nominator(nomination: u128, weight: u64) -> NominatorLedger {
    NominatorLedger { nomination, last_vote_weight: weight, last_vote_weight_update: 0 }
}

fn all_accounts() -> Vec<u64> {
    vec![COUNCIL, TEAM, POT_OF_V1, B, V1, V2, RETIRED, N1]
}

#[test]
fn a_legacy_pot_leads_to_its_validator() {
    let pots = vec![
        LegacyPot { pot: 3, validator: 10 },
        LegacyPot { pot: 5, validator: 11 },
        LegacyPot { pot: 3, validator: 12 },
    ];
    assert_eq!(balances::validator_for(3, &pots), Some(10));
    assert_eq!(balances::validator_for(5, &pots), Some(11));
    assert_eq!(balances::validator_for(10, &pots), None);
    assert_eq!(balances::validator_for(3, &Vec::new()), None);
}

#[test]
fn a_reward_pot_is_looked_up_by_validator() {
    let accounts = accounts();
    assert_eq!(accounts.treasury_account(), TREASURY);
    assert_eq!(accounts.vesting_account(), VESTING);
    assert_eq!(accounts.reward_pot_for(V1), Some(NEW_POT_OF_V1));
    assert_eq!(accounts.reward_pot_for(V2), None);
}

#[test]
fn special_accounts_are_remapped() {
    let wellknown = wellknown();
    let accounts = accounts();
    assert_eq!(balances::remap(COUNCIL, &wellknown, &accounts), Some(TREASURY));
    assert_eq!(balances::remap(TEAM, &wellknown, &accounts), Some(VESTING));
    assert_eq!(balances::remap(POT_OF_V1, &wellknown, &accounts), Some(NEW_POT_OF_V1));
    assert_eq!(balances::remap(B, &wellknown, &accounts), Some(B));
    assert_eq!(balances::remap(V1, &wellknown, &accounts), Some(V1));
}

#[test]
fn the_council_comes_before_the_pots() {
    let wellknown = WellknownAccounts {
        legacy_council: COUNCIL,
        legacy_team: COUNCIL,
        legacy_pots: vec![LegacyPot { pot: COUNCIL, validator: V1 }],
    };
    assert_eq!(balances::remap(COUNCIL, &wellknown, &accounts()), Some(TREASURY));
    let wellknown = WellknownAccounts {
        legacy_council: COUNCIL,
        legacy_team: TEAM,
        legacy_pots: vec![LegacyPot { pot: TEAM, validator: V1 }],
    };
    assert_eq!(balances::remap(TEAM, &wellknown, &accounts()), Some(VESTING));
}

#[test]
fn balances_go_to_the_remapped_accounts() {
    let (ledger, total) =
        balances::initialize(&balances_params(), &accounts(), Assets::new()).unwrap();
    assert_eq!(ledger.all_type_balance_of(TREASURY, NATIVE_TOKEN), 1000);
    assert_eq!(ledger.all_type_balance_of(VESTING, NATIVE_TOKEN), 500);
    assert_eq!(ledger.all_type_balance_of(NEW_POT_OF_V1, NATIVE_TOKEN), 200);
    assert_eq!(ledger.all_type_balance_of(B, NATIVE_TOKEN), 50);
    assert_eq!(ledger.all_type_balance_of(COUNCIL, NATIVE_TOKEN), 0);
    assert_eq!(ledger.all_type_balance_of(TEAM, NATIVE_TOKEN), 0);
    assert_eq!(ledger.all_type_balance_of(POT_OF_V1, NATIVE_TOKEN), 0);
    assert_eq!(total, 1750);
    assert_eq!(ledger.all_type_balance(NATIVE_TOKEN), 1750);
}

#[test]
fn balances_are_added_to_what_is_there() {
    let mut ledger = Assets::new();
    ledger.issue(NATIVE_TOKEN, TREASURY, 1).unwrap();
    ledger.issue(X_BTC, B, 9).unwrap();
    let mut params = balances_params();
    // The treasury's own entry and the council's both end up there.
    params.free_balances.push(FreeBalanceInfo { who: TREASURY, free: 20 });
    let (ledger, total) = balances::initialize(&params, &accounts(), ledger).unwrap();
    assert_eq!(ledger.all_type_balance_of(TREASURY, NATIVE_TOKEN), 1021);
    assert_eq!(ledger.all_type_balance_of(B, X_BTC), 9);
    assert_eq!(total, 1770);
    assert_eq!(ledger.all_type_balance(NATIVE_TOKEN), 1771);
}

#[test]
fn a_pot_without_a_successor_stops_the_import() {
    let mut params = balances_params();
    params.wellknown_accounts.legacy_pots.push(LegacyPot { pot: 8, validator: V2 });
    // The pot is in the table but holds nothing in the snapshot.
    assert!(balances::initialize(&params, &accounts(), Assets::new()).is_ok());
    params.free_balances.push(FreeBalanceInfo { who: 8, free: 0 });
    assert_eq!(
        balances::initialize(&params, &accounts(), Assets::new()).err(),
        Some(Error::MissingRewardPot)
    );
    assert_eq!(balances::remap(8, &params.wellknown_accounts, &accounts()), None);
}

#[test]
fn balances_beyond_the_range_stop_the_import() {
    let mut params = balances_params();
    params.free_balances.push(FreeBalanceInfo { who: 5, free: u128::MAX - 1750 });
    assert!(balances::initialize(&params, &accounts(), Assets::new()).is_ok());
    params.free_balances.push(FreeBalanceInfo { who: 6, free: 1 });
    assert_eq!(
        balances::initialize(&params, &accounts(), Assets::new()).err(),
        Some(Error::Overflow)
    );
    // A missing pot is reported before the range.
    params.wellknown_accounts.legacy_pots.push(LegacyPot { pot: 6, validator: V2 });
    assert_eq!(
        balances::initialize(&params, &accounts(), Assets::new()).err(),
        Some(Error::MissingRewardPot)
    );
}

#[test]
fn credits_are_made_account_for_account() {
    let credits = vec![
        FreeBalanceInfo { who: B, free: 100 },
        FreeBalanceInfo { who: N1, free: 30 },
        FreeBalanceInfo { who: B, free: 5 },
    ];
    let ledger = credit_all(7, &credits, Assets::new()).unwrap();
    assert_eq!(ledger.all_type_balance_of(B, 7), 105);
    assert_eq!(ledger.all_type_balance_of(N1, 7), 30);
    assert_eq!(ledger.all_type_balance(7), 135);
    assert_eq!(ledger.all_type_balance(X_BTC), 0);
    let ledger = credit_all(7, &Vec::new(), ledger).unwrap();
    assert_eq!(ledger.all_type_balance(7), 135);
}

#[test]
fn outside_assets_carry_over_as_they_are() {
    let params = XAssetsParams {
        asset: X_BTC,
        balances: vec![
            FreeBalanceInfo { who: COUNCIL, free: 100 },
            FreeBalanceInfo { who: POT_OF_V1, free: 30 },
        ],
    };
    let ledger = xassets::initialize(&params, Assets::new()).unwrap();
    // No remapping here.
    assert_eq!(ledger.all_type_balance_of(COUNCIL, X_BTC), 100);
    assert_eq!(ledger.all_type_balance_of(POT_OF_V1, X_BTC), 30);
    assert_eq!(ledger.all_type_balance_of(TREASURY, X_BTC), 0);
    assert_eq!(ledger.all_type_balance(X_BTC), 130);
    assert_eq!(ledger.all_type_balance(NATIVE_TOKEN), 0);
}

#[test]
fn the_native_asset_is_no_outside_asset() {
    let params = XAssetsParams {
        asset: NATIVE_TOKEN,
        balances: vec![FreeBalanceInfo { who: B, free: 100 }],
    };
    assert_eq!(xassets::initialize(&params, Assets::new()).err(), Some(Error::NotSupported));
}

#[test]
fn outside_assets_beyond_the_range_stop_the_import() {
    let params = XAssetsParams {
        asset: X_BTC,
        balances: vec![
            FreeBalanceInfo { who: B, free: u128::MAX },
            FreeBalanceInfo { who: N1, free: 1 },
        ],
    };
    assert_eq!(xassets::initialize(&params, Assets::new()).err(), Some(Error::Overflow));
}

#[test]
fn a_nomination_to_a_retired_validator_leaves_no_record() {
    let staking = xstaking::initialize(&staking_params(), Staking::new()).unwrap();
    assert_eq!(staking.nominations(N1, RETIRED), None);
    assert_eq!(staking.validator_ledgers(RETIRED), None);
    assert_eq!(staking.nominators_nomination(RETIRED), 0);
    assert_eq!(staking.nominators_vote_weight(RETIRED), 0);
    // The other nominations of the same nominator are there.
    assert_eq!(staking.nominations(N1, V1), Some(nominator(300, 7)));
}

#[test]
fn nominations_are_imported_with_their_weight() {
    let staking = xstaking::initialize(&staking_params(), Staking::new()).unwrap();
    assert_eq!(staking.nominations(N1, V1), Some(nominator(300, 7)));
    // Nothing bonded, but the record is there, with the weight as given.
    assert_eq!(staking.nominations(N1, V2), Some(nominator(0, 0)));
    // The validator's bond to itself is made once.
    assert_eq!(staking.nominations(V1, V1), Some(nominator(100, 5)));
    assert_eq!(staking.nominations(V2, V2), None);
    assert_eq!(staking.nominations(B, V1), None);
    assert_eq!(
        staking.validator_ledgers(V1),
        Some(ValidatorLedger {
            total_nomination: 400,
            last_total_vote_weight: 0,
            last_total_vote_weight_update: 0,
        })
    );
    assert_eq!(staking.validator_ledgers(V2).unwrap().total_nomination, 0);
}

#[test]
fn a_repeated_validator_stops_the_import() {
    let mut params = staking_params();
    params.validators.push(ValidatorInfo { who: V1, self_bonded: 1 });
    assert_eq!(
        xstaking::initialize(&params, Staking::new()).err(),
        Some(Error::DuplicateValidator)
    );
}

#[test]
fn bonds_beyond_the_range_stop_the_import() {
    let mut params = staking_params();
    params.nominators[0].nominations.push(Nomination {
        nominee: V1,
        nomination: u128::MAX - 399,
        weight: 1,
    });
    assert_eq!(xstaking::initialize(&params, Staking::new()).err(), Some(Error::Overflow));
}

#[test]
fn the_list_of_validators_is_searched() {
    let validators = staking_params().validators;
    assert!(xstaking::contains_validator(&validators, V1));
    assert!(xstaking::contains_validator(&validators, V2));
    assert!(!xstaking::contains_validator(&validators, RETIRED));
    assert!(!xstaking::contains_validator(&Vec::new(), V1));
}

#[test]
fn test_validator_total_nomination() {
    let genesis = run_migration(&snapshot(), &accounts(), 50).ok().unwrap();
    let validators = [V1, V2];
    for validator in validators {
        let mut calculated = 0u128;
        for who in all_accounts() {
            if let Some(ledger) = genesis.staking.nominations(who, validator) {
                calculated += ledger.nomination;
            }
        }
        let total = genesis.staking.validator_ledgers(validator).unwrap().total_nomination;
        assert!(calculated == total);
        assert!(genesis.staking.nominators_nomination(validator) == total);
    }
}

#[test]
fn test_genesis_state() {
    let params = snapshot();
    let genesis = run_migration(&params, &accounts(), 50).ok().unwrap();
    let accounts = all_accounts();

    let mut calculated_total_weight = 0u128;
    let mut calculated_info = HashMap::new();
    for who in accounts {
        for validator in &params.xstaking.validators {
            if let Some(ledger) = genesis.staking.nominations(who, validator.who) {
                calculated_total_weight += ledger.last_vote_weight as u128;
                *calculated_info
                    .entry(format!("{:?}", validator.who))
                    .or_insert(0u128) += ledger.last_vote_weight as u128;
            }
        }
    }
    println!(
        "calculated size:{:?}, {:#?}",
        calculated_info.len(),
        calculated_info
    );
    let mut total_validator_weights = 0u128;
    let mut validators_info = HashMap::new();
    for validator in &params.xstaking.validators {
        let validator_profile = genesis.staking.validator_ledgers(validator.who).unwrap();
        validators_info.insert(
            format!("{:?}", validator.who),
            validator_profile.last_total_vote_weight as u128,
        );
        total_validator_weights += validator_profile.last_total_vote_weight as u128;
    }

    println!(
        "validatos size:{:?}, {:#?}",
        validators_info.len(),
        validators_info
    );

    for (v1, weight1) in calculated_info {
        let weight2 = validators_info.get(&v1).unwrap();

        if weight1 == *weight2 {
        } else {
            println!(
                "ERROR! v1:{:?}, calculated weight1: {:?}, weight2: {:?}, diff: {:?}",
                v1,
                weight1,
                weight2,
                weight1.abs_diff(*weight2)
            );
        }
    }

    println!(
        "calculated_total_weight:{:?}, total_validator_weights:{:?}",
        calculated_total_weight, total_validator_weights
    );
}

#[test]
fn the_two_totals_of_the_vote_weight_are_computed_apart() {
    let params = snapshot();
    let genesis = run_migration(&params, &accounts(), 50).ok().unwrap();
    // From the nominators' records: 7 and 5 with V1, nothing with V2.
    assert_eq!(
        xstaking::calc_total_weight(&genesis.staking, &all_accounts(), &params.xstaking.validators),
        Some(12)
    );
    assert_eq!(
        xstaking::calc_total_weight(&genesis.staking, &vec![N1], &params.xstaking.validators),
        Some(7)
    );
    assert_eq!(
        xstaking::calc_total_weight(&genesis.staking, &Vec::new(), &params.xstaking.validators),
        Some(0)
    );
    // From the validators' records: nothing was cached.
    assert_eq!(
        xstaking::total_validator_weights(&genesis.staking, &params.xstaking.validators),
        0
    );
    assert_eq!(genesis.drifted, vec![V1]);
    assert_eq!(
        xstaking::drifted_validators(&genesis.staking, &params.xstaking.validators),
        vec![V1]
    );
}

#[test]
fn a_total_of_weights_beyond_the_range_is_reported_as_such() {
    let mut staking = Staking::new();
    staking.register(V1, 0).unwrap();
    staking.force_set_nominator_vote_weight(N1, V1, u64::MAX).unwrap();
    let validators = vec![ValidatorInfo { who: V1, self_bonded: 0 }; 3];
    assert_eq!(
        xstaking::calc_total_weight(&staking, &vec![N1, N1], &validators),
        Some(6 * u64::MAX as u128)
    );
}

#[test]
fn mining_weights_are_written_as_given() {
    let params = XMiningAssetParams {
        asset: X_BTC,
        weight: 1240,
        miners: vec![
            XBtcMiner { who: B, weight: 1 },
            XBtcMiner { who: N1, weight: 240 },
            XBtcMiner { who: B, weight: 1000 },
        ],
    };
    let store = xmining_asset::initialize(&params, 50, Module::new()).unwrap();
    assert_eq!(
        store.deposit_records(B, X_BTC),
        Some(DepositVoteWeight { last_deposit_weight: 1000, last_deposit_weight_update: 50 })
    );
    assert_eq!(
        store.deposit_records(N1, X_BTC),
        Some(DepositVoteWeight { last_deposit_weight: 240, last_deposit_weight_update: 50 })
    );
    assert_eq!(
        store.psedu_intention_profiles(X_BTC),
        Some(PseduIntentionVoteWeight {
            jackpot: 0,
            last_total_deposit_weight: 1240,
            last_total_deposit_weight_update: 50,
        })
    );
    assert_eq!(store.psedu_intentions(), vec![X_BTC]);
}

#[test]
fn mining_weights_of_the_native_asset_stop_the_import() {
    let params = XMiningAssetParams { asset: NATIVE_TOKEN, weight: 1, miners: Vec::new() };
    assert_eq!(
        xmining_asset::initialize(&params, 50, Module::new()).err(),
        Some(Error::NotSupported)
    );
}

#[test]
fn the_whole_snapshot_is_imported() {
    let genesis = run_migration(&snapshot(), &accounts(), 50).ok().unwrap();
    assert_eq!(genesis.assets.all_type_balance_of(TREASURY, NATIVE_TOKEN), 1000);
    assert_eq!(genesis.assets.all_type_balance_of(VESTING, NATIVE_TOKEN), 500);
    assert_eq!(genesis.assets.all_type_balance_of(NEW_POT_OF_V1, NATIVE_TOKEN), 200);
    assert_eq!(genesis.assets.all_type_balance_of(B, NATIVE_TOKEN), 50);
    assert_eq!(genesis.assets.all_type_balance_of(B, X_BTC), 100);
    assert_eq!(genesis.assets.all_type_balance_of(N1, X_BTC), 30);
    assert_eq!(genesis.staking.nominations(N1, V1), Some(nominator(300, 7)));
    assert_eq!(genesis.staking.nominations(N1, RETIRED), None);
    assert_eq!(
        genesis.tokens.deposit_records(B, X_BTC),
        Some(DepositVoteWeight { last_deposit_weight: 1000, last_deposit_weight_update: 50 })
    );
    assert_eq!(genesis.tokens.psedu_intentions(), vec![X_BTC]);
}

#[test]
fn the_import_makes_nothing_and_loses_nothing() {
    let params = snapshot();
    let genesis = run_migration(&params, &accounts(), 50).ok().unwrap();
    let declared: u128 = params.balances.free_balances.iter().map(|entry| entry.free).sum();
    assert_eq!(declared, 1750);
    assert_eq!(genesis.assets.all_type_balance(NATIVE_TOKEN), declared);
    let mut credited = 0u128;
    for who in [TREASURY, VESTING, NEW_POT_OF_V1, B] {
        credited += genesis.assets.all_type_balance_of(who, NATIVE_TOKEN);
    }
    assert_eq!(credited, declared);
}

#[test]
fn the_import_is_all_or_nothing() {
    let mut params = snapshot();
    params.xmining_asset.push(XMiningAssetParams {
        asset: NATIVE_TOKEN,
        weight: 0,
        miners: Vec::new(),
    });
    assert_eq!(run_migration(&params, &accounts(), 50).err(), Some(Error::NotSupported));

    let mut params = snapshot();
    params.xstaking.validators.push(ValidatorInfo { who: V2, self_bonded: 0 });
    assert_eq!(run_migration(&params, &accounts(), 50).err(), Some(Error::DuplicateValidator));

    let mut params = snapshot();
    params.xassets.push(XAssetsParams {
        asset: X_BTC,
        balances: vec![FreeBalanceInfo { who: B, free: u128::MAX }],
    });
    assert_eq!(run_migration(&params, &accounts(), 50).err(), Some(Error::Overflow));

    let mut params = snapshot();
    params.xassets.push(XAssetsParams { asset: NATIVE_TOKEN, balances: Vec::new() });
    assert_eq!(run_migration(&params, &accounts(), 50).err(), Some(Error::NotSupported));

    let mut params = snapshot();
    params.balances.wellknown_accounts.legacy_pots.push(LegacyPot { pot: B, validator: V2 });
    assert_eq!(run_migration(&params, &accounts(), 50).err(), Some(Error::MissingRewardPot));
}

#[test]
fn an_empty_snapshot_gives_an_empty_state() {
    let params = AllParams {
        balances: BalancesParams {
            free_balances: Vec::new(),
            wellknown_accounts: WellknownAccounts {
                legacy_council: COUNCIL,
                legacy_team: TEAM,
                legacy_pots: Vec::new(),
            },
        },
        xassets: Vec::new(),
        xstaking: XStakingParams { validators: Vec::new(), nominators: Vec::new() },
        xmining_asset: Vec::new(),
    };
    let genesis = run_migration(&params, &accounts(), 0).ok().unwrap();
    assert_eq!(genesis.assets.all_type_balance(NATIVE_TOKEN), 0);
    assert_eq!(genesis.tokens.psedu_intentions(), Vec::<u32>::new());
    assert_eq!(genesis.drifted, Vec::<u64>::new());
}

#[test]
fn the_imported_state_goes_on_accruing() {
    let mut genesis = run_migration(&snapshot(), &accounts(), 50).ok().unwrap();
    // The weights of the snapshot add up, and every holder has a record.
    assert_eq!(genesis.tokens.verify_vote_weights(&genesis.assets, X_BTC, 50), Ok(true));
    assert_eq!(genesis.tokens.verify_vote_weights(&genesis.assets, X_BTC, 60), Ok(true));
    genesis.tokens.on_move(&mut genesis.assets, X_BTC, B, N1, 60, 60).unwrap();
    assert_eq!(
        genesis.tokens.deposit_records(B, X_BTC),
        Some(DepositVoteWeight { last_deposit_weight: 2000, last_deposit_weight_update: 60 })
    );
    assert_eq!(
        genesis.tokens.deposit_records(N1, X_BTC),
        Some(DepositVoteWeight { last_deposit_weight: 540, last_deposit_weight_update: 60 })
    );
    assert_eq!(genesis.tokens.verify_vote_weights(&genesis.assets, X_BTC, 70), Ok(true));
    genesis.tokens.reward(X_BTC, 1000).unwrap();
    let params = ConfirmationParams { btc_irr_block: 1, block_period: 600 };
    // At block 70: B has 2000 + 40 * 10 of 2540 + 130 * 10.
    assert_eq!(
        genesis.tokens.claim(&mut genesis.assets, &params, B, StakeTarget::AssetTarget(X_BTC), 70),
        Ok(625)
    );
    assert_eq!(genesis.assets.all_type_balance_of(B, NATIVE_TOKEN), 675);
}
