use xmining::accrual::latest_acum_weight;
use xmining::primitives::Error;
use xmining::store::{DepositVoteWeight, PseduIntentionVoteWeight};

#[test]
fn holding_accrues_balance_times_blocks() {
    // 100 units held from block 10 to block 20.
    assert_eq!(latest_acum_weight(0, 10, 100, 20), Ok(1000));
}

#[test]
fn weight_adds_to_what_was_accrued() {
    assert_eq!(latest_acum_weight(7, 3, 5, 9), Ok(7 + 5 * 6));
}

#[test]
fn no_blocks_elapsed_accrues_nothing() {
    assert_eq!(latest_acum_weight(5, 7, 3, 7), Ok(5));
    assert_eq!(latest_acum_weight(5, 7, u128::MAX, 7), Ok(5));
}

#[test]
fn nothing_held_accrues_nothing() {
    assert_eq!(latest_acum_weight(42, 0, 0, u64::MAX), Ok(42));
}

#[test]
fn weight_stops_at_the_ceiling() {
    assert_eq!(latest_acum_weight(u64::MAX - 10, 0, 1, 10), Ok(u64::MAX));
    assert_eq!(latest_acum_weight(u64::MAX - 5, 0, 1, 10), Ok(u64::MAX));
    assert_eq!(latest_acum_weight(0, 0, u128::MAX, 2), Ok(u64::MAX));
    assert_eq!(latest_acum_weight(1, 0, 1 << 64, 1), Ok(u64::MAX));
    assert_eq!(latest_acum_weight(0, 0, (1 << 64) - 1, 1), Ok(u64::MAX));
    assert_eq!(latest_acum_weight(0, 0, 1u128 << 63, 2), Ok(u64::MAX));
    assert_eq!(latest_acum_weight(0, 0, (1u128 << 63) - 1, 2), Ok(u64::MAX - 1));
}

#[test]
fn a_block_before_the_last_update_has_no_weight() {
    assert_eq!(latest_acum_weight(5, 7, 3, 6), Err(Error::ClockWentBackwards));
    assert_eq!(latest_acum_weight(0, u64::MAX, 0, 0), Err(Error::ClockWentBackwards));
}

#[test]
fn settling_a_record_moves_its_last_update() {
    let mut record = DepositVoteWeight { last_deposit_weight: 0, last_deposit_weight_update: 10 };
    assert_eq!(record.settle(100, 20), Ok(()));
    assert_eq!(
        record,
        DepositVoteWeight { last_deposit_weight: 1000, last_deposit_weight_update: 20 }
    );
}

#[test]
fn settling_twice_at_one_block_changes_nothing() {
    let mut record = DepositVoteWeight { last_deposit_weight: 3, last_deposit_weight_update: 10 };
    assert_eq!(record.settle(100, 20), Ok(()));
    let once = record;
    assert_eq!(record.settle(100, 20), Ok(()));
    assert_eq!(record, once);
    // Not even with another balance.
    assert_eq!(record.settle(1_000_000, 20), Ok(()));
    assert_eq!(record, once);

    let mut profile = PseduIntentionVoteWeight {
        jackpot: 9,
        last_total_deposit_weight: 1,
        last_total_deposit_weight_update: 2,
    };
    assert_eq!(profile.settle(4, 5), Ok(()));
    let once = profile;
    assert_eq!(profile.settle(400, 5), Ok(()));
    assert_eq!(profile, once);
}

#[test]
fn settling_before_the_last_update_is_rejected() {
    let mut record = DepositVoteWeight { last_deposit_weight: 3, last_deposit_weight_update: 10 };
    assert_eq!(record.settle(100, 9), Err(Error::ClockWentBackwards));
    assert_eq!(record, DepositVoteWeight { last_deposit_weight: 3, last_deposit_weight_update: 10 });

    let mut profile = PseduIntentionVoteWeight {
        jackpot: 9,
        last_total_deposit_weight: 1,
        last_total_deposit_weight_update: 2,
    };
    assert_eq!(profile.settle(4, 1), Err(Error::ClockWentBackwards));
    assert_eq!(
        profile,
        PseduIntentionVoteWeight {
            jackpot: 9,
            last_total_deposit_weight: 1,
            last_total_deposit_weight_update: 2,
        }
    );
}

#[test]
fn settling_an_asset_leaves_its_pool_alone() {
    let mut profile = PseduIntentionVoteWeight {
        jackpot: 77,
        last_total_deposit_weight: 10,
        last_total_deposit_weight_update: 100,
    };
    assert_eq!(profile.settle(3, 104), Ok(()));
    assert_eq!(
        profile,
        PseduIntentionVoteWeight {
            jackpot: 77,
            last_total_deposit_weight: 22,
            last_total_deposit_weight_update: 104,
        }
    );
}

#[test]
fn settling_never_takes_weight_away() {
    let mut record = DepositVoteWeight { last_deposit_weight: 50, last_deposit_weight_update: 0 };
    let mut last = record.last_deposit_weight;
    for (held, now) in [(0u128, 1u64), (3, 4), (0, 4), (1 << 70, 5), (2, 9)] {
        assert_eq!(record.settle(held, now), Ok(()));
        assert!(record.last_deposit_weight >= last);
        last = record.last_deposit_weight;
    }
    assert_eq!(last, u64::MAX);
}

#[test]
fn records_start_empty() {
    assert_eq!(
        DepositVoteWeight::default(),
        DepositVoteWeight { last_deposit_weight: 0, last_deposit_weight_update: 0 }
    );
    assert_eq!(
        PseduIntentionVoteWeight::default(),
        PseduIntentionVoteWeight {
            jackpot: 0,
            last_total_deposit_weight: 0,
            last_total_deposit_weight_update: 0,
        }
    );
}
