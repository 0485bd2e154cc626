use xmining::math::{discounted_value, proportional_share};

#[test]
fn scaling_down_rounds_down() {
    assert_eq!(proportional_share(500, 1, 1, 2), Some(250));
    assert_eq!(proportional_share(7, 1, 2, 3), Some(4));
    assert_eq!(proportional_share(10, 1, 0, 5), Some(0));
    assert_eq!(proportional_share(0, 1, 3, 5), Some(0));
    assert_eq!(proportional_share(1, 1, 4, 5), Some(0));
}

#[test]
fn scaling_down_by_one_keeps_the_value() {
    assert_eq!(proportional_share(u128::MAX, 1, u64::MAX, u64::MAX), Some(u128::MAX));
    assert_eq!(proportional_share(12345, 1, 1, 1), Some(12345));
}

#[test]
fn scaling_down_is_exact_where_the_product_is_wider_than_128_bits() {
    assert_eq!(
        proportional_share(u128::MAX, 1, 1, 3),
        Some(113427455640312821154458202477256070485)
    );
    assert_eq!(
        proportional_share(u128::MAX, 1, 3, 4),
        Some(255211775190703847597530955573826158591)
    );
    assert_eq!(
        proportional_share(
            123456789012345678901234567890123456789,
            1,
            12345678901234567,
            98765432109876543
        ),
        Some(15432098485918210050349643136634084752)
    );
}

#[test]
fn share_is_proportional_to_weight() {
    assert_eq!(proportional_share(500, 1, 250, 1000), Some(125));
    assert_eq!(proportional_share(1000, 3, 1, 7), Some(428));
    assert_eq!(proportional_share(10, 1, 1, 3), Some(3));
    assert_eq!(
        proportional_share(1_000_000_000_000_000_000_000_000_000_000, 7, 13, 977),
        Some(93142272262026612077789150460)
    );
}

#[test]
fn share_is_held_to_the_pool() {
    // 500 * 2 * 1000 / 1000 = 1000, but the pool holds 500.
    assert_eq!(proportional_share(500, 2, 1000, 1000), Some(500));
    assert_eq!(proportional_share(u128::MAX, u64::MAX, u64::MAX, u64::MAX), Some(u128::MAX));
    assert_eq!(proportional_share(9, 5, 5, 25), Some(9));
}

#[test]
fn share_of_no_weight_or_no_wait_is_nothing() {
    assert_eq!(proportional_share(500, 2, 0, 1000), Some(0));
    assert_eq!(proportional_share(500, 0, 1000, 1000), Some(0));
    assert_eq!(proportional_share(0, 2, 1000, 1000), Some(0));
}

#[test]
fn there_is_no_share_without_weight_to_share_by() {
    assert_eq!(proportional_share(500, 2, 1000, 0), None);
    assert_eq!(proportional_share(0, 0, 0, 0), None);
}

#[test]
fn stake_is_three_tenths_of_the_worth() {
    assert_eq!(discounted_value(7, 100), 210);
    assert_eq!(discounted_value(3, 11), 9);
    assert_eq!(discounted_value(1, 1), 0);
    assert_eq!(discounted_value(1, 4), 1);
    assert_eq!(discounted_value(0, 1000), 0);
    assert_eq!(discounted_value(1000, 0), 0);
    assert_eq!(discounted_value(19, 19), 108);
}

#[test]
fn stake_is_exact_where_the_worth_is_wider_than_128_bits() {
    assert_eq!(discounted_value(u128::MAX, 3), 306254130228844617117037146688591390309);
    assert_eq!(discounted_value(3, u128::MAX), 306254130228844617117037146688591390309);
}

#[test]
fn stake_stops_at_the_ceiling() {
    assert_eq!(discounted_value(u128::MAX, 4), u128::MAX);
    assert_eq!(discounted_value(u128::MAX, u128::MAX), u128::MAX);
    assert_eq!(discounted_value(1 << 100, 1 << 100), u128::MAX);
}
