use xmining::primitives::Error;
use xmining::staking::{NominatorLedger, Staking, ValidatorInfo, ValidatorLedger};

const V1: u64 = 1;
const V2: u64 = 2;
const N1: u64 = 21;
const N2: u64 = 22;

fn nominator(nomination: u128, weight: u64) -> NominatorLedger {
    NominatorLedger { nomination, last_vote_weight: weight, last_vote_weight_update: 0 }
}

fn validator(total: u128) -> ValidatorLedger {
    ValidatorLedger {
        total_nomination: total,
        last_total_vote_weight: 0,
        last_total_vote_weight_update: 0,
    }
}

#[test]
fn a_validator_is_registered_with_its_own_bond() {
    let mut staking = Staking::new();
    assert_eq!(staking.validator_ledgers(V1), None);
    assert_eq!(staking.register(V1, 100), Ok(()));
    assert_eq!(staking.validator_ledgers(V1), Some(validator(100)));
    assert_eq!(staking.nominations(V1, V1), Some(nominator(100, 0)));
    assert_eq!(staking.validator_ledgers(V2), None);
}

#[test]
fn a_validator_without_a_bond_has_no_record_with_itself() {
    let mut staking = Staking::new();
    assert_eq!(staking.register(V1, 0), Ok(()));
    assert_eq!(staking.validator_ledgers(V1), Some(validator(0)));
    assert_eq!(staking.nominations(V1, V1), None);
}

#[test]
fn a_validator_cannot_be_registered_twice() {
    let mut staking = Staking::new();
    assert_eq!(staking.register(V1, 100), Ok(()));
    assert_eq!(staking.register(V1, 5), Err(Error::DuplicateValidator));
    assert_eq!(staking.validator_ledgers(V1), Some(validator(100)));
    assert_eq!(staking.nominations(V1, V1), Some(nominator(100, 0)));
}

#[test]
fn a_list_of_validators_is_registered_in_order() {
    let mut staking = Staking::new();
    let list = vec![
        ValidatorInfo { who: V1, self_bonded: 10 },
        ValidatorInfo { who: V2, self_bonded: 20 },
    ];
    assert_eq!(staking.initialize_validators(&list), Ok(()));
    assert_eq!(staking.validator_ledgers(V1), Some(validator(10)));
    assert_eq!(staking.validator_ledgers(V2), Some(validator(20)));
    assert_eq!(staking.initialize_validators(&Vec::new()), Ok(()));
}

#[test]
fn a_list_with_a_repeated_validator_is_rejected() {
    let mut staking = Staking::new();
    let list = vec![
        ValidatorInfo { who: V1, self_bonded: 10 },
        ValidatorInfo { who: V2, self_bonded: 20 },
        ValidatorInfo { who: V1, self_bonded: 30 },
    ];
    assert_eq!(staking.initialize_validators(&list), Err(Error::DuplicateValidator));

    let mut staking = Staking::new();
    staking.register(V2, 1).unwrap();
    let list = vec![ValidatorInfo { who: V1, self_bonded: 10 }, ValidatorInfo { who: V2, self_bonded: 20 }];
    assert_eq!(staking.initialize_validators(&list), Err(Error::DuplicateValidator));
}

#[test]
fn a_bond_adds_to_the_record_and_to_the_total() {
    let mut staking = Staking::new();
    staking.register(V1, 100).unwrap();
    staking.register(V2, 0).unwrap();
    assert_eq!(staking.force_bond(N1, V1, 50), Ok(()));
    assert_eq!(staking.force_bond(N2, V1, 7), Ok(()));
    assert_eq!(staking.force_bond(N1, V1, 3), Ok(()));
    assert_eq!(staking.force_bond(N1, V2, 9), Ok(()));
    assert_eq!(staking.nominations(N1, V1), Some(nominator(53, 0)));
    assert_eq!(staking.nominations(N2, V1), Some(nominator(7, 0)));
    assert_eq!(staking.nominations(N1, V2), Some(nominator(9, 0)));
    assert_eq!(staking.validator_ledgers(V1), Some(validator(160)));
    assert_eq!(staking.validator_ledgers(V2), Some(validator(9)));
}

#[test]
fn a_bond_of_nothing_makes_no_record() {
    let mut staking = Staking::new();
    staking.register(V1, 100).unwrap();
    assert_eq!(staking.force_bond(N1, V1, 0), Ok(()));
    assert_eq!(staking.nominations(N1, V1), None);
    assert_eq!(staking.validator_ledgers(V1), Some(validator(100)));
}

#[test]
fn a_bond_to_a_stranger_is_rejected() {
    let mut staking = Staking::new();
    staking.register(V1, 100).unwrap();
    assert_eq!(staking.force_bond(N1, V2, 50), Err(Error::UnknownValidator));
    assert_eq!(staking.force_bond(N1, V2, 0), Err(Error::UnknownValidator));
    assert_eq!(staking.nominations(N1, V2), None);
}

#[test]
fn a_bond_beyond_the_range_is_rejected() {
    let mut staking = Staking::new();
    staking.register(V1, u128::MAX - 1).unwrap();
    assert_eq!(staking.force_bond(N1, V1, 2), Err(Error::Overflow));
    assert_eq!(staking.nominations(N1, V1), None);
    assert_eq!(staking.validator_ledgers(V1), Some(validator(u128::MAX - 1)));
    assert_eq!(staking.force_bond(N1, V1, 1), Ok(()));
    assert_eq!(staking.validator_ledgers(V1), Some(validator(u128::MAX)));
}

#[test]
fn a_forced_weight_is_written_as_given() {
    let mut staking = Staking::new();
    staking.register(V1, 100).unwrap();
    staking.force_bond(N1, V1, 50).unwrap();
    assert_eq!(staking.force_set_nominator_vote_weight(N1, V1, 77), Ok(()));
    assert_eq!(staking.nominations(N1, V1), Some(nominator(50, 77)));
    assert_eq!(staking.force_set_nominator_vote_weight(N1, V1, 3), Ok(()));
    assert_eq!(staking.nominations(N1, V1), Some(nominator(50, 3)));
    // A nominator without a record gets one with nothing bonded.
    assert_eq!(staking.force_set_nominator_vote_weight(N2, V1, 9), Ok(()));
    assert_eq!(staking.nominations(N2, V1), Some(nominator(0, 9)));
    // The validator's own record is not touched.
    assert_eq!(staking.validator_ledgers(V1), Some(validator(150)));
}

#[test]
fn a_forced_weight_with_a_stranger_is_rejected() {
    let mut staking = Staking::new();
    staking.register(V1, 100).unwrap();
    assert_eq!(staking.force_set_nominator_vote_weight(N1, V2, 77), Err(Error::UnknownValidator));
    assert_eq!(staking.nominations(N1, V2), None);
}

#[test]
fn the_total_nomination_is_the_sum_of_the_bonds() {
    let mut staking = Staking::new();
    staking.register(V1, 100).unwrap();
    staking.register(V2, 5).unwrap();
    staking.force_bond(N1, V1, 50).unwrap();
    staking.force_bond(N2, V1, 7).unwrap();
    staking.force_bond(N2, V2, 1).unwrap();
    staking.force_set_nominator_vote_weight(N1, V2, 4).unwrap();
    assert_eq!(staking.nominators_nomination(V1), 157);
    assert_eq!(staking.nominators_nomination(V2), 6);
    assert_eq!(staking.nominators_nomination(N1), 0);
    for v in [V1, V2] {
        let mut sum = 0u128;
        for n in [V1, V2, N1, N2] {
            if let Some(ledger) = staking.nominations(n, v) {
                sum += ledger.nomination;
            }
        }
        assert_eq!(sum, staking.validator_ledgers(v).unwrap().total_nomination);
    }
}

#[test]
fn the_cached_weight_is_compared_with_the_sum_of_the_weights() {
    let mut staking = Staking::new();
    staking.register(V1, 100).unwrap();
    assert_eq!(staking.nominators_vote_weight(V1), 0);
    assert_eq!(staking.check_vote_weight(V1), Ok(true));
    staking.force_set_nominator_vote_weight(N1, V1, 4).unwrap();
    staking.force_set_nominator_vote_weight(N2, V1, u64::MAX).unwrap();
    assert_eq!(staking.nominators_vote_weight(V1), u64::MAX as u128 + 4);
    assert_eq!(staking.nominators_vote_weight(V2), 0);
    // The validator has cached nothing.
    assert_eq!(staking.check_vote_weight(V1), Ok(false));
    assert_eq!(staking.check_vote_weight(V2), Err(Error::UnknownValidator));
}
