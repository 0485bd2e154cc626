//! The validators and the nominations.
//!
//! The validators of the snapshot are registered first. Then every
//! nomination is looked at. One that names a validator outside the snapshot
//! is dropped: that validator retired before the cutover, and neither the
//! bond nor the weight is carried over. For every other nomination the
//! weight is written as the snapshot has it, and the bond is made, unless
//! it is a validator's bond to itself, which the registration has made
//! already.

use vstd::prelude::*;
use crate::primitives::{AccountId, Error};
use crate::genesis::{Nomination, NominatorInfo, XStakingParams};
use crate::lookup::{keys_of, lemma_position};
use crate::math::{sum, lemma_sum_bounds, lemma_sum_prefix_at_most, lemma_sum_take_next};
use crate::staking::{
    lemma_bonded,
    lemma_weighted,
    lemma_with_validator,
    validator_key,
    Staking,
    StakingState,
    ValidatorInfo,
};

verus! {

/// Whether `who` is one of the validators of the snapshot.
pub open spec fn is_genesis_validator(validators: Seq<ValidatorInfo>, who: AccountId) -> bool {
    exists|i: int| 0 <= i < validators.len() && (#[trigger] validators[i]).who == who
}

/// Whether `who` is one of the validators of the list.
pub fn contains_validator(validators: &Vec<ValidatorInfo>, who: AccountId) -> (found: bool)
    ensures
        found == is_genesis_validator(validators@, who),
{
    let mut i: usize = 0;
    while i < validators.len()
        invariant
            i <= validators.len(),
            forall|j: int| 0 <= j < i ==> (#[trigger] validators@[j]).who != who,
        decreases validators.len() - i,
    {
        if validators[i].who == who {
            return true;
        }
        i += 1;
    }
    false
}

/// The ledger after one nomination was looked at, or the reason why the
/// import ends there.
pub open spec fn import_nomination(
    state: StakingState,
    genesis: Seq<ValidatorInfo>,
    nominator: AccountId,
    nomination: Nomination,
) -> Result<StakingState, Error> {
    if !is_genesis_validator(genesis, nomination.nominee) {
        Ok(state)
    } else if !state.registered(nomination.nominee) {
        Err(Error::UnknownValidator)
    } else {
        let weighted = state.weighted(nominator, nomination.nominee, nomination.weight);
        if nomination.nominee == nominator {
            Ok(weighted)
        } else {
            match weighted.bond_outcome(nomination.nominee, nomination.nomination) {
                Ok(()) => Ok(weighted.bonded(nominator, nomination.nominee, nomination.nomination)),
                Err(e) => Err(e),
            }
        }
    }
}

/// The ledger after the nominations of one nominator were looked at, one
/// after the other.
pub open spec fn import_nominations(
    state: StakingState,
    genesis: Seq<ValidatorInfo>,
    nominator: AccountId,
    nominations: Seq<Nomination>,
) -> Result<StakingState, Error>
    decreases nominations.len(),
{
    if nominations.len() == 0 {
        Ok(state)
    } else {
        match import_nominations(state, genesis, nominator, nominations.drop_last()) {
            Ok(so_far) => import_nomination(so_far, genesis, nominator, nominations.last()),
            Err(e) => Err(e),
        }
    }
}

/// The ledger after the nominations of all nominators were looked at, one
/// nominator after the other.
pub open spec fn import_nominators(
    state: StakingState,
    genesis: Seq<ValidatorInfo>,
    nominators: Seq<NominatorInfo>,
) -> Result<StakingState, Error>
    decreases nominators.len(),
{
    if nominators.len() == 0 {
        Ok(state)
    } else {
        match import_nominators(state, genesis, nominators.drop_last()) {
            Ok(so_far) => import_nominations(
                so_far,
                genesis,
                nominators.last().nominator,
                nominators.last().nominations@,
            ),
            Err(e) => Err(e),
        }
    }
}

/// The ledger after the whole staking part of the snapshot was imported.
pub open spec fn imported(state: StakingState, params: XStakingParams) -> Result<
    StakingState,
    Error,
> {
    match state.register_all(params.validators@) {
        Ok(registered) => import_nominators(registered, params.validators@, params.nominators@),
        Err(e) => Err(e),
    }
}

/// Once the nominations of a front part have failed, the whole list fails
/// in the same way.
pub proof fn lemma_import_nominations_fails_on(
    state: StakingState,
    genesis: Seq<ValidatorInfo>,
    nominator: AccountId,
    nominations: Seq<Nomination>,
    i: int,
)
    requires
        0 <= i <= nominations.len(),
    ensures
        import_nominations(state, genesis, nominator, nominations.take(i)) matches Err(e)
            ==> import_nominations(state, genesis, nominator, nominations) == Err::<
            StakingState,
            Error,
        >(e),
    decreases nominations.len() - i,
{
    if i == nominations.len() {
        assert(nominations.take(i) =~= nominations);
    } else {
        assert(nominations.take(i + 1).drop_last() =~= nominations.take(i));
        lemma_import_nominations_fails_on(state, genesis, nominator, nominations, i + 1);
    }
}

/// Once the nominators of a front part have failed, the whole list fails in
/// the same way.
pub proof fn lemma_import_nominators_fails_on(
    state: StakingState,
    genesis: Seq<ValidatorInfo>,
    nominators: Seq<NominatorInfo>,
    i: int,
)
    requires
        0 <= i <= nominators.len(),
    ensures
        import_nominators(state, genesis, nominators.take(i)) matches Err(e) ==> import_nominators(
            state,
            genesis,
            nominators,
        ) == Err::<StakingState, Error>(e),
    decreases nominators.len() - i,
{
    if i == nominators.len() {
        assert(nominators.take(i) =~= nominators);
    } else {
        assert(nominators.take(i + 1).drop_last() =~= nominators.take(i));
        lemma_import_nominators_fails_on(state, genesis, nominators, i + 1);
    }
}

/// The second ledger has every validator of the first, and shows for every
/// pair whose validator is outside the snapshot what the first showed.
pub open spec fn strangers_untouched(
    before: StakingState,
    after: StakingState,
    genesis: Seq<ValidatorInfo>,
) -> bool {
    &&& after.wf()
    &&& forall|v: AccountId| before.registered(v) ==> #[trigger] after.registered(v)
    &&& forall|n: AccountId, v: AccountId|
        !is_genesis_validator(genesis, v) ==> #[trigger] after.nomination(n, v)
            == before.nomination(n, v)
}

/// Registering validators of the snapshot leaves every pair outside the
/// snapshot as it was.
pub proof fn lemma_register_all_spares_strangers(
    state: StakingState,
    genesis: Seq<ValidatorInfo>,
    i: int,
)
    requires
        state.wf(),
        0 <= i <= genesis.len(),
    ensures
        state.register_all(genesis.take(i)) matches Ok(after) ==> strangers_untouched(
            state,
            after,
            genesis,
        ) && forall|j: int| 0 <= j < i ==> after.registered((#[trigger] genesis[j]).who),
    decreases i,
{
    if i > 0 {
        assert(genesis.take(i).drop_last() =~= genesis.take(i - 1));
        lemma_register_all_spares_strangers(state, genesis, i - 1);
        match state.register_all(genesis.take(i - 1)) {
            Ok(so_far) => {
                let who = genesis[i - 1].who;
                assert(genesis.take(i).last() == genesis[i - 1]);
                if !so_far.registered(who) {
                    lemma_with_validator(so_far, who);
                    let added = so_far.with_validator(who);
                    lemma_position(keys_of(added.validators, validator_key()), who);
                    lemma_bonded(added, who, who, genesis[i - 1].self_bonded);
                    let after = added.bonded(who, who, genesis[i - 1].self_bonded);
                    assert(is_genesis_validator(genesis, who));
                    assert forall|v: AccountId|
                        state.registered(v) implies #[trigger] after.registered(v) by {
                        assert(so_far.registered(v));
                        assert(added.registered(v));
                    }
                    assert forall|j: int| 0 <= j < i implies after.registered(
                        (#[trigger] genesis[j]).who,
                    ) by {
                        if j < i - 1 {
                            assert(so_far.registered(genesis[j].who));
                        }
                        assert(added.registered(genesis[j].who));
                    }
                    assert forall|n: AccountId, v: AccountId|
                        !is_genesis_validator(genesis, v) implies #[trigger] after.nomination(n, v)
                        == state.nomination(n, v) by {
                        assert(v != who);
                        assert(after.nomination(n, v) == added.nomination(n, v));
                        assert(so_far.nomination(n, v) == state.nomination(n, v));
                    }
                }
            },
            Err(_) => {},
        }
    }
}

/// Looking at one nomination leaves every pair outside the snapshot as it
/// was.
pub proof fn lemma_import_nomination_spares_strangers(
    state: StakingState,
    genesis: Seq<ValidatorInfo>,
    nominator: AccountId,
    nomination: Nomination,
)
    requires
        state.wf(),
    ensures
        import_nomination(state, genesis, nominator, nomination) matches Ok(after)
            ==> strangers_untouched(state, after, genesis),
{
    if is_genesis_validator(genesis, nomination.nominee) && state.registered(nomination.nominee) {
        lemma_weighted(state, nominator, nomination.nominee, nomination.weight);
        let weighted = state.weighted(nominator, nomination.nominee, nomination.weight);
        if nomination.nominee != nominator && weighted.bond_outcome(
            nomination.nominee,
            nomination.nomination,
        ) is Ok {
            lemma_bonded(weighted, nominator, nomination.nominee, nomination.nomination);
            let after = weighted.bonded(nominator, nomination.nominee, nomination.nomination);
            assert forall|n: AccountId, v: AccountId|
                !is_genesis_validator(genesis, v) implies #[trigger] after.nomination(n, v)
                == state.nomination(n, v) by {
                assert(after.nomination(n, v) == weighted.nomination(n, v));
            }
            assert forall|v: AccountId| state.registered(v) implies #[trigger] after.registered(
                v,
            ) by {
                assert(weighted.registered(v));
            }
        }
    }
}

/// Looking at the nominations of one nominator leaves every pair outside
/// the snapshot as it was.
pub proof fn lemma_import_nominations_spares_strangers(
    state: StakingState,
    genesis: Seq<ValidatorInfo>,
    nominator: AccountId,
    nominations: Seq<Nomination>,
)
    requires
        state.wf(),
    ensures
        import_nominations(state, genesis, nominator, nominations) matches Ok(after)
            ==> strangers_untouched(state, after, genesis),
    decreases nominations.len(),
{
    if nominations.len() > 0 {
        lemma_import_nominations_spares_strangers(
            state,
            genesis,
            nominator,
            nominations.drop_last(),
        );
        match import_nominations(state, genesis, nominator, nominations.drop_last()) {
            Ok(so_far) => {
                lemma_import_nomination_spares_strangers(
                    so_far,
                    genesis,
                    nominator,
                    nominations.last(),
                );
                match import_nomination(so_far, genesis, nominator, nominations.last()) {
                    Ok(after) => {
                        assert forall|v: AccountId|
                            state.registered(v) implies #[trigger] after.registered(v) by {
                            assert(so_far.registered(v));
                        }
                        assert forall|n: AccountId, v: AccountId|
                            !is_genesis_validator(genesis, v) implies #[trigger] after.nomination(
                            n,
                            v,
                        ) == state.nomination(n, v) by {
                            assert(so_far.nomination(n, v) == state.nomination(n, v));
                        }
                    },
                    Err(_) => {},
                }
            },
            Err(_) => {},
        }
    }
}

/// Looking at the nominations of all nominators leaves every pair outside
/// the snapshot as it was.
pub proof fn lemma_import_nominators_spares_strangers(
    state: StakingState,
    genesis: Seq<ValidatorInfo>,
    nominators: Seq<NominatorInfo>,
)
    requires
        state.wf(),
    ensures
        import_nominators(state, genesis, nominators) matches Ok(after) ==> strangers_untouched(
            state,
            after,
            genesis,
        ),
    decreases nominators.len(),
{
    if nominators.len() > 0 {
        lemma_import_nominators_spares_strangers(state, genesis, nominators.drop_last());
        match import_nominators(state, genesis, nominators.drop_last()) {
            Ok(so_far) => {
                lemma_import_nominations_spares_strangers(
                    so_far,
                    genesis,
                    nominators.last().nominator,
                    nominators.last().nominations@,
                );
                match import_nominations(
                    so_far,
                    genesis,
                    nominators.last().nominator,
                    nominators.last().nominations@,
                ) {
                    Ok(after) => {
                        assert forall|v: AccountId|
                            state.registered(v) implies #[trigger] after.registered(v) by {
                            assert(so_far.registered(v));
                        }
                        assert forall|n: AccountId, v: AccountId|
                            !is_genesis_validator(genesis, v) implies #[trigger] after.nomination(
                            n,
                            v,
                        ) == state.nomination(n, v) by {
                            assert(so_far.nomination(n, v) == state.nomination(n, v));
                        }
                    },
                    Err(_) => {},
                }
            },
            Err(_) => {},
        }
    }
}

/// A nomination that names a validator outside the snapshot leaves no
/// trace: after the import, the ledger shows for that nominator and that
/// validator what it showed before. Where there was no record, there is
/// none, not even an empty one.
pub proof fn lemma_dropped_nomination_leaves_no_record(
    state: StakingState,
    params: XStakingParams,
    nominator: AccountId,
    validator: AccountId,
)
    requires
        state.wf(),
        !is_genesis_validator(params.validators@, validator),
    ensures
        imported(state, params) matches Ok(after) ==> after.wf() && after.nomination(
            nominator,
            validator,
        ) == state.nomination(nominator, validator),
{
    let genesis = params.validators@;
    assert(genesis.take(genesis.len() as int) =~= genesis);
    lemma_register_all_spares_strangers(state, genesis, genesis.len() as int);
    match state.register_all(genesis) {
        Ok(registered) => {
            lemma_import_nominators_spares_strangers(registered, genesis, params.nominators@);
            match import_nominators(registered, genesis, params.nominators@) {
                Ok(after) => {
                    assert(registered.nomination(nominator, validator) == state.nomination(
                        nominator,
                        validator,
                    ));
                },
                Err(_) => {},
            }
        },
        Err(_) => {},
    }
}

/// Every validator of the snapshot is registered.
pub open spec fn all_registered(state: StakingState, genesis: Seq<ValidatorInfo>) -> bool {
    forall|j: int| 0 <= j < genesis.len() ==> state.registered((#[trigger] genesis[j]).who)
}

/// With the validators of the snapshot registered, the nominations of one
/// nominator fail on a total that leaves 128 bits and on nothing else.
pub proof fn lemma_import_nominations_fails_on_overflow_only(
    state: StakingState,
    genesis: Seq<ValidatorInfo>,
    nominator: AccountId,
    nominations: Seq<Nomination>,
)
    requires
        state.wf(),
        all_registered(state, genesis),
    ensures
        match import_nominations(state, genesis, nominator, nominations) {
            Ok(after) => strangers_untouched(state, after, genesis) && all_registered(
                after,
                genesis,
            ),
            Err(e) => e == Error::Overflow,
        },
    decreases nominations.len(),
{
    if nominations.len() > 0 {
        lemma_import_nominations_fails_on_overflow_only(
            state,
            genesis,
            nominator,
            nominations.drop_last(),
        );
        lemma_import_nominations_spares_strangers(state, genesis, nominator, nominations);
        match import_nominations(state, genesis, nominator, nominations.drop_last()) {
            Ok(so_far) => {
                let nomination = nominations.last();
                lemma_import_nomination_spares_strangers(so_far, genesis, nominator, nomination);
                if is_genesis_validator(genesis, nomination.nominee) {
                    let j = choose|j: int|
                        0 <= j < genesis.len() && (#[trigger] genesis[j]).who
                            == nomination.nominee;
                    assert(so_far.registered(genesis[j].who));
                    lemma_weighted(so_far, nominator, nomination.nominee, nomination.weight);
                    let weighted = so_far.weighted(
                        nominator,
                        nomination.nominee,
                        nomination.weight,
                    );
                    lemma_position(
                        keys_of(weighted.validators, validator_key()),
                        nomination.nominee,
                    );
                }
                match import_nomination(so_far, genesis, nominator, nomination) {
                    Ok(after) => {
                        assert forall|j: int| 0 <= j < genesis.len() implies after.registered(
                            (#[trigger] genesis[j]).who,
                        ) by {
                            assert(so_far.registered(genesis[j].who));
                        }
                    },
                    Err(_) => {},
                }
            },
            Err(_) => {},
        }
    }
}

/// With the validators of the snapshot registered, the nominations of all
/// nominators fail on a total that leaves 128 bits and on nothing else.
pub proof fn lemma_import_nominators_fails_on_overflow_only(
    state: StakingState,
    genesis: Seq<ValidatorInfo>,
    nominators: Seq<NominatorInfo>,
)
    requires
        state.wf(),
        all_registered(state, genesis),
    ensures
        match import_nominators(state, genesis, nominators) {
            Ok(after) => after.wf() && all_registered(after, genesis),
            Err(e) => e == Error::Overflow,
        },
    decreases nominators.len(),
{
    if nominators.len() > 0 {
        lemma_import_nominators_fails_on_overflow_only(state, genesis, nominators.drop_last());
        match import_nominators(state, genesis, nominators.drop_last()) {
            Ok(so_far) => {
                lemma_import_nominations_fails_on_overflow_only(
                    so_far,
                    genesis,
                    nominators.last().nominator,
                    nominators.last().nominations@,
                );
            },
            Err(_) => {},
        }
    }
}

/// The import of the staking part fails in two ways only: on a validator
/// that is registered twice, and on a total nomination that leaves 128
/// bits. A nomination never meets a validator that is not registered: the
/// nominations that are not dropped name validators of the snapshot, and
/// those were registered first.
pub proof fn lemma_import_fails_in_two_ways(state: StakingState, params: XStakingParams)
    requires
        state.wf(),
    ensures
        match imported(state, params) {
            Ok(after) => after.wf(),
            Err(e) => e == Error::DuplicateValidator || e == Error::Overflow,
        },
{
    let genesis = params.validators@;
    assert(genesis.take(genesis.len() as int) =~= genesis);
    lemma_register_all_spares_strangers(state, genesis, genesis.len() as int);
    lemma_register_all_fails_on_duplicate_only(state, genesis);
    match state.register_all(genesis) {
        Ok(registered) => {
            lemma_import_nominators_fails_on_overflow_only(registered, genesis, params.nominators@);
        },
        Err(_) => {},
    }
}

/// Registering a list of validators fails on a validator that is
/// registered already and on nothing else.
pub proof fn lemma_register_all_fails_on_duplicate_only(
    state: StakingState,
    validators: Seq<ValidatorInfo>,
)
    ensures
        state.register_all(validators) matches Err(e) ==> e == Error::DuplicateValidator,
    decreases validators.len(),
{
    if validators.len() > 0 {
        lemma_register_all_fails_on_duplicate_only(state, validators.drop_last());
    }
}

/// Registers the validators of the snapshot and imports the nominations.
///
/// Fails when a validator occurs twice, or is registered already, and when
/// a validator's total nomination would leave 128 bits, and in no other
/// way. On success the ledger is well-formed: every validator's total
/// nomination is the sum of the bonds to it.
#[verifier::loop_isolation(false)]
pub fn initialize(params: &XStakingParams, staking: Staking) -> (result: Result<Staking, Error>)
    requires
        staking.wf(),
    ensures
        match imported(staking@, *params) {
            Ok(state) => result matches Ok(after) && after@ == state && after.wf(),
            Err(e) => result matches Err(err) && err == e,
        },
        result matches Err(e) ==> e == Error::DuplicateValidator || e == Error::Overflow,
{
    proof {
        lemma_import_fails_in_two_ways(staking@, *params);
    }
    let mut current = staking;
    // Firstly register the genesis validators.
    match current.initialize_validators(&params.validators) {
        Ok(()) => {},
        Err(e) => {
            return Err(e);
        },
    }
    let ghost genesis = params.validators@;
    let ghost registered = current@;
    let mut i: usize = 0;
    proof {
        assert(params.nominators@.take(0) =~= Seq::<NominatorInfo>::empty());
    }
    // Then set the vote weights and make the bonds.
    while i < params.nominators.len()
        invariant
            i <= params.nominators.len(),
            current.wf(),
            genesis == params.validators@,
            staking@.register_all(genesis) == Ok::<StakingState, Error>(registered),
            import_nominators(registered, genesis, params.nominators@.take(i as int)) == Ok::<
                StakingState,
                Error,
            >(current@),
        decreases params.nominators.len() - i,
    {
        let info = &params.nominators[i];
        let ghost outer = current@;
        let mut j: usize = 0;
        proof {
            assert(params.nominators@.take(i + 1).drop_last() =~= params.nominators@.take(
                i as int,
            ));
            assert(params.nominators@.take(i + 1).last() == params.nominators@[i as int]);
            lemma_import_nominators_fails_on(registered, genesis, params.nominators@, i + 1);
            assert(info.nominations@.take(0) =~= Seq::<Nomination>::empty());
        }
        while j < info.nominations.len()
            invariant
                j <= info.nominations.len(),
                i < params.nominators.len(),
                *info == params.nominators@[i as int],
                current.wf(),
                genesis == params.validators@,
                staking@.register_all(genesis) == Ok::<StakingState, Error>(registered),
                import_nominators(registered, genesis, params.nominators@.take(i as int)) == Ok::<
                    StakingState,
                    Error,
                >(outer),
                import_nominators(registered, genesis, params.nominators@.take(i + 1))
                    == import_nominations(outer, genesis, info.nominator, info.nominations@),
                import_nominators(registered, genesis, params.nominators@.take(i + 1)) matches Err(
                    e,
                ) ==> import_nominators(registered, genesis, params.nominators@) == Err::<
                    StakingState,
                    Error,
                >(e),
                import_nominations(outer, genesis, info.nominator, info.nominations@.take(j as int))
                    == Ok::<StakingState, Error>(current@),
            decreases info.nominations.len() - j,
        {
            let nomination = info.nominations[j];
            proof {
                assert(info.nominations@.take(j + 1).drop_last() =~= info.nominations@.take(
                    j as int,
                ));
                assert(info.nominations@.take(j + 1).last() == nomination);
                lemma_import_nominations_fails_on(
                    outer,
                    genesis,
                    info.nominator,
                    info.nominations@,
                    j + 1,
                );
            }
            // Not every nominee is a genesis validator: the validators that
            // retired before the cutover have been dropped.
            if contains_validator(&params.validators, nomination.nominee) {
                match current.force_set_nominator_vote_weight(
                    info.nominator,
                    nomination.nominee,
                    nomination.weight,
                ) {
                    Ok(()) => {},
                    Err(e) => {
                        return Err(e);
                    },
                }
                // The validator's bond to itself was made when it was
                // registered.
                if nomination.nominee != info.nominator {
                    match current.force_bond(
                        info.nominator,
                        nomination.nominee,
                        nomination.nomination,
                    ) {
                        Ok(()) => {},
                        Err(e) => {
                            return Err(e);
                        },
                    }
                }
            }
            j += 1;
        }
        proof {
            assert(info.nominations@.take(j as int) =~= info.nominations@);
        }
        i += 1;
    }
    proof {
        assert(params.nominators@.take(i as int) =~= params.nominators@);
    }
    Ok(current)
}

/// The vote weight that `account` shows with `validator`, or nothing where
/// it has no record there.
pub open spec fn weight_of(state: StakingState, account: AccountId, validator: AccountId) -> int {
    match state.nomination(account, validator) {
        Some(ledger) => ledger.last_vote_weight as int,
        None => 0,
    }
}

/// The vote weights that `account` shows with each validator of the list.
pub open spec fn account_weights(
    state: StakingState,
    account: AccountId,
    validators: Seq<ValidatorInfo>,
) -> Seq<int> {
    Seq::new(validators.len(), |j: int| weight_of(state, account, validators[j].who))
}

/// For each account of the list, the sum of its vote weights with the
/// validators of the list.
pub open spec fn weights_by_account(
    state: StakingState,
    accounts: Seq<AccountId>,
    validators: Seq<ValidatorInfo>,
) -> Seq<int> {
    Seq::new(accounts.len(), |i: int| sum(account_weights(state, accounts[i], validators)))
}

/// The total vote weight as the nominators' records give it: for every
/// account of the list and every validator of the list, the weight of the
/// record of that pair, if there is one, all added up. `None` where the sum
/// leaves 128 bits.
pub fn calc_total_weight(
    staking: &Staking,
    accounts: &Vec<AccountId>,
    validators: &Vec<ValidatorInfo>,
) -> (total: Option<u128>)
    requires
        staking.wf(),
    ensures
        match total {
            Some(total) => total == sum(weights_by_account(staking@, accounts@, validators@)),
            None => sum(weights_by_account(staking@, accounts@, validators@)) > u128::MAX,
        },
{
    let ghost by_account = weights_by_account(staking@, accounts@, validators@);
    proof {
        assert forall|k: int| 0 <= k < by_account.len() implies 0 <= #[trigger] by_account[k] by {
            let terms = account_weights(staking@, accounts@[k], validators@);
            lemma_sum_bounds(terms, 0, u64::MAX as int);
            assert(0 <= terms.len() * 0);
        }
    }
    let mut total: u128 = 0;
    let mut i: usize = 0;
    while i < accounts.len()
        invariant
            i <= accounts.len(),
            staking.wf(),
            by_account == weights_by_account(staking@, accounts@, validators@),
            forall|k: int| 0 <= k < by_account.len() ==> 0 <= #[trigger] by_account[k],
            total == sum(by_account.take(i as int)),
        decreases accounts.len() - i,
    {
        let account = accounts[i];
        let ghost terms = account_weights(staking@, account, validators@);
        let mut total1: u128 = 0;
        let mut j: usize = 0;
        while j < validators.len()
            invariant
                j <= validators.len(),
                staking.wf(),
                terms == account_weights(staking@, account, validators@),
                total1 == sum(terms.take(j as int)),
                total1 <= j * u64::MAX,
            decreases validators.len() - j,
        {
            proof {
                lemma_sum_take_next(terms, j as int);
                assert(j * u64::MAX + u64::MAX <= u128::MAX) by (nonlinear_arith)
                    requires
                        0 <= j <= u64::MAX,
                ;
                assert((j + 1) * u64::MAX == j * u64::MAX + u64::MAX) by (nonlinear_arith);
            }
            match staking.nominations(account, validators[j].who) {
                Some(ledger) => {
                    total1 = total1 + ledger.last_vote_weight as u128;
                },
                None => {},
            }
            j += 1;
        }
        proof {
            assert(terms.take(j as int) =~= terms);
            lemma_sum_take_next(by_account, i as int);
            lemma_sum_prefix_at_most(by_account, i + 1);
        }
        total = match total.checked_add(total1) {
            Some(sum) => sum,
            None => {
                return None;
            },
        };
        i += 1;
    }
    proof {
        assert(by_account.take(i as int) =~= by_account);
    }
    Some(total)
}

/// The vote weight that each validator of the list has cached, with zero
/// in the place of every account that is not registered.
pub open spec fn cached_weights(state: StakingState, validators: Seq<ValidatorInfo>) -> Seq<int> {
    Seq::new(
        validators.len(),
        |j: int|
            match state.validator(validators[j].who) {
                Some(cached) => cached.last_total_vote_weight as int,
                None => 0,
            },
    )
}

/// The total vote weight as the validators' records give it: the cached
/// weights of the validators of the list, added up.
pub fn total_validator_weights(staking: &Staking, validators: &Vec<ValidatorInfo>) -> (total: u128)
    requires
        staking.wf(),
    ensures
        total == sum(cached_weights(staking@, validators@)),
{
    let ghost terms = cached_weights(staking@, validators@);
    let mut total: u128 = 0;
    let mut j: usize = 0;
    while j < validators.len()
        invariant
            j <= validators.len(),
            staking.wf(),
            terms == cached_weights(staking@, validators@),
            total == sum(terms.take(j as int)),
            total <= j * u64::MAX,
        decreases validators.len() - j,
    {
        proof {
            lemma_sum_take_next(terms, j as int);
            assert(j * u64::MAX + u64::MAX <= u128::MAX) by (nonlinear_arith)
                requires
                    0 <= j <= u64::MAX,
            ;
            assert((j + 1) * u64::MAX == j * u64::MAX + u64::MAX) by (nonlinear_arith);
        }
        match staking.validator_ledgers(validators[j].who) {
            Some(cached) => {
                total = total + cached.last_total_vote_weight as u128;
            },
            None => {},
        }
        j += 1;
    }
    proof {
        assert(terms.take(j as int) =~= terms);
    }
    total
}

/// The validators of the list whose cached vote weight is not the sum of
/// the vote weights of their nominators, in the order of the list. An
/// account that is not registered is passed over.
pub open spec fn drifted_in(state: StakingState, validators: Seq<ValidatorInfo>) -> Seq<AccountId>
    decreases validators.len(),
{
    if validators.len() == 0 {
        Seq::empty()
    } else {
        let front = drifted_in(state, validators.drop_last());
        let who = validators.last().who;
        match state.validator(who) {
            Some(cached) => if cached.last_total_vote_weight == state.vote_weight_to(who) {
                front
            } else {
                front.push(who)
            },
            None => front,
        }
    }
}

/// Compares, for each validator of the list, the vote weight it has cached
/// with the sum of the vote weights of its nominators, and reports the
/// validators for which the two differ.
pub fn drifted_validators(staking: &Staking, validators: &Vec<ValidatorInfo>) -> (drifted: Vec<
    AccountId,
>)
    requires
        staking.wf(),
    ensures
        drifted@ == drifted_in(staking@, validators@),
{
    let mut drifted: Vec<AccountId> = Vec::new();
    let mut j: usize = 0;
    proof {
        assert(validators@.take(0) =~= Seq::<ValidatorInfo>::empty());
    }
    while j < validators.len()
        invariant
            j <= validators.len(),
            staking.wf(),
            drifted@ == drifted_in(staking@, validators@.take(j as int)),
        decreases validators.len() - j,
    {
        proof {
            assert(validators@.take(j + 1).drop_last() =~= validators@.take(j as int));
            assert(validators@.take(j + 1).last() == validators@[j as int]);
        }
        match staking.check_vote_weight(validators[j].who) {
            Ok(agree) => {
                if !agree {
                    drifted.push(validators[j].who);
                }
            },
            Err(_) => {},
        }
        j += 1;
    }
    proof {
        assert(validators@.take(j as int) =~= validators@);
    }
    drifted
}

} // verus!
