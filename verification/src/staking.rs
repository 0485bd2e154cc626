//! The validator side of staking, as far as the import of a legacy ledger
//! writes to it: who is a validator, who has bonded how much to whom, and
//! with what weight.
//!
//! A validator's record caches two aggregates of its nominators' records.
//! The total nomination is kept equal to the sum of the bonds by every
//! operation here, and that is part of the ledger's invariant. The total
//! vote weight is not: weights are written by force, one nominator at a
//! time, and nothing brings the validator's cached weight along. Whether
//! the two agree is therefore a question to be asked, and there is a
//! function that asks it.

use vstd::prelude::*;
use crate::primitives::{AccountId, Balance, BlockNumber, Error, VoteWeight};
use crate::lookup::{
    get,
    keys_of,
    lemma_position,
    lemma_position_push,
    lemma_position_unique,
    lemma_put,
    position,
    put,
};
use crate::math::{
    sum,
    lemma_sum_bounds,
    lemma_sum_dominates_term,
    lemma_sum_push,
    lemma_sum_take_next,
    lemma_sum_update,
};

verus! {

/// What one nominator has at stake with one validator.
#[derive(Clone, Copy, Debug, PartialEq, Eq, Structural)]
pub struct NominatorLedger {
    pub nomination: Balance,
    pub last_vote_weight: VoteWeight,
    pub last_vote_weight_update: BlockNumber,
}

/// What a validator caches of its nominators' stakes.
#[derive(Clone, Copy, Debug, PartialEq, Eq, Structural)]
pub struct ValidatorLedger {
    pub total_nomination: Balance,
    pub last_total_vote_weight: VoteWeight,
    pub last_total_vote_weight_update: BlockNumber,
}

/// A nominator's record in the list, under its key.
#[derive(Clone, Copy, Debug, PartialEq, Eq, Structural)]
pub struct NominationEntry {
    pub nominator: AccountId,
    pub validator: AccountId,
    pub ledger: NominatorLedger,
}

/// A validator's record in the list, under its key.
#[derive(Clone, Copy, Debug, PartialEq, Eq, Structural)]
pub struct ValidatorEntry {
    pub who: AccountId,
    pub ledger: ValidatorLedger,
}

/// A validator to be registered, with what it has bonded to itself.
#[derive(Clone, Copy, Debug, PartialEq, Eq, Structural)]
pub struct ValidatorInfo {
    pub who: AccountId,
    pub self_bonded: Balance,
}

/// The key of a validator's record: its account.
pub open spec fn validator_key() -> spec_fn(ValidatorEntry) -> AccountId {
    |entry: ValidatorEntry| entry.who
}

/// The key of a nominator's record: the nominator and the validator.
pub open spec fn nomination_key() -> spec_fn(NominationEntry) -> (AccountId, AccountId) {
    |entry: NominationEntry| (entry.nominator, entry.validator)
}

/// The bonds to `validator` along the list, with zero in the place of every
/// record for another validator.
pub open spec fn bonds_to(nominations: Seq<NominationEntry>, validator: AccountId) -> Seq<int> {
    Seq::new(
        nominations.len(),
        |i: int|
            if nominations[i].validator == validator {
                nominations[i].ledger.nomination as int
            } else {
                0
            },
    )
}

/// The vote weights with `validator` along the list, with zero in the place
/// of every record for another validator.
pub open spec fn weights_to(nominations: Seq<NominationEntry>, validator: AccountId) -> Seq<int> {
    Seq::new(
        nominations.len(),
        |i: int|
            if nominations[i].validator == validator {
                nominations[i].ledger.last_vote_weight as int
            } else {
                0
            },
    )
}

/// A record that holds nothing yet.
pub open spec fn empty_nomination() -> NominatorLedger {
    NominatorLedger { nomination: 0, last_vote_weight: 0, last_vote_weight_update: 0 }
}

/// What the staking ledger holds.
pub struct StakingState {
    pub validators: Seq<ValidatorEntry>,
    pub nominations: Seq<NominationEntry>,
}

impl StakingState {
    /// The record of validator `who`, if it is registered.
    pub open spec fn validator(self, who: AccountId) -> Option<ValidatorLedger> {
        match get(self.validators, validator_key(), who) {
            Some(entry) => Some(entry.ledger),
            None => None,
        }
    }

    /// The record of `nominator` with `validator`, if there is one.
    pub open spec fn nomination(self, nominator: AccountId, validator: AccountId) -> Option<
        NominatorLedger,
    > {
        match get(self.nominations, nomination_key(), (nominator, validator)) {
            Some(entry) => Some(entry.ledger),
            None => None,
        }
    }

    /// Whether `who` is a registered validator.
    pub open spec fn registered(self, who: AccountId) -> bool {
        keys_of(self.validators, validator_key()).contains(who)
    }

    /// The sum of all bonds to `validator`.
    pub open spec fn bonded_to(self, validator: AccountId) -> int {
        sum(bonds_to(self.nominations, validator))
    }

    /// The sum of the vote weights of all nominators of `validator`.
    pub open spec fn vote_weight_to(self, validator: AccountId) -> int {
        sum(weights_to(self.nominations, validator))
    }

    /// The ledger's invariant: no key occurs twice, every record names a
    /// registered validator, and every validator's total nomination is the
    /// sum of the bonds to it.
    pub open spec fn wf(self) -> bool {
        &&& keys_of(self.validators, validator_key()).no_duplicates()
        &&& keys_of(self.nominations, nomination_key()).no_duplicates()
        &&& forall|i: int|
            0 <= i < self.nominations.len() ==> self.registered(
                (#[trigger] self.nominations[i]).validator,
            )
        &&& forall|k: int|
            0 <= k < self.validators.len() ==> (
            #[trigger] self.validators[k]).ledger.total_nomination == self.bonded_to(
                self.validators[k].who,
            )
    }

    /// The ledger with `who` added as a validator to which nothing is
    /// bonded yet.
    pub open spec fn with_validator(self, who: AccountId) -> StakingState {
        StakingState {
            validators: self.validators.push(
                ValidatorEntry {
                    who,
                    ledger: ValidatorLedger {
                        total_nomination: 0,
                        last_total_vote_weight: 0,
                        last_total_vote_weight_update: 0,
                    },
                },
            ),
            nominations: self.nominations,
        }
    }

    /// The ledger after `nominator` has bonded `value` more to
    /// `validator`: the nominator's record and the validator's total have
    /// both grown by `value`. Bonding nothing changes nothing.
    pub open spec fn bonded(
        self,
        nominator: AccountId,
        validator: AccountId,
        value: Balance,
    ) -> StakingState {
        if value == 0 {
            self
        } else {
            let before = match self.nomination(nominator, validator) {
                Some(ledger) => ledger,
                None => empty_nomination(),
            };
            let cached = self.validator(validator).unwrap();
            StakingState {
                validators: put(
                    self.validators,
                    validator_key(),
                    ValidatorEntry {
                        who: validator,
                        ledger: ValidatorLedger {
                            total_nomination: (cached.total_nomination + value) as Balance,
                            ..cached
                        },
                    },
                ),
                nominations: put(
                    self.nominations,
                    nomination_key(),
                    NominationEntry {
                        nominator,
                        validator,
                        ledger: NominatorLedger {
                            nomination: (before.nomination + value) as Balance,
                            ..before
                        },
                    },
                ),
            }
        }
    }

    /// The ledger after the vote weight of `nominator` with `validator` was
    /// set to `weight`. The validator's cached weight is not touched.
    pub open spec fn weighted(
        self,
        nominator: AccountId,
        validator: AccountId,
        weight: VoteWeight,
    ) -> StakingState {
        let before = match self.nomination(nominator, validator) {
            Some(ledger) => ledger,
            None => empty_nomination(),
        };
        StakingState {
            validators: self.validators,
            nominations: put(
                self.nominations,
                nomination_key(),
                NominationEntry {
                    nominator,
                    validator,
                    ledger: NominatorLedger { last_vote_weight: weight, ..before },
                },
            ),
        }
    }

    /// What registering `who` with a bond to itself answers, and leaves.
    pub open spec fn register(self, who: AccountId, self_bonded: Balance) -> Result<
        StakingState,
        Error,
    > {
        if self.registered(who) {
            Err(Error::DuplicateValidator)
        } else {
            Ok(self.with_validator(who).bonded(who, who, self_bonded))
        }
    }

    /// What registering a list of validators, one after the other, answers
    /// and leaves. The first failure ends it.
    pub open spec fn register_all(self, validators: Seq<ValidatorInfo>) -> Result<
        StakingState,
        Error,
    >
        decreases validators.len(),
    {
        if validators.len() == 0 {
            Ok(self)
        } else {
            match self.register_all(validators.drop_last()) {
                Ok(state) => state.register(validators.last().who, validators.last().self_bonded),
                Err(e) => Err(e),
            }
        }
    }

    /// The ledger that registering a list leaves behind: the validators up
    /// to the first failure are registered, and none after it.
    pub open spec fn register_while_possible(self, validators: Seq<ValidatorInfo>) -> StakingState
        decreases validators.len(),
    {
        if validators.len() == 0 {
            self
        } else {
            let so_far = self.register_while_possible(validators.drop_last());
            match self.register_all(validators.drop_last()) {
                Ok(_) => match so_far.register(
                    validators.last().who,
                    validators.last().self_bonded,
                ) {
                    Ok(next) => next,
                    Err(_) => so_far,
                },
                Err(_) => so_far,
            }
        }
    }

    /// What a forced bond answers.
    pub open spec fn bond_outcome(self, validator: AccountId, value: Balance) -> Result<(), Error> {
        match self.validator(validator) {
            None => Err(Error::UnknownValidator),
            Some(cached) => if cached.total_nomination + value > u128::MAX {
                Err(Error::Overflow)
            } else {
                Ok(())
            },
        }
    }
}

/// In a well-formed ledger, a registered validator's total nomination is the
/// sum of the bonds that its nominators' records show.
pub proof fn lemma_total_nomination_is_sum(state: StakingState, validator: AccountId)
    requires
        state.wf(),
        state.registered(validator),
    ensures
        state.validator(validator) matches Some(cached) && cached.total_nomination
            == state.bonded_to(validator),
{
    let keys = keys_of(state.validators, validator_key());
    lemma_position(keys, validator);
    let k = position(keys, validator).unwrap();
    assert(state.validators[k].who == validator);
}

/// Nothing is bonded to an account that is not a validator.
pub proof fn lemma_nothing_bonded_to_stranger(state: StakingState, who: AccountId)
    requires
        state.wf(),
        !state.registered(who),
    ensures
        state.bonded_to(who) == 0,
        forall|nominator: AccountId| state.nomination(nominator, who) is None,
{
    let terms = bonds_to(state.nominations, who);
    assert forall|i: int| 0 <= i < terms.len() implies 0 <= #[trigger] terms[i] <= 0 by {
        assert(state.registered(state.nominations[i].validator));
    }
    lemma_sum_bounds(terms, 0, 0);
    assert(terms.len() * 0 == 0);
    assert forall|nominator: AccountId| state.nomination(nominator, who) is None by {
        let keys = keys_of(state.nominations, nomination_key());
        lemma_position(keys, (nominator, who));
        if position(keys, (nominator, who)) is Some {
            let i = position(keys, (nominator, who)).unwrap();
            assert(state.nominations[i].validator == who);
            assert(state.registered(state.nominations[i].validator));
        }
    }
}

/// Adding a validator keeps the ledger well-formed and changes no record.
pub proof fn lemma_with_validator(state: StakingState, who: AccountId)
    requires
        state.wf(),
        !state.registered(who),
    ensures
        state.with_validator(who).wf(),
        state.with_validator(who).registered(who),
        state.with_validator(who).validator(who) == Some(
            ValidatorLedger {
                total_nomination: 0,
                last_total_vote_weight: 0,
                last_total_vote_weight_update: 0,
            },
        ),
        forall|v: AccountId|
            v != who ==> #[trigger] state.with_validator(who).validator(v) == state.validator(v),
        forall|v: AccountId|
            v != who ==> #[trigger] state.with_validator(who).registered(v) == state.registered(
                v,
            ),
{
    let after = state.with_validator(who);
    let keys = keys_of(state.validators, validator_key());
    assert(keys_of(after.validators, validator_key()) =~= keys.push(who));
    lemma_position_push(keys, who, who);
    lemma_nothing_bonded_to_stranger(state, who);
    let longer = keys.push(who);
    assert forall|v: AccountId| v != who implies #[trigger] after.validator(v) == state.validator(
        v,
    ) by {
        lemma_position_push(keys, who, v);
        lemma_position(keys, v);
    }
    assert forall|v: AccountId| v != who implies #[trigger] after.registered(v)
        == state.registered(v) by {
        lemma_position_push(keys, who, v);
        assert(position(longer, v) is Some <==> longer.contains(v));
        assert(position(keys, v) is Some <==> keys.contains(v));
    }
    assert(after.registered(who)) by {
        assert(position(longer, who) is Some <==> longer.contains(who));
    }
    assert forall|i: int| 0 <= i < after.nominations.len() implies after.registered(
        (#[trigger] after.nominations[i]).validator,
    ) by {
        assert(state.registered(state.nominations[i].validator));
    }
    assert forall|k: int| 0 <= k < after.validators.len() implies (
    #[trigger] after.validators[k]).ledger.total_nomination == after.bonded_to(
        after.validators[k].who,
    ) by {
        if k < state.validators.len() {
            assert(state.validators[k].ledger.total_nomination == state.bonded_to(
                state.validators[k].who,
            ));
        }
    }
}

/// A forced bond within the range keeps the ledger well-formed, and changes
/// the one record and the one total by the value bonded.
pub proof fn lemma_bonded(
    state: StakingState,
    nominator: AccountId,
    validator: AccountId,
    value: Balance,
)
    requires
        state.wf(),
        state.bond_outcome(validator, value) is Ok,
    ensures
        state.bonded(nominator, validator, value).wf(),
        (match state.nomination(nominator, validator) {
            Some(ledger) => ledger.nomination,
            None => 0,
        }) + value <= u128::MAX,
        forall|v: AccountId| #[trigger]
            state.bonded(nominator, validator, value).registered(v) == state.registered(v),
        forall|v: AccountId|
            v != validator ==> #[trigger] state.bonded(nominator, validator, value).validator(v)
                == state.validator(v),
        forall|n: AccountId, v: AccountId|
            !(n == nominator && v == validator) ==> #[trigger] state.bonded(
                nominator,
                validator,
                value,
            ).nomination(n, v) == state.nomination(n, v),
{
    let after = state.bonded(nominator, validator, value);
    let vkeys = keys_of(state.validators, validator_key());
    let nkeys = keys_of(state.nominations, nomination_key());
    let terms = bonds_to(state.nominations, validator);
    lemma_position(vkeys, validator);
    lemma_position(nkeys, (nominator, validator));
    let k = position(vkeys, validator).unwrap();
    assert(state.validators[k].who == validator);
    assert(state.validators[k].ledger.total_nomination == state.bonded_to(validator));
    let before = match state.nomination(nominator, validator) {
        Some(ledger) => ledger,
        None => empty_nomination(),
    };
    match position(nkeys, (nominator, validator)) {
        Some(i) => {
            assert(nkeys[i] == (nominator, validator));
            assert(terms[i] == before.nomination);
            lemma_sum_dominates_term(terms, i);
        },
        None => {},
    }
    if value != 0 {
        let cached = state.validator(validator).unwrap();
        let entry = NominationEntry {
            nominator,
            validator,
            ledger: NominatorLedger {
                nomination: (before.nomination + value) as Balance,
                ..before
            },
        };
        let head = ValidatorEntry {
            who: validator,
            ledger: ValidatorLedger {
                total_nomination: (cached.total_nomination + value) as Balance,
                ..cached
            },
        };
        lemma_put(state.validators, validator_key(), head);
        lemma_put(state.nominations, nomination_key(), entry);
        assert(after.validators == state.validators.update(k, head));
        assert(keys_of(after.validators, validator_key()) =~= vkeys);
        assert forall|i: int| 0 <= i < after.nominations.len() implies after.registered(
            (#[trigger] after.nominations[i]).validator,
        ) by {
            if i < state.nominations.len() {
                assert(state.registered(state.nominations[i].validator));
            }
        }
        assert forall|j: int| 0 <= j < after.validators.len() implies (
        #[trigger] after.validators[j]).ledger.total_nomination == after.bonded_to(
            after.validators[j].who,
        ) by {
            let v = after.validators[j].who;
            let old_terms = bonds_to(state.nominations, v);
            let new_terms = bonds_to(after.nominations, v);
            assert(state.validators[j].ledger.total_nomination == state.bonded_to(v));
            assert(state.validators[j].who == v);
            if j != k {
                assert(vkeys[j] != vkeys[k]);
            }
            let term: int = if v == validator {
                before.nomination + value
            } else {
                0
            };
            match position(nkeys, (nominator, validator)) {
                Some(i) => {
                    assert(new_terms =~= old_terms.update(i, term));
                    lemma_sum_update(old_terms, i, term);
                },
                None => {
                    assert(new_terms =~= old_terms.push(term));
                    lemma_sum_push(old_terms, term);
                },
            }
        }
        assert forall|v: AccountId|
            v != validator implies #[trigger] after.validator(v) == state.validator(v) by {}
        assert forall|n: AccountId, v: AccountId|
            !(n == nominator && v == validator) implies #[trigger] after.nomination(n, v)
            == state.nomination(n, v) by {}
    }
}

/// Setting a vote weight keeps the ledger well-formed and changes nothing
/// but that weight.
pub proof fn lemma_weighted(
    state: StakingState,
    nominator: AccountId,
    validator: AccountId,
    weight: VoteWeight,
)
    requires
        state.wf(),
        state.registered(validator),
    ensures
        state.weighted(nominator, validator, weight).wf(),
        state.weighted(nominator, validator, weight).nomination(nominator, validator) matches Some(
            ledger,
        ) && ledger.last_vote_weight == weight,
        forall|n: AccountId, v: AccountId|
            !(n == nominator && v == validator) ==> #[trigger] state.weighted(
                nominator,
                validator,
                weight,
            ).nomination(n, v) == state.nomination(n, v),
{
    let after = state.weighted(nominator, validator, weight);
    let nkeys = keys_of(state.nominations, nomination_key());
    let before = match state.nomination(nominator, validator) {
        Some(ledger) => ledger,
        None => empty_nomination(),
    };
    let entry = NominationEntry {
        nominator,
        validator,
        ledger: NominatorLedger { last_vote_weight: weight, ..before },
    };
    lemma_position(nkeys, (nominator, validator));
    lemma_put(state.nominations, nomination_key(), entry);
    assert forall|i: int| 0 <= i < after.nominations.len() implies after.registered(
        (#[trigger] after.nominations[i]).validator,
    ) by {
        if i < state.nominations.len() {
            assert(state.registered(state.nominations[i].validator));
        }
    }
    assert forall|j: int| 0 <= j < after.validators.len() implies (
    #[trigger] after.validators[j]).ledger.total_nomination == after.bonded_to(
        after.validators[j].who,
    ) by {
        let v = after.validators[j].who;
        let old_terms = bonds_to(state.nominations, v);
        let new_terms = bonds_to(after.nominations, v);
        assert(state.validators[j].ledger.total_nomination == state.bonded_to(v));
        let term: int = if v == validator {
            before.nomination as int
        } else {
            0
        };
        match position(nkeys, (nominator, validator)) {
            Some(i) => {
                assert(nkeys[i] == (nominator, validator));
                assert(new_terms =~= old_terms);
            },
            None => {
                assert(new_terms =~= old_terms.push(term));
                lemma_sum_push(old_terms, term);
            },
        }
    }
    assert forall|n: AccountId, v: AccountId|
        !(n == nominator && v == validator) implies #[trigger] after.nomination(n, v)
        == state.nomination(n, v) by {}
}

/// The staking ledger.
pub struct Staking {
    validators: Vec<ValidatorEntry>,
    nominations: Vec<NominationEntry>,
}

impl View for Staking {
    type V = StakingState;

    closed spec fn view(&self) -> StakingState {
        StakingState { validators: self.validators@, nominations: self.nominations@ }
    }
}

impl Staking {
    /// The ledger's invariant.
    pub open spec fn wf(&self) -> bool {
        self@.wf()
    }

    /// A ledger with no validator and no record.
    pub fn new() -> (ledger: Staking)
        ensures
            ledger.wf(),
            ledger@.validators == Seq::<ValidatorEntry>::empty(),
            ledger@.nominations == Seq::<NominationEntry>::empty(),
    {
        let ledger = Staking { validators: Vec::new(), nominations: Vec::new() };
        proof {
            assert(keys_of(ledger@.validators, validator_key()) =~= Seq::<AccountId>::empty());
            assert(keys_of(ledger@.nominations, nomination_key()) =~= Seq::<
                (AccountId, AccountId),
            >::empty());
        }
        ledger
    }

    fn find_validator(&self, who: AccountId) -> (found: Option<usize>)
        requires
            self.wf(),
        ensures
            match found {
                Some(i) => i < self@.validators.len() && position(
                    keys_of(self@.validators, validator_key()),
                    who,
                ) == Some(i as int),
                None => position(keys_of(self@.validators, validator_key()), who) is None,
            },
    {
        let ghost keys = keys_of(self@.validators, validator_key());
        let mut i: usize = 0;
        while i < self.validators.len()
            invariant
                i <= self.validators.len(),
                keys == keys_of(self@.validators, validator_key()),
                keys.no_duplicates(),
                forall|j: int| 0 <= j < i ==> keys[j] != who,
            decreases self.validators.len() - i,
        {
            if self.validators[i].who == who {
                proof {
                    assert(keys[i as int] == who);
                    lemma_position_unique(keys, i as int, who);
                }
                return Some(i);
            }
            i += 1;
        }
        None
    }

    fn find_nomination(&self, nominator: AccountId, validator: AccountId) -> (found: Option<usize>)
        requires
            self.wf(),
        ensures
            match found {
                Some(i) => i < self@.nominations.len() && position(
                    keys_of(self@.nominations, nomination_key()),
                    (nominator, validator),
                ) == Some(i as int),
                None => position(
                    keys_of(self@.nominations, nomination_key()),
                    (nominator, validator),
                ) is None,
            },
    {
        let ghost keys = keys_of(self@.nominations, nomination_key());
        let mut i: usize = 0;
        while i < self.nominations.len()
            invariant
                i <= self.nominations.len(),
                keys == keys_of(self@.nominations, nomination_key()),
                keys.no_duplicates(),
                forall|j: int| 0 <= j < i ==> keys[j] != (nominator, validator),
            decreases self.nominations.len() - i,
        {
            if self.nominations[i].nominator == nominator && self.nominations[i].validator
                == validator {
                proof {
                    assert(keys[i as int] == (nominator, validator));
                    lemma_position_unique(keys, i as int, (nominator, validator));
                }
                return Some(i);
            }
            i += 1;
        }
        None
    }

    /// The record of validator `who`, if it is registered.
    pub fn validator_ledgers(&self, who: AccountId) -> (ledger: Option<ValidatorLedger>)
        requires
            self.wf(),
        ensures
            ledger == self@.validator(who),
            ledger is Some <==> self@.registered(who),
    {
        proof {
            lemma_position(keys_of(self@.validators, validator_key()), who);
        }
        match self.find_validator(who) {
            Some(i) => Some(self.validators[i].ledger),
            None => None,
        }
    }

    /// The record of `nominator` with `validator`, if there is one.
    pub fn nominations(&self, nominator: AccountId, validator: AccountId) -> (ledger: Option<
        NominatorLedger,
    >)
        requires
            self.wf(),
        ensures
            ledger == self@.nomination(nominator, validator),
    {
        match self.find_nomination(nominator, validator) {
            Some(i) => Some(self.nominations[i].ledger),
            None => None,
        }
    }

    /// Bonds `value` from `sender` to `target` without asking where the
    /// funds come from.
    ///
    /// Rejected, with the ledger untouched, for a target that is not a
    /// validator and for a total that would leave 128 bits.
    pub fn force_bond(&mut self, sender: AccountId, target: AccountId, value: Balance) -> (result:
        Result<(), Error>)
        requires
            old(self).wf(),
        ensures
            final(self).wf(),
            result == old(self)@.bond_outcome(target, value),
            match result {
                Ok(()) => final(self)@ == old(self)@.bonded(sender, target, value),
                Err(_) => final(self)@ == old(self)@,
            },
    {
        proof {
            lemma_position(keys_of(self@.validators, validator_key()), target);
            lemma_position(keys_of(self@.nominations, nomination_key()), (sender, target));
        }
        let k = match self.find_validator(target) {
            Some(k) => k,
            None => {
                return Err(Error::UnknownValidator);
            },
        };
        let cached = self.validators[k].ledger;
        if cached.total_nomination > u128::MAX - value {
            return Err(Error::Overflow);
        }
        proof {
            lemma_bonded(self@, sender, target, value);
        }
        if value == 0 {
            return Ok(());
        }
        let found = self.find_nomination(sender, target);
        let before = match found {
            Some(i) => self.nominations[i].ledger,
            None => NominatorLedger {
                nomination: 0,
                last_vote_weight: 0,
                last_vote_weight_update: 0,
            },
        };
        let entry = NominationEntry {
            nominator: sender,
            validator: target,
            ledger: NominatorLedger {
                nomination: before.nomination + value,
                last_vote_weight: before.last_vote_weight,
                last_vote_weight_update: before.last_vote_weight_update,
            },
        };
        self.validators.set(
            k,
            ValidatorEntry {
                who: target,
                ledger: ValidatorLedger {
                    total_nomination: cached.total_nomination + value,
                    last_total_vote_weight: cached.last_total_vote_weight,
                    last_total_vote_weight_update: cached.last_total_vote_weight_update,
                },
            },
        );
        match found {
            Some(i) => {
                self.nominations.set(i, entry);
            },
            None => {
                self.nominations.push(entry);
            },
        }
        proof {
            assert(self@.validators =~= old(self)@.bonded(sender, target, value).validators);
            assert(self@.nominations =~= old(self)@.bonded(sender, target, value).nominations);
        }
        Ok(())
    }

    /// Sets the vote weight of `nominator` with `validator` to
    /// `new_weight`, whatever it was. A nominator without a record gets one
    /// with nothing bonded.
    ///
    /// Rejected, with the ledger untouched, exactly when `validator` is not
    /// registered. After a call that was not rejected the record shows the
    /// weight that was asked for.
    pub fn force_set_nominator_vote_weight(
        &mut self,
        nominator: AccountId,
        validator: AccountId,
        new_weight: VoteWeight,
    ) -> (result: Result<(), Error>)
        requires
            old(self).wf(),
        ensures
            final(self).wf(),
            match result {
                Ok(()) => {
                    &&& old(self)@.registered(validator)
                    &&& final(self)@ == old(self)@.weighted(nominator, validator, new_weight)
                    &&& final(self)@.nomination(nominator, validator) matches Some(ledger)
                        && ledger.last_vote_weight == new_weight
                },
                Err(e) => {
                    &&& e == Error::UnknownValidator
                    &&& !old(self)@.registered(validator)
                    &&& final(self)@ == old(self)@
                },
            },
    {
        proof {
            lemma_position(keys_of(self@.validators, validator_key()), validator);
            lemma_position(keys_of(self@.nominations, nomination_key()), (nominator, validator));
        }
        if self.find_validator(validator).is_none() {
            return Err(Error::UnknownValidator);
        }
        proof {
            lemma_weighted(self@, nominator, validator, new_weight);
        }
        match self.find_nomination(nominator, validator) {
            Some(i) => {
                let before = self.nominations[i].ledger;
                self.nominations.set(
                    i,
                    NominationEntry {
                        nominator,
                        validator,
                        ledger: NominatorLedger {
                            nomination: before.nomination,
                            last_vote_weight: new_weight,
                            last_vote_weight_update: before.last_vote_weight_update,
                        },
                    },
                );
            },
            None => {
                self.nominations.push(
                    NominationEntry {
                        nominator,
                        validator,
                        ledger: NominatorLedger {
                            nomination: 0,
                            last_vote_weight: new_weight,
                            last_vote_weight_update: 0,
                        },
                    },
                );
            },
        }
        proof {
            assert(self@.nominations =~= old(self)@.weighted(
                nominator,
                validator,
                new_weight,
            ).nominations);
        }
        Ok(())
    }

    /// Registers `who` as a validator that has bonded `self_bonded` to
    /// itself.
    ///
    /// Rejected, with the ledger untouched, exactly when `who` is a
    /// validator already.
    pub fn register(&mut self, who: AccountId, self_bonded: Balance) -> (result: Result<(), Error>)
        requires
            old(self).wf(),
        ensures
            final(self).wf(),
            match old(self)@.register(who, self_bonded) {
                Ok(state) => result is Ok && final(self)@ == state,
                Err(e) => result == Err::<(), Error>(e) && final(self)@ == old(self)@,
            },
    {
        proof {
            lemma_position(keys_of(self@.validators, validator_key()), who);
        }
        if self.find_validator(who).is_some() {
            return Err(Error::DuplicateValidator);
        }
        proof {
            lemma_with_validator(self@, who);
        }
        self.validators.push(
            ValidatorEntry {
                who,
                ledger: ValidatorLedger {
                    total_nomination: 0,
                    last_total_vote_weight: 0,
                    last_total_vote_weight_update: 0,
                },
            },
        );
        let bonded = self.force_bond(who, who, self_bonded);
        assert(bonded is Ok);
        Ok(())
    }

    /// Registers the validators of the list, one after the other.
    ///
    /// The first validator that is registered already, be it from before or
    /// from earlier in the list, ends the run with an error. The validators
    /// before it stay registered, and none after it is.
    pub fn initialize_validators(&mut self, validators: &Vec<ValidatorInfo>) -> (result: Result<
        (),
        Error,
    >)
        requires
            old(self).wf(),
        ensures
            final(self).wf(),
            match old(self)@.register_all(validators@) {
                Ok(state) => result is Ok && final(self)@ == state,
                Err(e) => result == Err::<(), Error>(e),
            },
            final(self)@ == old(self)@.register_while_possible(validators@),
    {
        let mut i: usize = 0;
        while i < validators.len()
            invariant
                i <= validators.len(),
                self.wf(),
                old(self)@.register_all(validators@.take(i as int)) == Ok::<StakingState, Error>(
                    self@,
                ),
            decreases validators.len() - i,
        {
            proof {
                assert(validators@.take(i + 1).drop_last() =~= validators@.take(i as int));
                lemma_register_all_fails_on(old(self)@, validators@, i + 1);
            }
            match self.register(validators[i].who, validators[i].self_bonded) {
                Ok(()) => {},
                Err(e) => {
                    proof {
                        assert(validators@.take(i + 1).last() == validators@[i as int]);
                        lemma_register_while_possible(old(self)@, validators@.take(i as int));
                        lemma_register_stops_at_failure(old(self)@, validators@, i + 1);
                    }
                    return Err(e);
                },
            }
            proof {
                assert(validators@.take(i + 1).last() == validators@[i as int]);
            }
            i += 1;
        }
        proof {
            assert(validators@.take(i as int) =~= validators@);
            lemma_register_while_possible(old(self)@, validators@);
        }
        Ok(())
    }

    /// The sum of the vote weights that the nominators of `validator` show
    /// in their records.
    pub fn nominators_vote_weight(&self, validator: AccountId) -> (total: u128)
        requires
            self.wf(),
        ensures
            total == self@.vote_weight_to(validator),
    {
        let ghost terms = weights_to(self@.nominations, validator);
        let mut total: u128 = 0;
        let mut i: usize = 0;
        while i < self.nominations.len()
            invariant
                i <= self.nominations.len(),
                terms == weights_to(self@.nominations, validator),
                total == sum(terms.take(i as int)),
                total <= i * u64::MAX,
            decreases self.nominations.len() - i,
        {
            proof {
                lemma_sum_take_next(terms, i as int);
                assert(i * u64::MAX + u64::MAX <= u128::MAX) by (nonlinear_arith)
                    requires
                        0 <= i <= u64::MAX,
                ;
                assert((i + 1) * u64::MAX == i * u64::MAX + u64::MAX) by (nonlinear_arith);
            }
            if self.nominations[i].validator == validator {
                total = total + self.nominations[i].ledger.last_vote_weight as u128;
            }
            i += 1;
        }
        proof {
            assert(terms.take(i as int) =~= terms);
        }
        total
    }

    /// The sum of the bonds that the nominators of `validator` show in
    /// their records. For a registered validator this is its total
    /// nomination.
    pub fn nominators_nomination(&self, validator: AccountId) -> (total: Balance)
        requires
            self.wf(),
        ensures
            total == self@.bonded_to(validator),
            self@.validator(validator) matches Some(cached) ==> cached.total_nomination == total,
    {
        proof {
            lemma_position(keys_of(self@.validators, validator_key()), validator);
        }
        match self.validator_ledgers(validator) {
            Some(cached) => {
                proof {
                    lemma_total_nomination_is_sum(self@, validator);
                }
                cached.total_nomination
            },
            None => {
                proof {
                    lemma_nothing_bonded_to_stranger(self@, validator);
                }
                0
            },
        }
    }

    /// Whether the cached vote weight of `validator` is the sum of the vote
    /// weights of its nominators.
    ///
    /// Rejected exactly when `validator` is not registered.
    pub fn check_vote_weight(&self, validator: AccountId) -> (result: Result<bool, Error>)
        requires
            self.wf(),
        ensures
            result == match self@.validator(validator) {
                Some(cached) => Ok::<bool, Error>(
                    cached.last_total_vote_weight == self@.vote_weight_to(validator),
                ),
                None => Err::<bool, Error>(Error::UnknownValidator),
            },
    {
        match self.validator_ledgers(validator) {
            Some(cached) => {
                let derived = self.nominators_vote_weight(validator);
                Ok(cached.last_total_vote_weight as u128 == derived)
            },
            None => Err(Error::UnknownValidator),
        }
    }
}

/// Once registering a front part of the list has failed, registering more
/// of it fails in the same way.
pub proof fn lemma_register_all_fails_on(
    state: StakingState,
    validators: Seq<ValidatorInfo>,
    i: int,
)
    requires
        0 <= i <= validators.len(),
    ensures
        state.register_all(validators.take(i)) matches Err(e) ==> state.register_all(validators)
            == Err::<StakingState, Error>(e),
    decreases validators.len() - i,
{
    if i == validators.len() {
        assert(validators.take(i) =~= validators);
    } else {
        assert(validators.take(i + 1).drop_last() =~= validators.take(i));
        lemma_register_all_fails_on(state, validators, i + 1);
    }
}

/// Where registering the whole list succeeds, what it leaves behind is its
/// result.
pub proof fn lemma_register_while_possible(state: StakingState, validators: Seq<ValidatorInfo>)
    ensures
        state.register_all(validators) matches Ok(after) ==> state.register_while_possible(
            validators,
        ) == after,
    decreases validators.len(),
{
    if validators.len() > 0 {
        lemma_register_while_possible(state, validators.drop_last());
    }
}

/// Once registering a front part of the list has failed, nothing more is
/// registered.
pub proof fn lemma_register_stops_at_failure(
    state: StakingState,
    validators: Seq<ValidatorInfo>,
    i: int,
)
    requires
        0 <= i <= validators.len(),
    ensures
        state.register_all(validators.take(i)) is Err ==> state.register_while_possible(validators)
            == state.register_while_possible(validators.take(i)),
    decreases validators.len() - i,
{
    if i == validators.len() {
        assert(validators.take(i) =~= validators);
    } else {
        assert(validators.take(i + 1).drop_last() =~= validators.take(i));
        lemma_register_stops_at_failure(state, validators, i + 1);
    }
}

} // verus!
