//! Virtual mining for holding tokens.
//!
//! Holding a registered asset earns weight, block by block, in proportion to
//! the balance. Whenever a balance is about to change, the weight earned
//! under the old balance is settled first, for the account and for the asset
//! as a whole, and only then is the ledger changed. The two steps are one
//! operation here, so that neither can be done without the other.

use vstd::prelude::*;
use crate::primitives::{AccountId, Balance, BlockNumber, Error, Token, VoteWeight, NATIVE_TOKEN};
use crate::accrual::{lemma_settle_never_decreases, lemma_settle_same_block, settles_exactly};
use crate::assets::{balance_changed, balance_moved, lemma_balance_within_total, Assets};
use crate::consistency::{
    consistent_in,
    lemma_change_keeps_consistency,
    lemma_consistency_reads_balances,
    lemma_unheld_asset_is_consistent,
};
use crate::lookup::{position, lemma_position, lemma_position_unique};
use crate::store::{
    lemma_records_kept_transitive,
    lemma_with_profile,
    lemma_with_profile_keeps,
    lemma_with_record,
    lemma_with_record_keeps,
    forced_profile_in,
    profile_in,
    profile_tokens,
    profiles_kept,
    record_in,
    record_keys,
    records_kept,
    touch,
    touched_record,
    with_profile,
    with_record,
    DepositEntry,
    DepositVoteWeight,
    PseduIntentionVoteWeight,
    ProfileEntry,
};

verus! {

/// An asset's record together with the asset's outstanding total, ready to
/// be settled.
pub struct PseduIntentionProfs {
    pub token: Token,
    pub amount: Balance,
    pub staking: PseduIntentionVoteWeight,
}

/// An account's record together with the account's balance, ready to be
/// settled.
pub struct DepositRecord {
    pub depositor: AccountId,
    pub token: Token,
    pub amount: Balance,
    pub staking: DepositVoteWeight,
}

impl PseduIntentionProfs {
    /// The amount that earns weight: the asset's outstanding total.
    pub fn amount(&self) -> (amount: Balance)
        ensures
            amount == self.amount,
    {
        self.amount
    }

    /// The weight as of the last update.
    pub fn last_acum_weight(&self) -> (weight: VoteWeight)
        ensures
            weight == self.staking.last_total_deposit_weight,
    {
        self.staking.last_total_deposit_weight
    }

    /// The block of the last update.
    pub fn last_acum_weight_update(&self) -> (block: BlockNumber)
        ensures
            block == self.staking.last_total_deposit_weight_update,
    {
        self.staking.last_total_deposit_weight_update
    }

    /// Sets the weight and leaves everything else as it is.
    pub fn set_last_acum_weight(&mut self, latest_deposit_weight: VoteWeight)
        ensures
            *final(self) == (PseduIntentionProfs {
                staking: PseduIntentionVoteWeight {
                    last_total_deposit_weight: latest_deposit_weight,
                    ..old(self).staking
                },
                ..*old(self)
            }),
    {
        self.staking.last_total_deposit_weight = latest_deposit_weight;
    }

    /// Sets the block of the last update and leaves everything else as it
    /// is.
    pub fn set_last_acum_weight_update(&mut self, current_block: BlockNumber)
        ensures
            *final(self) == (PseduIntentionProfs {
                staking: PseduIntentionVoteWeight {
                    last_total_deposit_weight_update: current_block,
                    ..old(self).staking
                },
                ..*old(self)
            }),
    {
        self.staking.last_total_deposit_weight_update = current_block;
    }

    /// The reward pool.
    pub fn jackpot(&self) -> (pool: Balance)
        ensures
            pool == self.staking.jackpot,
    {
        self.staking.jackpot
    }

    /// Sets the reward pool and leaves everything else as it is.
    pub fn set_jackpot(&mut self, value: Balance)
        ensures
            *final(self) == (PseduIntentionProfs {
                staking: PseduIntentionVoteWeight { jackpot: value, ..old(self).staking },
                ..*old(self)
            }),
    {
        self.staking.jackpot = value;
    }

    /// Brings the record up to `now` for the total it was built with.
    pub fn settle(&mut self, now: BlockNumber) -> (result: Result<(), Error>)
        ensures
            final(self).token == old(self).token,
            final(self).amount == old(self).amount,
            match result {
                Ok(()) => {
                    &&& old(self).staking.last_total_deposit_weight_update <= now
                    &&& final(self).staking == old(self).staking.settled(old(self).amount, now)
                },
                Err(e) => {
                    &&& e == Error::ClockWentBackwards
                    &&& now < old(self).staking.last_total_deposit_weight_update
                    &&& final(self).staking == old(self).staking
                },
            },
    {
        let amount = self.amount;
        self.staking.settle(amount, now)
    }
}

impl DepositRecord {
    /// The amount that earns weight: the depositor's balance.
    pub fn amount(&self) -> (amount: Balance)
        ensures
            amount == self.amount,
    {
        self.amount
    }

    /// The weight as of the last update.
    pub fn last_acum_weight(&self) -> (weight: VoteWeight)
        ensures
            weight == self.staking.last_deposit_weight,
    {
        self.staking.last_deposit_weight
    }

    /// The block of the last update.
    pub fn last_acum_weight_update(&self) -> (block: BlockNumber)
        ensures
            block == self.staking.last_deposit_weight_update,
    {
        self.staking.last_deposit_weight_update
    }

    /// Sets the weight and leaves everything else as it is.
    pub fn set_last_acum_weight(&mut self, latest_deposit_weight: VoteWeight)
        ensures
            *final(self) == (DepositRecord {
                staking: DepositVoteWeight {
                    last_deposit_weight: latest_deposit_weight,
                    ..old(self).staking
                },
                ..*old(self)
            }),
    {
        self.staking.last_deposit_weight = latest_deposit_weight;
    }

    /// Sets the block of the last update and leaves everything else as it
    /// is.
    pub fn set_last_acum_weight_update(&mut self, current_block: BlockNumber)
        ensures
            *final(self) == (DepositRecord {
                staking: DepositVoteWeight {
                    last_deposit_weight_update: current_block,
                    ..old(self).staking
                },
                ..*old(self)
            }),
    {
        self.staking.last_deposit_weight_update = current_block;
    }

    /// Brings the record up to `now` for the balance it was built with.
    pub fn settle(&mut self, now: BlockNumber) -> (result: Result<(), Error>)
        ensures
            final(self).depositor == old(self).depositor,
            final(self).token == old(self).token,
            final(self).amount == old(self).amount,
            match result {
                Ok(()) => {
                    &&& old(self).staking.last_deposit_weight_update <= now
                    &&& final(self).staking == old(self).staking.settled(old(self).amount, now)
                },
                Err(e) => {
                    &&& e == Error::ClockWentBackwards
                    &&& now < old(self).staking.last_deposit_weight_update
                    &&& final(self).staking == old(self).staking
                },
            },
    {
        let amount = self.amount;
        self.staking.settle(amount, now)
    }
}

/// The weight store: the registered assets with their records, and the
/// records of their holders.
pub struct Module {
    profiles: Vec<ProfileEntry>,
    deposits: Vec<DepositEntry>,
}

impl Module {
    /// The registered assets with their records, in the order of
    /// registration.
    pub closed spec fn profiles(&self) -> Seq<ProfileEntry> {
        self.profiles@
    }

    /// The records of the holders, in the order of their creation.
    pub closed spec fn records(&self) -> Seq<DepositEntry> {
        self.deposits@
    }

    /// The store's invariant: no key occurs twice.
    pub open spec fn wf(&self) -> bool {
        &&& profile_tokens(self.profiles()).no_duplicates()
        &&& record_keys(self.records()).no_duplicates()
    }

    /// Whether `token` is registered as a staking target.
    pub open spec fn registered(&self, token: Token) -> bool {
        profile_tokens(self.profiles()).contains(token)
    }

    /// The record of `token`, if it is registered.
    pub open spec fn profile(&self, token: Token) -> Option<PseduIntentionVoteWeight> {
        profile_in(self.profiles(), token)
    }

    /// The record of `who` for `token`, if there is one.
    pub open spec fn record(&self, who: AccountId, token: Token) -> Option<DepositVoteWeight> {
        record_in(self.records(), who, token)
    }

    /// Both lists are those of `other`.
    pub open spec fn same_as(&self, other: Module) -> bool {
        self.records() == other.records() && self.profiles() == other.profiles()
    }

    /// Neither the record of `who` nor that of `token` was last updated
    /// after `now`.
    pub open spec fn clock_allows(&self, who: AccountId, token: Token, now: BlockNumber) -> bool {
        &&& self.record(who, token) matches Some(record) ==> record.last_deposit_weight_update
            <= now
        &&& self.profile(token) matches Some(profile) ==> profile.last_total_deposit_weight_update
            <= now
    }

    /// Settling the record of `who` and that of `token` at `now` reaches the
    /// ceiling on neither.
    pub open spec fn accrues_exactly(
        &self,
        assets: Assets,
        who: AccountId,
        token: Token,
        now: BlockNumber,
    ) -> bool {
        &&& self.record(who, token) matches Some(record) ==> settles_exactly(
            record.last_deposit_weight,
            record.last_deposit_weight_update,
            assets.balance(who, token),
            now,
        )
        &&& self.profile(token) matches Some(profile) ==> settles_exactly(
            profile.last_total_deposit_weight,
            profile.last_total_deposit_weight_update,
            assets.total(token) as Balance,
            now,
        )
    }

    /// The per-account records of `token` agree with the asset's record
    /// under the balances of `assets`.
    pub open spec fn consistent(&self, assets: Assets, token: Token) -> bool {
        match self.profile(token) {
            Some(profile) => consistent_in(self.records(), profile, assets@, token),
            None => false,
        }
    }

    /// This store is `before` after `who` was touched at `now` under the
    /// balances of `assets`: for a registered asset the account's record is
    /// settled, or created where there was none, and the asset's record is
    /// settled; for any other asset nothing has changed.
    pub open spec fn touched_from(
        &self,
        before: Module,
        assets: Assets,
        who: AccountId,
        token: Token,
        now: BlockNumber,
    ) -> bool {
        match before.profile(token) {
            Some(profile) => {
                &&& self.records() == touch(
                    before.records(),
                    who,
                    token,
                    assets.balance(who, token),
                    now,
                )
                &&& self.profiles() == with_profile(
                    before.profiles(),
                    token,
                    profile.settled(assets.total(token) as Balance, now),
                )
            },
            None => self.same_as(before),
        }
    }

    /// A store with no asset registered and no record.
    pub fn new() -> (store: Module)
        ensures
            store.wf(),
            store.profiles() == Seq::<ProfileEntry>::empty(),
            store.records() == Seq::<DepositEntry>::empty(),
    {
        let store = Module { profiles: Vec::new(), deposits: Vec::new() };
        proof {
            assert(profile_tokens(store.profiles()) =~= Seq::<Token>::empty());
            assert(record_keys(store.records()) =~= Seq::<(AccountId, Token)>::empty());
        }
        store
    }

    fn find_profile(&self, token: Token) -> (found: Option<usize>)
        requires
            self.wf(),
        ensures
            match found {
                Some(i) => i < self.profiles().len() && position(
                    profile_tokens(self.profiles()),
                    token,
                ) == Some(i as int),
                None => position(profile_tokens(self.profiles()), token) is None,
            },
    {
        let ghost keys = profile_tokens(self.profiles());
        let mut i: usize = 0;
        while i < self.profiles.len()
            invariant
                i <= self.profiles.len(),
                keys == profile_tokens(self.profiles()),
                keys.no_duplicates(),
                forall|j: int| 0 <= j < i ==> keys[j] != token,
            decreases self.profiles.len() - i,
        {
            if self.profiles[i].token == token {
                proof {
                    assert(keys[i as int] == token);
                    lemma_position_unique(keys, i as int, token);
                }
                return Some(i);
            }
            i += 1;
        }
        None
    }

    fn find_record(&self, who: AccountId, token: Token) -> (found: Option<usize>)
        requires
            self.wf(),
        ensures
            match found {
                Some(i) => i < self.records().len() && position(
                    record_keys(self.records()),
                    (who, token),
                ) == Some(i as int),
                None => position(record_keys(self.records()), (who, token)) is None,
            },
    {
        let ghost keys = record_keys(self.records());
        let mut i: usize = 0;
        while i < self.deposits.len()
            invariant
                i <= self.deposits.len(),
                keys == record_keys(self.records()),
                keys.no_duplicates(),
                forall|j: int| 0 <= j < i ==> keys[j] != (who, token),
            decreases self.deposits.len() - i,
        {
            if self.deposits[i].who == who && self.deposits[i].token == token {
                proof {
                    assert(keys[i as int] == (who, token));
                    lemma_position_unique(keys, i as int, (who, token));
                }
                return Some(i);
            }
            i += 1;
        }
        None
    }

    pub(crate) fn put_record(&mut self, who: AccountId, token: Token, weight: DepositVoteWeight)
        requires
            old(self).wf(),
        ensures
            final(self).wf(),
            final(self).records() == with_record(old(self).records(), who, token, weight),
            final(self).profiles() == old(self).profiles(),
    {
        proof {
            lemma_with_record(self.records(), who, token, weight);
        }
        match self.find_record(who, token) {
            Some(i) => {
                self.deposits.set(i, DepositEntry { who, token, weight });
            },
            None => {
                self.deposits.push(DepositEntry { who, token, weight });
            },
        }
    }

    pub(crate) fn put_profile(&mut self, token: Token, profile: PseduIntentionVoteWeight)
        requires
            old(self).wf(),
        ensures
            final(self).wf(),
            final(self).profiles() == with_profile(old(self).profiles(), token, profile),
            final(self).records() == old(self).records(),
    {
        proof {
            lemma_with_profile(self.profiles(), token, profile);
        }
        match self.find_profile(token) {
            Some(i) => {
                self.profiles.set(i, ProfileEntry { token, profile });
            },
            None => {
                self.profiles.push(ProfileEntry { token, profile });
            },
        }
    }

    pub(crate) fn profile_count(&self) -> (count: usize)
        ensures
            count == self.profiles().len(),
    {
        self.profiles.len()
    }

    pub(crate) fn profile_at(&self, i: usize) -> (entry: ProfileEntry)
        requires
            i < self.profiles().len(),
        ensures
            entry == self.profiles()[i as int],
    {
        self.profiles[i]
    }

    pub(crate) fn record_count(&self) -> (count: usize)
        ensures
            count == self.records().len(),
    {
        self.deposits.len()
    }

    pub(crate) fn record_at(&self, i: usize) -> (entry: DepositEntry)
        requires
            i < self.records().len(),
        ensures
            entry == self.records()[i as int],
    {
        self.deposits[i]
    }

    /// The registered assets, in the order of registration.
    pub fn psedu_intentions(&self) -> (tokens: Vec<Token>)
        ensures
            tokens@ == profile_tokens(self.profiles()),
    {
        let mut tokens: Vec<Token> = Vec::new();
        let mut i: usize = 0;
        while i < self.profiles.len()
            invariant
                i <= self.profiles.len(),
                tokens@ == profile_tokens(self.profiles()).take(i as int),
            decreases self.profiles.len() - i,
        {
            tokens.push(self.profiles[i].token);
            proof {
                assert(tokens@ =~= profile_tokens(self.profiles()).take(i + 1));
            }
            i += 1;
        }
        proof {
            assert(tokens@ =~= profile_tokens(self.profiles()));
        }
        tokens
    }

    /// The record of `token`, if it is registered.
    pub fn psedu_intention_profiles(&self, token: Token) -> (profile: Option<
        PseduIntentionVoteWeight,
    >)
        requires
            self.wf(),
        ensures
            profile == self.profile(token),
            profile is Some <==> self.registered(token),
    {
        proof {
            lemma_position(profile_tokens(self.profiles()), token);
        }
        match self.find_profile(token) {
            Some(i) => Some(self.profiles[i].profile),
            None => None,
        }
    }

    /// The record of `who` for `token`, if there is one.
    pub fn deposit_records(&self, who: AccountId, token: Token) -> (record: Option<
        DepositVoteWeight,
    >)
        requires
            self.wf(),
        ensures
            record == self.record(who, token),
    {
        match self.find_record(who, token) {
            Some(i) => Some(self.deposits[i].weight),
            None => None,
        }
    }

    /// Registers `token` as a staking target, with an empty pool and no
    /// weight, at the end of the list.
    ///
    /// Rejected, with the store untouched, exactly for an asset that is
    /// already registered. An asset of which nothing is outstanding starts
    /// out in agreement with its (absent) holders.
    pub fn register_psedu_intention(&mut self, token: Token) -> (result: Result<(), Error>)
        requires
            old(self).wf(),
        ensures
            final(self).wf(),
            final(self).records() == old(self).records(),
            match result {
                Ok(()) => {
                    &&& !old(self).registered(token)
                    &&& final(self).profiles() == old(self).profiles().push(
                        ProfileEntry {
                            token,
                            profile: PseduIntentionVoteWeight {
                                jackpot: 0,
                                last_total_deposit_weight: 0,
                                last_total_deposit_weight_update: 0,
                            },
                        },
                    )
                },
                Err(e) => {
                    &&& e == Error::AlreadyRegistered
                    &&& old(self).registered(token)
                    &&& final(self).profiles() == old(self).profiles()
                },
            },
    {
        proof {
            lemma_position(profile_tokens(self.profiles()), token);
        }
        if self.find_profile(token).is_some() {
            return Err(Error::AlreadyRegistered);
        }
        self.put_profile(token, PseduIntentionVoteWeight::default());
        Ok(())
    }

    /// An asset that is registered while nothing of it is outstanding, and
    /// for which no record was made beforehand, starts out in agreement.
    pub proof fn lemma_registration_is_consistent(
        before: Module,
        after: Module,
        assets: Assets,
        token: Token,
    )
        requires
            after.records() == before.records(),
            after.profiles() == before.profiles().push(
                ProfileEntry {
                    token,
                    profile: PseduIntentionVoteWeight {
                        jackpot: 0,
                        last_total_deposit_weight: 0,
                        last_total_deposit_weight_update: 0,
                    },
                },
            ),
            before.wf(),
            !before.registered(token),
            assets.total(token) == 0,
            forall|i: int|
                0 <= i < before.records().len() ==> (#[trigger] before.records()[i]).token
                    != token,
        ensures
            after.consistent(assets, token),
    {
        let keys = profile_tokens(before.profiles());
        assert(profile_tokens(after.profiles()) =~= keys.push(token));
        crate::lookup::lemma_position_push(keys, token, token);
        lemma_unheld_asset_is_consistent(after.records(), assets@, token, 0, 0);
    }

    /// Settles the weight of `source` and of the asset at `now`, then
    /// changes the balance of `source` by `value`, up or down.
    fn update_vote_weight(
        &mut self,
        assets: &mut Assets,
        source: AccountId,
        target: Token,
        value: Balance,
        to_add: bool,
        now: BlockNumber,
    )
        requires
            old(self).wf(),
            old(assets).wf(),
            old(self).registered(target),
            old(self).clock_allows(source, target, now),
            to_add ==> old(assets).total(target) + value <= u128::MAX,
            !to_add ==> old(assets).balance(source, target) >= value,
        ensures
            final(self).wf(),
            final(assets).wf(),
            final(self).touched_from(*old(self), *old(assets), source, target, now),
            balance_changed(
                old(assets)@,
                final(assets)@,
                source,
                target,
                if to_add {
                    value as int
                } else {
                    -(value as int)
                },
            ),
            records_kept(old(self).records(), final(self).records()),
            profiles_kept(old(self).profiles(), final(self).profiles()),
            old(self).consistent(*old(assets), target) && old(self).accrues_exactly(
                *old(assets),
                source,
                target,
                now,
            ) ==> final(self).consistent(*final(assets), target),
    {
        let held = assets.all_type_balance_of(source, target);
        let outstanding = assets.all_type_balance(target);
        let p_vote_weight = match self.psedu_intention_profiles(target) {
            Some(profile) => profile,
            None => PseduIntentionVoteWeight::default(),
        };
        let d_vote_weight = match self.deposit_records(source, target) {
            Some(record) => record,
            None => DepositVoteWeight { last_deposit_weight: 0, last_deposit_weight_update: now },
        };
        let mut prof = PseduIntentionProfs {
            token: target,
            amount: outstanding,
            staking: p_vote_weight,
        };
        let mut record = DepositRecord {
            depositor: source,
            token: target,
            amount: held,
            staking: d_vote_weight,
        };
        let settled_prof = prof.settle(now);
        let settled_record = record.settle(now);
        proof {
            assert(settled_prof is Ok && settled_record is Ok);
            lemma_position(profile_tokens(self.profiles()), target);
            lemma_settle_same_block(0, now, held);
            lemma_settle_never_decreases(
                d_vote_weight.last_deposit_weight,
                d_vote_weight.last_deposit_weight_update,
                held,
                now,
            );
            lemma_settle_never_decreases(
                p_vote_weight.last_total_deposit_weight,
                p_vote_weight.last_total_deposit_weight_update,
                outstanding,
                now,
            );
            assert(record.staking == touched_record(self.records(), source, target, held, now));
            lemma_with_record_keeps(self.records(), source, target, record.staking);
            lemma_with_profile_keeps(self.profiles(), target, prof.staking);
        }
        self.put_profile(target, prof.staking);
        self.put_record(source, target, record.staking);
        let changed = if to_add {
            assets.issue(target, source, value)
        } else {
            assets.destroy(target, source, value)
        };
        proof {
            assert(changed is Ok);
            lemma_with_profile(old(self).profiles(), target, prof.staking);
            if old(self).consistent(*old(assets), target) && old(self).accrues_exactly(
                *old(assets),
                source,
                target,
                now,
            ) {
                lemma_change_keeps_consistency(
                    old(self).records(),
                    p_vote_weight,
                    old(assets)@,
                    assets@,
                    source,
                    target,
                    now,
                    if to_add {
                        value as int
                    } else {
                        -(value as int)
                    },
                );
            }
        }
    }

    /// What `on_issue` answers in a given state.
    pub open spec fn issue_outcome(
        &self,
        assets: Assets,
        target: Token,
        source: AccountId,
        value: Balance,
        now: BlockNumber,
    ) -> Result<(), Error> {
        if self.registered(target) && !self.clock_allows(source, target, now) {
            Err(Error::ClockWentBackwards)
        } else if assets.total(target) + value > u128::MAX {
            Err(Error::Overflow)
        } else {
            Ok(())
        }
    }

    /// `value` units of `target` come into being in the hands of `source`.
    ///
    /// For a registered asset the weights of the account and of the asset
    /// are settled at `now` under the old balances before the ledger is
    /// changed; an account that had no record gets one that starts at `now`
    /// with no weight. For any other asset only the ledger changes. A
    /// rejected call changes nothing.
    pub fn on_issue(
        &mut self,
        assets: &mut Assets,
        target: Token,
        source: AccountId,
        value: Balance,
        now: BlockNumber,
    ) -> (result: Result<(), Error>)
        requires
            old(self).wf(),
            old(assets).wf(),
        ensures
            final(self).wf(),
            final(assets).wf(),
            result == old(self).issue_outcome(*old(assets), target, source, value, now),
            match result {
                Ok(()) => {
                    &&& final(self).touched_from(*old(self), *old(assets), source, target, now)
                    &&& balance_changed(
                        old(assets)@,
                        final(assets)@,
                        source,
                        target,
                        value as int,
                    )
                },
                Err(_) => final(self).same_as(*old(self)) && final(assets)@ == old(assets)@,
            },
            records_kept(old(self).records(), final(self).records()),
            profiles_kept(old(self).profiles(), final(self).profiles()),
            old(self).consistent(*old(assets), target) && old(self).accrues_exactly(
                *old(assets),
                source,
                target,
                now,
            ) ==> final(self).consistent(*final(assets), target),
    {
        proof {
            lemma_position(profile_tokens(self.profiles()), target);
        }
        if self.find_profile(target).is_none() {
            return match assets.issue(target, source, value) {
                Ok(()) => Ok(()),
                Err(e) => Err(e),
            };
        }
        if !self.clock_permits(source, target, now) {
            return Err(Error::ClockWentBackwards);
        }
        if assets.all_type_balance(target) > u128::MAX - value {
            return Err(Error::Overflow);
        }
        self.update_vote_weight(assets, source, target, value, true, now);
        Ok(())
    }

    /// What `on_destroy` answers in a given state.
    pub open spec fn destroy_outcome(
        &self,
        assets: Assets,
        target: Token,
        source: AccountId,
        value: Balance,
        now: BlockNumber,
    ) -> Result<(), Error> {
        if self.registered(target) && !self.clock_allows(source, target, now) {
            Err(Error::ClockWentBackwards)
        } else if assets.balance(source, target) < value {
            Err(Error::InsufficientBalance)
        } else {
            Ok(())
        }
    }

    /// `value` units of `target` cease to be in the hands of `source`.
    ///
    /// For a registered asset the weights of the account and of the asset
    /// are settled at `now` under the old balances before the ledger is
    /// changed. For any other asset only the ledger changes. A rejected
    /// call changes nothing.
    pub fn on_destroy(
        &mut self,
        assets: &mut Assets,
        target: Token,
        source: AccountId,
        value: Balance,
        now: BlockNumber,
    ) -> (result: Result<(), Error>)
        requires
            old(self).wf(),
            old(assets).wf(),
        ensures
            final(self).wf(),
            final(assets).wf(),
            result == old(self).destroy_outcome(*old(assets), target, source, value, now),
            match result {
                Ok(()) => {
                    &&& final(self).touched_from(*old(self), *old(assets), source, target, now)
                    &&& balance_changed(
                        old(assets)@,
                        final(assets)@,
                        source,
                        target,
                        -(value as int),
                    )
                },
                Err(_) => final(self).same_as(*old(self)) && final(assets)@ == old(assets)@,
            },
            records_kept(old(self).records(), final(self).records()),
            profiles_kept(old(self).profiles(), final(self).profiles()),
            old(self).consistent(*old(assets), target) && old(self).accrues_exactly(
                *old(assets),
                source,
                target,
                now,
            ) ==> final(self).consistent(*final(assets), target),
    {
        proof {
            lemma_position(profile_tokens(self.profiles()), target);
        }
        if self.find_profile(target).is_none() {
            return match assets.destroy(target, source, value) {
                Ok(()) => Ok(()),
                Err(e) => Err(e),
            };
        }
        if !self.clock_permits(source, target, now) {
            return Err(Error::ClockWentBackwards);
        }
        if assets.all_type_balance_of(source, target) < value {
            return Err(Error::InsufficientBalance);
        }
        self.update_vote_weight(assets, source, target, value, false, now);
        Ok(())
    }

    /// Whether a move of `token` from `from` to `to` settles any weight: the
    /// asset is registered, it is not the chain's own, and the two accounts
    /// differ.
    pub open spec fn settles_move(&self, token: Token, from: AccountId, to: AccountId) -> bool {
        token != NATIVE_TOKEN && from != to && self.registered(token)
    }

    /// What `on_move` answers in a given state.
    pub open spec fn move_outcome(
        &self,
        assets: Assets,
        token: Token,
        from: AccountId,
        to: AccountId,
        value: Balance,
        now: BlockNumber,
    ) -> Result<(), Error> {
        if self.settles_move(token, from, to) && !(self.clock_allows(from, token, now)
            && self.clock_allows(to, token, now)) {
            Err(Error::ClockWentBackwards)
        } else if assets.balance(from, token) < value {
            Err(Error::InsufficientBalance)
        } else {
            Ok(())
        }
    }

    /// This store is `before` after a move between two accounts at `now`:
    /// the giver was touched first, then the receiver, each under the
    /// balance it had before the move. A move within one account, of the
    /// chain's own asset, or of an asset that is not registered, leaves the
    /// store as it was.
    pub open spec fn moved_from(
        &self,
        before: Module,
        assets: Assets,
        token: Token,
        from: AccountId,
        to: AccountId,
        now: BlockNumber,
    ) -> bool {
        match before.profile(token) {
            Some(profile) if token != NATIVE_TOKEN && from != to => {
                &&& self.records() == touch(
                    touch(before.records(), from, token, assets.balance(from, token), now),
                    to,
                    token,
                    assets.balance(to, token),
                    now,
                )
                &&& self.profiles() == with_profile(
                    before.profiles(),
                    token,
                    profile.settled(assets.total(token) as Balance, now),
                )
            },
            _ => self.same_as(before),
        }
    }

    /// `value` units of `token` pass from `from` to `to`.
    ///
    /// For a registered asset and two different accounts, the weights of
    /// both accounts and of the asset are settled at `now` under the old
    /// balances before the ledger is changed. A move of the chain's own
    /// asset and a move within one account settle nothing, whether the
    /// asset is registered or not: only the ledger changes. A rejected call
    /// changes nothing.
    ///
    /// Where the chain's own asset is registered, a move of it between two
    /// accounts therefore takes the two views of its weight apart.
    pub fn on_move(
        &mut self,
        assets: &mut Assets,
        token: Token,
        from: AccountId,
        to: AccountId,
        value: Balance,
        now: BlockNumber,
    ) -> (result: Result<(), Error>)
        requires
            old(self).wf(),
            old(assets).wf(),
        ensures
            final(self).wf(),
            final(assets).wf(),
            result == old(self).move_outcome(*old(assets), token, from, to, value, now),
            match result {
                Ok(()) => {
                    &&& final(self).moved_from(*old(self), *old(assets), token, from, to, now)
                    &&& balance_moved(old(assets)@, final(assets)@, token, from, to, value)
                },
                Err(_) => final(self).same_as(*old(self)) && final(assets)@ == old(assets)@,
            },
            records_kept(old(self).records(), final(self).records()),
            profiles_kept(old(self).profiles(), final(self).profiles()),
            ({
                &&& token != NATIVE_TOKEN || from == to
                &&& old(self).consistent(*old(assets), token)
                &&& old(self).accrues_exactly(*old(assets), from, token, now)
                &&& old(self).accrues_exactly(*old(assets), to, token, now)
            }) ==> final(self).consistent(*final(assets), token),
    {
        proof {
            lemma_position(profile_tokens(self.profiles()), token);
        }
        // The chain's own asset and a move within one account are left out.
        if token == NATIVE_TOKEN || from == to || self.find_profile(token).is_none() {
            let moved = assets.move_balance(token, from, to, value);
            proof {
                if from == to && old(self).consistent(*old(assets), token) {
                    lemma_consistency_reads_balances(
                        self.records(),
                        self.profile(token).unwrap(),
                        old(assets)@,
                        assets@,
                        token,
                    );
                }
            }
            return match moved {
                Ok(()) => Ok(()),
                Err(e) => Err(e),
            };
        }
        if !self.clock_permits(from, token, now) || !self.clock_permits(to, token, now) {
            return Err(Error::ClockWentBackwards);
        }
        if assets.all_type_balance_of(from, token) < value {
            return Err(Error::InsufficientBalance);
        }
        let ghost outstanding = assets.total(token) as Balance;
        let ghost profile = self.profile(token).unwrap();
        proof {
            lemma_balance_within_total(assets@, from, token);
        }
        self.update_vote_weight(assets, from, token, value, false, now);
        let ghost halfway = *self;
        let ghost halfway_assets = *assets;
        proof {
            lemma_with_record(
                old(self).records(),
                from,
                token,
                touched_record(
                    old(self).records(),
                    from,
                    token,
                    old(assets).balance(from, token),
                    now,
                ),
            );
            lemma_with_profile(old(self).profiles(), token, profile.settled(outstanding, now));
            lemma_settle_same_block(
                profile.settled(outstanding, now).last_total_deposit_weight,
                now,
                halfway_assets.total(token) as Balance,
            );
            lemma_balance_within_total(halfway_assets@, to, token);
        }
        self.update_vote_weight(assets, to, token, value, true, now);
        proof {
            lemma_records_kept_transitive(
                old(self).records(),
                halfway.records(),
                self.records(),
            );
            lemma_position(profile_tokens(halfway.profiles()), token);
            assert(self.profiles() =~= halfway.profiles());
        }
        Ok(())
    }

    /// Whether neither the record of `who` nor that of `token` was last
    /// updated after `now`.
    pub fn clock_permits(&self, who: AccountId, token: Token, now: BlockNumber) -> (permitted: bool)
        requires
            self.wf(),
        ensures
            permitted == self.clock_allows(who, token, now),
    {
        let record_ok = match self.deposit_records(who, token) {
            Some(record) => record.last_deposit_weight_update <= now,
            None => true,
        };
        let profile_ok = match self.psedu_intention_profiles(token) {
            Some(profile) => profile.last_total_deposit_weight_update <= now,
            None => true,
        };
        record_ok && profile_ok
    }

    /// Sets the weight of `who` for `token` to `weight`, as of `now`,
    /// whatever the record showed. No weight is accrued on the way.
    pub fn force_set_miner_mining_weight(
        &mut self,
        who: AccountId,
        token: Token,
        weight: VoteWeight,
        now: BlockNumber,
    )
        requires
            old(self).wf(),
        ensures
            final(self).wf(),
            final(self).profiles() == old(self).profiles(),
            final(self).records() == with_record(
                old(self).records(),
                who,
                token,
                DepositVoteWeight { last_deposit_weight: weight, last_deposit_weight_update: now },
            ),
            final(self).record(who, token) == Some(
                DepositVoteWeight { last_deposit_weight: weight, last_deposit_weight_update: now },
            ),
    {
        let record = DepositVoteWeight {
            last_deposit_weight: weight,
            last_deposit_weight_update: now,
        };
        proof {
            lemma_with_record(self.records(), who, token, record);
        }
        self.put_record(who, token, record);
    }

    /// Sets the weight of `token` to `weight`, as of `now`, whatever the
    /// record showed. The pool stays as it is. An asset that was not
    /// registered is registered by this, with an empty pool.
    pub fn force_set_asset_mining_weight(
        &mut self,
        token: Token,
        weight: VoteWeight,
        now: BlockNumber,
    )
        requires
            old(self).wf(),
        ensures
            final(self).wf(),
            final(self).records() == old(self).records(),
            final(self).profiles() == with_profile(
                old(self).profiles(),
                token,
                forced_profile_in(old(self).profiles(), token, weight, now),
            ),
            final(self).profile(token) == Some(
                forced_profile_in(old(self).profiles(), token, weight, now),
            ),
    {
        let jackpot = match self.psedu_intention_profiles(token) {
            Some(profile) => profile.jackpot,
            None => 0,
        };
        let profile = PseduIntentionVoteWeight {
            jackpot,
            last_total_deposit_weight: weight,
            last_total_deposit_weight_update: now,
        };
        proof {
            lemma_with_profile(self.profiles(), token, profile);
        }
        self.put_profile(token, profile);
    }
}

} // verus!
