//! The weight records: one per asset, one per account and asset.
//!
//! An asset's record holds the weight that all its holders together have
//! accrued, and its reward pool. An account's record holds the weight that
//! this account has accrued by holding the asset. Both are kept in lists in
//! which no key occurs twice; records are created and updated, never
//! removed.

use vstd::prelude::*;
use crate::primitives::{AccountId, Balance, BlockNumber, Error, Token, VoteWeight};
use crate::accrual::{
    latest_acum_weight,
    lemma_settle_idempotent,
    lemma_settle_same_block,
    settled_weight,
};
use crate::lookup::{position, lemma_position, lemma_position_push};

verus! {

/// An asset's record: the reward pool and the weight of all holders
/// together, as of the last update.
#[derive(Clone, Copy, Debug, PartialEq, Eq, Structural)]
pub struct PseduIntentionVoteWeight {
    pub jackpot: Balance,
    pub last_total_deposit_weight: VoteWeight,
    pub last_total_deposit_weight_update: BlockNumber,
}

/// An account's record for one asset: its weight as of the last update.
#[derive(Clone, Copy, Debug, PartialEq, Eq, Structural)]
pub struct DepositVoteWeight {
    pub last_deposit_weight: VoteWeight,
    pub last_deposit_weight_update: BlockNumber,
}

impl Default for PseduIntentionVoteWeight {
    fn default() -> (record: Self)
        ensures
            record == (PseduIntentionVoteWeight {
                jackpot: 0,
                last_total_deposit_weight: 0,
                last_total_deposit_weight_update: 0,
            }),
    {
        PseduIntentionVoteWeight {
            jackpot: 0,
            last_total_deposit_weight: 0,
            last_total_deposit_weight_update: 0,
        }
    }
}

impl Default for DepositVoteWeight {
    fn default() -> (record: Self)
        ensures
            record == (DepositVoteWeight { last_deposit_weight: 0, last_deposit_weight_update: 0 }),
    {
        DepositVoteWeight { last_deposit_weight: 0, last_deposit_weight_update: 0 }
    }
}

impl DepositVoteWeight {
    /// The record of an account that starts to hold the asset at `now`.
    pub open spec fn fresh(now: BlockNumber) -> DepositVoteWeight {
        DepositVoteWeight { last_deposit_weight: 0, last_deposit_weight_update: now }
    }

    /// The record brought up to `now`, for `held` units held since the last
    /// update.
    pub open spec fn settled(self, held: Balance, now: BlockNumber) -> DepositVoteWeight {
        DepositVoteWeight {
            last_deposit_weight: settled_weight(
                self.last_deposit_weight,
                self.last_deposit_weight_update,
                held,
                now,
            ),
            last_deposit_weight_update: now,
        }
    }

    /// Brings the record up to `now`. `held` is the amount that was held
    /// since the last update, before any change that is about to be made.
    ///
    /// A block before the last update is rejected and the record stays as
    /// it is.
    pub fn settle(&mut self, held: Balance, now: BlockNumber) -> (result: Result<(), Error>)
        ensures
            match result {
                Ok(()) => {
                    &&& old(self).last_deposit_weight_update <= now
                    &&& *final(self) == old(self).settled(held, now)
                },
                Err(e) => {
                    &&& e == Error::ClockWentBackwards
                    &&& now < old(self).last_deposit_weight_update
                    &&& *final(self) == *old(self)
                },
            },
    {
        match latest_acum_weight(
            self.last_deposit_weight,
            self.last_deposit_weight_update,
            held,
            now,
        ) {
            Ok(latest) => {
                self.last_deposit_weight = latest;
                self.last_deposit_weight_update = now;
                Ok(())
            },
            Err(e) => Err(e),
        }
    }
}

impl PseduIntentionVoteWeight {
    /// The record brought up to `now`, for `outstanding` units in
    /// circulation since the last update. The pool is not touched.
    pub open spec fn settled(
        self,
        outstanding: Balance,
        now: BlockNumber,
    ) -> PseduIntentionVoteWeight {
        PseduIntentionVoteWeight {
            jackpot: self.jackpot,
            last_total_deposit_weight: settled_weight(
                self.last_total_deposit_weight,
                self.last_total_deposit_weight_update,
                outstanding,
                now,
            ),
            last_total_deposit_weight_update: now,
        }
    }

    /// Brings the record up to `now`. `outstanding` is the asset's total
    /// since the last update, before any change that is about to be made.
    ///
    /// A block before the last update is rejected and the record stays as
    /// it is.
    pub fn settle(&mut self, outstanding: Balance, now: BlockNumber) -> (result: Result<(), Error>)
        ensures
            match result {
                Ok(()) => old(self).last_total_deposit_weight_update <= now && *final(self)
                    == old(self).settled(outstanding, now),
                Err(e) => {
                    &&& e == Error::ClockWentBackwards
                    &&& now < old(self).last_total_deposit_weight_update
                    &&& *final(self) == *old(self)
                },
            },
    {
        match latest_acum_weight(
            self.last_total_deposit_weight,
            self.last_total_deposit_weight_update,
            outstanding,
            now,
        ) {
            Ok(latest) => {
                self.last_total_deposit_weight = latest;
                self.last_total_deposit_weight_update = now;
                Ok(())
            },
            Err(e) => Err(e),
        }
    }
}

/// Settling an account's record twice at the same block changes nothing the
/// second time, whatever is held by then.
pub proof fn lemma_deposit_settle_idempotent(
    record: DepositVoteWeight,
    held: Balance,
    held_later: Balance,
    now: BlockNumber,
)
    requires
        record.last_deposit_weight_update <= now,
    ensures
        record.settled(held, now).settled(held_later, now) == record.settled(held, now),
{
    lemma_settle_idempotent(
        record.last_deposit_weight,
        record.last_deposit_weight_update,
        held,
        held_later,
        now,
    );
}

/// Settling an asset's record twice at the same block changes nothing the
/// second time, whatever is outstanding by then.
pub proof fn lemma_profile_settle_idempotent(
    record: PseduIntentionVoteWeight,
    outstanding: Balance,
    outstanding_later: Balance,
    now: BlockNumber,
)
    requires
        record.last_total_deposit_weight_update <= now,
    ensures
        record.settled(outstanding, now).settled(outstanding_later, now) == record.settled(
            outstanding,
            now,
        ),
{
    lemma_settle_idempotent(
        record.last_total_deposit_weight,
        record.last_total_deposit_weight_update,
        outstanding,
        outstanding_later,
        now,
    );
}

/// An account's record in the list, under its key.
#[derive(Clone, Copy, Debug, PartialEq, Eq, Structural)]
pub struct DepositEntry {
    pub who: AccountId,
    pub token: Token,
    pub weight: DepositVoteWeight,
}

/// An asset's record in the list, under its key.
#[derive(Clone, Copy, Debug, PartialEq, Eq, Structural)]
pub struct ProfileEntry {
    pub token: Token,
    pub profile: PseduIntentionVoteWeight,
}

/// The account and asset of each account record, in the order of the list.
pub open spec fn record_keys(records: Seq<DepositEntry>) -> Seq<(AccountId, Token)> {
    Seq::new(records.len(), |i: int| (records[i].who, records[i].token))
}

/// The asset of each asset record, in the order of the list.
pub open spec fn profile_tokens(profiles: Seq<ProfileEntry>) -> Seq<Token> {
    Seq::new(profiles.len(), |i: int| profiles[i].token)
}

/// The record of `who` for `token`, if there is one.
pub open spec fn record_in(records: Seq<DepositEntry>, who: AccountId, token: Token) -> Option<
    DepositVoteWeight,
> {
    match position(record_keys(records), (who, token)) {
        Some(i) => Some(records[i].weight),
        None => None,
    }
}

/// The record of `token`, if there is one.
pub open spec fn profile_in(profiles: Seq<ProfileEntry>, token: Token) -> Option<
    PseduIntentionVoteWeight,
> {
    match position(profile_tokens(profiles), token) {
        Some(i) => Some(profiles[i].profile),
        None => None,
    }
}

/// The list with the record of `who` for `token` set to `weight`: replaced
/// in its place where there is one, appended where there is none.
pub open spec fn with_record(
    records: Seq<DepositEntry>,
    who: AccountId,
    token: Token,
    weight: DepositVoteWeight,
) -> Seq<DepositEntry> {
    match position(record_keys(records), (who, token)) {
        Some(i) => records.update(i, DepositEntry { who, token, weight }),
        None => records.push(DepositEntry { who, token, weight }),
    }
}

/// The list with the record of `token` set to `profile`: replaced in its
/// place where there is one, appended where there is none.
pub open spec fn with_profile(
    profiles: Seq<ProfileEntry>,
    token: Token,
    profile: PseduIntentionVoteWeight,
) -> Seq<ProfileEntry> {
    match position(profile_tokens(profiles), token) {
        Some(i) => profiles.update(i, ProfileEntry { token, profile }),
        None => profiles.push(ProfileEntry { token, profile }),
    }
}

/// The record of `token` with its weight set to `weight` as of `now`. The
/// pool stays as it is; an asset without a record starts with an empty one.
pub open spec fn forced_profile_in(
    profiles: Seq<ProfileEntry>,
    token: Token,
    weight: VoteWeight,
    now: BlockNumber,
) -> PseduIntentionVoteWeight {
    PseduIntentionVoteWeight {
        jackpot: match profile_in(profiles, token) {
            Some(profile) => profile.jackpot,
            None => 0,
        },
        last_total_deposit_weight: weight,
        last_total_deposit_weight_update: now,
    }
}

/// What the record of `who` for `token` becomes when the account is touched
/// at `now` while holding `held`: the settled record, or a fresh one where
/// the account had none.
pub open spec fn touched_record(
    records: Seq<DepositEntry>,
    who: AccountId,
    token: Token,
    held: Balance,
    now: BlockNumber,
) -> DepositVoteWeight {
    match record_in(records, who, token) {
        Some(record) => record.settled(held, now),
        None => DepositVoteWeight::fresh(now),
    }
}

/// The list after `who` was touched at `now`.
pub open spec fn touch(
    records: Seq<DepositEntry>,
    who: AccountId,
    token: Token,
    held: Balance,
    now: BlockNumber,
) -> Seq<DepositEntry> {
    with_record(records, who, token, touched_record(records, who, token, held, now))
}

/// Touching an account twice at one block changes nothing the second time,
/// whatever the account holds by then.
pub proof fn lemma_touch_idempotent(
    records: Seq<DepositEntry>,
    who: AccountId,
    token: Token,
    held: Balance,
    held_later: Balance,
    now: BlockNumber,
)
    requires
        record_keys(records).no_duplicates(),
        record_in(records, who, token) matches Some(record) ==> record.last_deposit_weight_update
            <= now,
    ensures
        touch(touch(records, who, token, held, now), who, token, held_later, now) == touch(
            records,
            who,
            token,
            held,
            now,
        ),
{
    let first = touched_record(records, who, token, held, now);
    let once = touch(records, who, token, held, now);
    lemma_with_record(records, who, token, first);
    assert(record_in(once, who, token) == Some(first));
    lemma_settle_same_block(first.last_deposit_weight, now, held_later);
    assert(touched_record(once, who, token, held_later, now) == first);
    lemma_position(record_keys(once), (who, token));
    assert(touch(once, who, token, held_later, now) =~= once);
}

/// Every record of the first list is still in its place in the second,
/// under the same key and with no less weight.
pub open spec fn records_kept(before: Seq<DepositEntry>, after: Seq<DepositEntry>) -> bool {
    &&& before.len() <= after.len()
    &&& forall|i: int|
        0 <= i < before.len() ==> {
            &&& (#[trigger] after[i]).who == before[i].who
            &&& after[i].token == before[i].token
            &&& after[i].weight.last_deposit_weight >= before[i].weight.last_deposit_weight
        }
}

/// Every asset record of the first list is still in its place in the
/// second, under the same key and with no less weight.
pub open spec fn profiles_kept(before: Seq<ProfileEntry>, after: Seq<ProfileEntry>) -> bool {
    &&& before.len() <= after.len()
    &&& forall|i: int|
        0 <= i < before.len() ==> {
            &&& (#[trigger] after[i]).token == before[i].token
            &&& after[i].profile.last_total_deposit_weight
                >= before[i].profile.last_total_deposit_weight
        }
}

/// Setting a record keeps the keys unrepeated, makes that record the given
/// one and leaves every other record as it was.
pub proof fn lemma_with_record(
    records: Seq<DepositEntry>,
    who: AccountId,
    token: Token,
    weight: DepositVoteWeight,
)
    requires
        record_keys(records).no_duplicates(),
    ensures
        record_keys(with_record(records, who, token, weight)).no_duplicates(),
        forall|a: AccountId, t: Token|
            #[trigger] record_in(with_record(records, who, token, weight), a, t) == if a == who
                && t == token {
                Some(weight)
            } else {
                record_in(records, a, t)
            },
{
    let keys = record_keys(records);
    let after = with_record(records, who, token, weight);
    lemma_position(keys, (who, token));
    match position(keys, (who, token)) {
        Some(i) => {
            assert(record_keys(after) =~= keys);
            assert forall|a: AccountId, t: Token|
                #[trigger] record_in(after, a, t) == if a == who && t == token {
                    Some(weight)
                } else {
                    record_in(records, a, t)
                } by {
                lemma_position(keys, (a, t));
            }
        },
        None => {
            assert(record_keys(after) =~= keys.push((who, token)));
            lemma_position_push(keys, (who, token), (who, token));
            assert forall|a: AccountId, t: Token|
                #[trigger] record_in(after, a, t) == if a == who && t == token {
                    Some(weight)
                } else {
                    record_in(records, a, t)
                } by {
                lemma_position_push(keys, (who, token), (a, t));
                lemma_position(keys, (a, t));
            }
        },
    }
}

/// Setting an asset's record keeps the keys unrepeated, makes that record
/// the given one and leaves every other record as it was.
pub proof fn lemma_with_profile(
    profiles: Seq<ProfileEntry>,
    token: Token,
    profile: PseduIntentionVoteWeight,
)
    requires
        profile_tokens(profiles).no_duplicates(),
    ensures
        profile_tokens(with_profile(profiles, token, profile)).no_duplicates(),
        profile_tokens(with_profile(profiles, token, profile)) == if profile_tokens(
            profiles,
        ).contains(token) {
            profile_tokens(profiles)
        } else {
            profile_tokens(profiles).push(token)
        },
        forall|t: Token|
            #[trigger] profile_in(with_profile(profiles, token, profile), t) == if t == token {
                Some(profile)
            } else {
                profile_in(profiles, t)
            },
{
    let keys = profile_tokens(profiles);
    let after = with_profile(profiles, token, profile);
    lemma_position(keys, token);
    match position(keys, token) {
        Some(i) => {
            assert(profile_tokens(after) =~= keys);
            assert forall|t: Token|
                #[trigger] profile_in(after, t) == if t == token {
                    Some(profile)
                } else {
                    profile_in(profiles, t)
                } by {
                lemma_position(keys, t);
            }
        },
        None => {
            assert(profile_tokens(after) =~= keys.push(token));
            lemma_position_push(keys, token, token);
            assert forall|t: Token|
                #[trigger] profile_in(after, t) == if t == token {
                    Some(profile)
                } else {
                    profile_in(profiles, t)
                } by {
                lemma_position_push(keys, token, t);
                lemma_position(keys, t);
            }
        },
    }
}

/// Setting a record to one with no less weight keeps every record in its
/// place with no less weight.
pub proof fn lemma_with_record_keeps(
    records: Seq<DepositEntry>,
    who: AccountId,
    token: Token,
    weight: DepositVoteWeight,
)
    requires
        record_in(records, who, token) matches Some(before) ==> before.last_deposit_weight
            <= weight.last_deposit_weight,
    ensures
        records_kept(records, with_record(records, who, token, weight)),
{
    lemma_position(record_keys(records), (who, token));
}

/// Setting an asset's record to one with no less weight keeps every asset
/// record in its place with no less weight.
pub proof fn lemma_with_profile_keeps(
    profiles: Seq<ProfileEntry>,
    token: Token,
    profile: PseduIntentionVoteWeight,
)
    requires
        profile_in(profiles, token) matches Some(before) ==> before.last_total_deposit_weight
            <= profile.last_total_deposit_weight,
    ensures
        profiles_kept(profiles, with_profile(profiles, token, profile)),
{
    lemma_position(profile_tokens(profiles), token);
}

/// Keeping composes: what is kept from a first list to a second and from
/// the second to a third is kept from the first to the third.
pub proof fn lemma_records_kept_transitive(
    first: Seq<DepositEntry>,
    second: Seq<DepositEntry>,
    third: Seq<DepositEntry>,
)
    requires
        records_kept(first, second),
        records_kept(second, third),
    ensures
        records_kept(first, third),
{
    assert forall|i: int| 0 <= i < first.len() implies {
        &&& (#[trigger] third[i]).who == first[i].who
        &&& third[i].token == first[i].token
        &&& third[i].weight.last_deposit_weight >= first[i].weight.last_deposit_weight
    } by {
        assert(second[i].who == first[i].who);
    }
}

} // verus!
