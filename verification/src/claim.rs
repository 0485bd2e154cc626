//! Turning accrued weight into a share of an asset's reward pool.
//!
//! A claim pays the claimant the part of the pool that its weight is of the
//! asset's weight, stretched by the number of blocks that a deposit of the
//! asset takes to become final, and never more than the pool holds. What is
//! lost to rounding stays in the pool.
//!
//! A claim does not take the weight away. The weight keeps accruing, and a
//! later claim counts the same blocks again: an account can claim against
//! one interval more than once, as long as the pool is refilled.

use vstd::prelude::*;
use crate::primitives::{
    AccountId,
    Balance,
    BlockNumber,
    Error,
    StakeTarget,
    Token,
    NATIVE_TOKEN,
    X_BTC,
};
use crate::accrual::{lemma_settle_never_decreases, lemma_settle_same_block};
use crate::assets::{balance_changed, Assets};
use crate::consistency::lemma_change_keeps_consistency;
use crate::lookup::lemma_position;
use crate::math::{capped_share, proportional_share};
use crate::store::{
    lemma_with_profile,
    lemma_with_profile_keeps,
    lemma_with_record,
    lemma_with_record_keeps,
    profile_tokens,
    profiles_kept,
    records_kept,
    touch,
    touched_record,
    with_profile,
    DepositVoteWeight,
    PseduIntentionVoteWeight,
};
use crate::tokens::{DepositRecord, Module, PseduIntentionProfs};

verus! {

/// The seconds between two blocks of the bitcoin chain.
pub const BTC_BLOCK_SECONDS: u64 = 600;

/// What is known of the chains' clocks: how many bitcoin blocks make a
/// deposit final, and how many seconds pass between two blocks of this
/// chain.
#[derive(Clone, Copy, Debug, PartialEq, Eq, Structural)]
pub struct ConfirmationParams {
    pub btc_irr_block: u32,
    pub block_period: u64,
}

/// The blocks of this chain that pass while a deposit of `token` becomes
/// final. Known for the bridged bitcoin alone, and only where this chain's
/// block period is not zero.
pub open spec fn wait_blocks_of(token: Token, params: ConfirmationParams) -> Result<u64, Error> {
    if token == X_BTC && params.block_period > 0 {
        Ok(((params.btc_irr_block * BTC_BLOCK_SECONDS) / (params.block_period as int)) as u64)
    } else {
        Err(Error::NotSupported)
    }
}

/// Transforms the outside chain's confirmation depth into blocks of this
/// chain.
pub fn wait_blocks(token: Token, params: &ConfirmationParams) -> (blocks: Result<u64, Error>)
    ensures
        blocks == wait_blocks_of(token, *params),
{
    if token != X_BTC || params.block_period == 0 {
        return Err(Error::NotSupported);
    }
    let seconds: u64 = (params.btc_irr_block as u64) * BTC_BLOCK_SECONDS;
    Ok(seconds / params.block_period)
}

/// The pool after `value` was taken from it. A pool that holds less is
/// emptied.
pub open spec fn jackpot_after(jackpot: Balance, value: Balance) -> Balance {
    if jackpot >= value {
        (jackpot - value) as Balance
    } else {
        0
    }
}

impl Module {
    /// What a claim answers in a given state: the amount paid, or the reason
    /// why nothing is paid. The checks come in this order: the asset is
    /// registered; no record lies in the future; the asset has weight; the
    /// wait is known; the payout fits the ledger.
    pub open spec fn claim_outcome(
        &self,
        assets: Assets,
        who: AccountId,
        token: Token,
        wait: Result<u64, Error>,
        now: BlockNumber,
    ) -> Result<Balance, Error> {
        match self.profile(token) {
            None => Err(Error::NotSupported),
            Some(profile) => {
                let settled = profile.settled(assets.total(token) as Balance, now);
                let record = touched_record(
                    self.records(),
                    who,
                    token,
                    assets.balance(who, token),
                    now,
                );
                if !self.clock_allows(who, token, now) {
                    Err(Error::ClockWentBackwards)
                } else if settled.last_total_deposit_weight == 0 {
                    Err(Error::ZeroWeight)
                } else {
                    match wait {
                        Err(_) => Err(Error::NotSupported),
                        Ok(blocks) => {
                            let reward = capped_share(
                                settled.jackpot,
                                blocks,
                                record.last_deposit_weight,
                                settled.last_total_deposit_weight,
                            ) as Balance;
                            if assets.total(NATIVE_TOKEN) + reward > u128::MAX {
                                Err(Error::Overflow)
                            } else {
                                Ok(reward)
                            }
                        },
                    }
                }
            },
        }
    }

    /// This store is `before` after a claim that paid `reward`: the
    /// claimant was touched at `now`, the asset's record was settled at
    /// `now`, and the pool has shrunk by what was paid.
    pub open spec fn claimed_from(
        &self,
        before: Module,
        assets: Assets,
        who: AccountId,
        token: Token,
        reward: Balance,
        now: BlockNumber,
    ) -> bool {
        match before.profile(token) {
            Some(profile) => {
                let settled = profile.settled(assets.total(token) as Balance, now);
                &&& self.records() == touch(
                    before.records(),
                    who,
                    token,
                    assets.balance(who, token),
                    now,
                )
                &&& self.profiles() == with_profile(
                    before.profiles(),
                    token,
                    PseduIntentionVoteWeight {
                        jackpot: jackpot_after(settled.jackpot, reward),
                        ..settled
                    },
                )
            },
            None => false,
        }
    }

    /// Takes `value` out of the pool of `token`. A pool that holds less is
    /// emptied.
    fn cut_jackpot(&mut self, token: Token, value: Balance)
        requires
            old(self).wf(),
            old(self).registered(token),
        ensures
            final(self).wf(),
            final(self).records() == old(self).records(),
            final(self).profiles() == with_profile(
                old(self).profiles(),
                token,
                PseduIntentionVoteWeight {
                    jackpot: jackpot_after(old(self).profile(token).unwrap().jackpot, value),
                    ..old(self).profile(token).unwrap()
                },
            ),
    {
        proof {
            lemma_position(profile_tokens(self.profiles()), token);
        }
        let mut psedu_intention = match self.psedu_intention_profiles(token) {
            Some(profile) => profile,
            None => PseduIntentionVoteWeight::default(),
        };
        psedu_intention.jackpot = match psedu_intention.jackpot.checked_sub(value) {
            Some(n) => n,
            None => 0,
        };
        self.put_profile(token, psedu_intention);
    }

    /// Pays `reward` to `source` from the pool of `token`, in the chain's
    /// own asset.
    fn issue_reward(
        &mut self,
        assets: &mut Assets,
        source: AccountId,
        token: Token,
        reward: Balance,
    )
        requires
            old(self).wf(),
            old(assets).wf(),
            old(self).registered(token),
            old(assets).total(NATIVE_TOKEN) + reward <= u128::MAX,
        ensures
            final(self).wf(),
            final(assets).wf(),
            final(self).records() == old(self).records(),
            final(self).profiles() == with_profile(
                old(self).profiles(),
                token,
                PseduIntentionVoteWeight {
                    jackpot: jackpot_after(old(self).profile(token).unwrap().jackpot, reward),
                    ..old(self).profile(token).unwrap()
                },
            ),
            balance_changed(old(assets)@, final(assets)@, source, NATIVE_TOKEN, reward as int),
    {
        self.cut_jackpot(token, reward);
        let paid = assets.issue(NATIVE_TOKEN, source, reward);
        assert(paid is Ok);
    }

    /// Settles the claimant and the asset at `now` and pays the claimant's
    /// share of the pool. `wait` is the number of blocks that a deposit of
    /// the asset takes to become final, or the reason why it is not known.
    ///
    /// A rejected claim changes nothing. A paid claim leaves the weights in
    /// place, and leaves the two views of the asset's weight in agreement
    /// where they were.
    pub fn apply_claim(
        &mut self,
        assets: &mut Assets,
        who: AccountId,
        token: Token,
        wait: Result<u64, Error>,
        now: BlockNumber,
    ) -> (result: Result<Balance, Error>)
        requires
            old(self).wf(),
            old(assets).wf(),
        ensures
            final(self).wf(),
            final(assets).wf(),
            result == old(self).claim_outcome(*old(assets), who, token, wait, now),
            match result {
                Ok(reward) => {
                    &&& final(self).claimed_from(*old(self), *old(assets), who, token, reward, now)
                    &&& balance_changed(
                        old(assets)@,
                        final(assets)@,
                        who,
                        NATIVE_TOKEN,
                        reward as int,
                    )
                },
                Err(_) => final(self).same_as(*old(self)) && final(assets)@ == old(assets)@,
            },
            records_kept(old(self).records(), final(self).records()),
            profiles_kept(old(self).profiles(), final(self).profiles()),
            old(self).consistent(*old(assets), token) && old(self).accrues_exactly(
                *old(assets),
                who,
                token,
                now,
            ) ==> final(self).consistent(*final(assets), token),
    {
        proof {
            lemma_position(profile_tokens(self.profiles()), token);
        }
        let p_vote_weight = match self.psedu_intention_profiles(token) {
            Some(profile) => profile,
            None => {
                return Err(Error::NotSupported);
            },
        };
        if !self.clock_permits(who, token, now) {
            return Err(Error::ClockWentBackwards);
        }
        let held = assets.all_type_balance_of(who, token);
        let outstanding = assets.all_type_balance(token);
        let d_vote_weight = match self.deposit_records(who, token) {
            Some(record) => record,
            None => DepositVoteWeight { last_deposit_weight: 0, last_deposit_weight_update: now },
        };
        let mut prof = PseduIntentionProfs { token, amount: outstanding, staking: p_vote_weight };
        let mut record = DepositRecord {
            depositor: who,
            token,
            amount: held,
            staking: d_vote_weight,
        };
        let settled_prof = prof.settle(now);
        let settled_record = record.settle(now);
        proof {
            assert(settled_prof is Ok && settled_record is Ok);
            lemma_settle_same_block(0, now, held);
            assert(record.staking == touched_record(self.records(), who, token, held, now));
        }
        if prof.last_acum_weight() == 0 {
            return Err(Error::ZeroWeight);
        }
        let blocks = match wait {
            Ok(blocks) => blocks,
            Err(_) => {
                return Err(Error::NotSupported);
            },
        };
        let reward = match proportional_share(
            prof.jackpot(),
            blocks,
            record.last_acum_weight(),
            prof.last_acum_weight(),
        ) {
            Some(reward) => reward,
            None => {
                return Err(Error::ZeroWeight);
            },
        };
        if assets.all_type_balance(NATIVE_TOKEN) > u128::MAX - reward {
            return Err(Error::Overflow);
        }
        proof {
            lemma_settle_never_decreases(
                d_vote_weight.last_deposit_weight,
                d_vote_weight.last_deposit_weight_update,
                held,
                now,
            );
            lemma_settle_never_decreases(
                p_vote_weight.last_total_deposit_weight,
                p_vote_weight.last_total_deposit_weight_update,
                outstanding,
                now,
            );
            lemma_with_record_keeps(self.records(), who, token, record.staking);
            lemma_with_profile_keeps(
                self.profiles(),
                token,
                PseduIntentionVoteWeight {
                    jackpot: jackpot_after(prof.staking.jackpot, reward),
                    ..prof.staking
                },
            );
            lemma_with_profile(self.profiles(), token, prof.staking);
            lemma_with_record(self.records(), who, token, record.staking);
        }
        self.put_profile(token, prof.staking);
        self.put_record(who, token, record.staking);
        proof {
            lemma_position(profile_tokens(self.profiles()), token);
        }
        self.issue_reward(assets, who, token, reward);
        proof {
            lemma_position(profile_tokens(old(self).profiles()), token);
            assert(self.profiles() =~= with_profile(
                old(self).profiles(),
                token,
                PseduIntentionVoteWeight {
                    jackpot: jackpot_after(prof.staking.jackpot, reward),
                    ..prof.staking
                },
            ));
            if old(self).consistent(*old(assets), token) && old(self).accrues_exactly(
                *old(assets),
                who,
                token,
                now,
            ) {
                lemma_change_keeps_consistency(
                    old(self).records(),
                    p_vote_weight,
                    old(assets)@,
                    assets@,
                    who,
                    token,
                    now,
                    if token == NATIVE_TOKEN {
                        reward as int
                    } else {
                        0
                    },
                );
                lemma_with_profile(
                    old(self).profiles(),
                    token,
                    PseduIntentionVoteWeight {
                        jackpot: jackpot_after(prof.staking.jackpot, reward),
                        ..prof.staking
                    },
                );
            }
        }
        Ok(reward)
    }

    /// A claim by `who` against `target` at `now`.
    ///
    /// A validator and the chain's own asset cannot be claimed against
    /// here, whether that asset is registered or not: both are rejected as
    /// not supported before anything else is looked at. For every other
    /// asset this is `apply_claim` with the wait that `wait_blocks` gives,
    /// which rejects an asset that is not registered.
    pub fn claim(
        &mut self,
        assets: &mut Assets,
        params: &ConfirmationParams,
        who: AccountId,
        target: StakeTarget,
        now: BlockNumber,
    ) -> (result: Result<Balance, Error>)
        requires
            old(self).wf(),
            old(assets).wf(),
        ensures
            final(self).wf(),
            final(assets).wf(),
            match target {
                StakeTarget::AssetTarget(token) if token != NATIVE_TOKEN => {
                    &&& result == old(self).claim_outcome(
                        *old(assets),
                        who,
                        token,
                        wait_blocks_of(token, *params),
                        now,
                    )
                    &&& match result {
                        Ok(reward) => {
                            &&& final(self).claimed_from(
                                *old(self),
                                *old(assets),
                                who,
                                token,
                                reward,
                                now,
                            )
                            &&& balance_changed(
                                old(assets)@,
                                final(assets)@,
                                who,
                                NATIVE_TOKEN,
                                reward as int,
                            )
                        },
                        Err(_) => final(self).same_as(*old(self)) && final(assets)@ == old(assets)@,
                    }
                    &&& old(self).consistent(*old(assets), token) && old(self).accrues_exactly(
                        *old(assets),
                        who,
                        token,
                        now,
                    ) ==> final(self).consistent(*final(assets), token)
                },
                _ => {
                    &&& result == Err::<Balance, Error>(Error::NotSupported)
                    &&& final(self).same_as(*old(self))
                    &&& final(assets)@ == old(assets)@
                },
            },
            records_kept(old(self).records(), final(self).records()),
            profiles_kept(old(self).profiles(), final(self).profiles()),
    {
        match target {
            StakeTarget::Validator(_) => Err(Error::NotSupported),
            StakeTarget::AssetTarget(token) => {
                // The chain's own asset cannot be claimed against here.
                if token == NATIVE_TOKEN {
                    return Err(Error::NotSupported);
                }
                let wait = wait_blocks(token, params);
                self.apply_claim(assets, who, token, wait, now)
            },
        }
    }
}

} // verus!
