//! Checking the asset's weight against the weights of its holders.
//!
//! The asset's record is never derived from the records of the holders: it
//! is accrued on its own, from the outstanding total. The check here does
//! derive it, by settling every holder's record at one block and adding up,
//! and compares. It walks all records, so it is meant for tests and audits,
//! not for the path of a transaction.

use vstd::prelude::*;
use crate::primitives::{Balance, BlockNumber, Error, Token};
use crate::accrual::{latest_acum_weight, settled_weight, settles_exactly};
use crate::assets::Assets;
use crate::consistency::{all_updated_by, lemma_settled_sums_agree, settled_weights};
use crate::lookup::lemma_position;
use crate::math::{sum, lemma_sum_take_next};
use crate::store::profile_tokens;
use crate::tokens::Module;

verus! {

proof fn lemma_sum_of_weights_fits(count: int)
    requires
        0 <= count <= u64::MAX,
    ensures
        count * u64::MAX + u64::MAX <= u128::MAX,
{
    assert(count * u64::MAX <= u64::MAX * u64::MAX) by (nonlinear_arith)
        requires
            0 <= count <= u64::MAX,
    ;
}

impl Module {
    /// What the check answers in a given state: whether the settled
    /// weights of the holders add up to the settled weight of the asset, or
    /// why the question cannot be put.
    pub open spec fn audit_outcome(&self, assets: Assets, token: Token, now: BlockNumber) -> Result<
        bool,
        Error,
    > {
        match self.profile(token) {
            None => Err(Error::NotSupported),
            Some(profile) => {
                if !(profile.last_total_deposit_weight_update <= now && all_updated_by(
                    self.records(),
                    token,
                    now,
                )) {
                    Err(Error::ClockWentBackwards)
                } else {
                    Ok(
                        sum(settled_weights(self.records(), assets@, token, now)) == settled_weight(
                            profile.last_total_deposit_weight,
                            profile.last_total_deposit_weight_update,
                            assets.total(token) as Balance,
                            now,
                        ),
                    )
                }
            },
        }
    }

    /// The weight of `token` as the records of its holders give it: each
    /// record settled at `now` under the holder's balance, all added up.
    ///
    /// Rejected exactly when a record of the asset was last updated after
    /// `now`.
    pub fn total_deposit_weight(&self, assets: &Assets, token: Token, now: BlockNumber) -> (result:
        Result<u128, Error>)
        requires
            self.wf(),
            assets.wf(),
        ensures
            match result {
                Ok(total) => all_updated_by(self.records(), token, now) && total == sum(
                    settled_weights(self.records(), assets@, token, now),
                ),
                Err(e) => e == Error::ClockWentBackwards && !all_updated_by(
                    self.records(),
                    token,
                    now,
                ),
            },
    {
        let ghost terms = settled_weights(self.records(), assets@, token, now);
        let count = self.record_count();
        let mut total: u128 = 0;
        let mut i: usize = 0;
        while i < count
            invariant
                i <= count,
                count == self.records().len(),
                self.wf(),
                assets.wf(),
                terms == settled_weights(self.records(), assets@, token, now),
                total == sum(terms.take(i as int)),
                total <= i * u64::MAX,
                forall|j: int|
                    0 <= j < i && (#[trigger] self.records()[j]).token == token
                        ==> self.records()[j].weight.last_deposit_weight_update <= now,
            decreases count - i,
        {
            let entry = self.record_at(i);
            proof {
                lemma_sum_take_next(terms, i as int);
                lemma_sum_of_weights_fits(i as int);
                assert((i + 1) * u64::MAX == i * u64::MAX + u64::MAX) by (nonlinear_arith);
            }
            if entry.token == token {
                let held = assets.all_type_balance_of(entry.who, token);
                let weight = match latest_acum_weight(
                    entry.weight.last_deposit_weight,
                    entry.weight.last_deposit_weight_update,
                    held,
                    now,
                ) {
                    Ok(weight) => weight,
                    Err(e) => {
                        return Err(e);
                    },
                };
                total = total + weight as u128;
            }
            i += 1;
        }
        proof {
            assert(terms.take(i as int) =~= terms);
        }
        Ok(total)
    }

    /// Derives the weight of `token` from the records of its holders and
    /// compares it with the asset's own record, both settled at `now`.
    ///
    /// Where the two views are in agreement and the asset's weight stays
    /// below the ceiling, the answer is yes.
    pub fn verify_vote_weights(&self, assets: &Assets, token: Token, now: BlockNumber) -> (result:
        Result<bool, Error>)
        requires
            self.wf(),
            assets.wf(),
        ensures
            result == self.audit_outcome(*assets, token, now),
            self.consistent(*assets, token) && (self.profile(token) matches Some(profile)
                && settles_exactly(
                profile.last_total_deposit_weight,
                profile.last_total_deposit_weight_update,
                assets.total(token) as Balance,
                now,
            )) ==> (result is Ok ==> result == Ok::<bool, Error>(true)),
    {
        proof {
            lemma_position(profile_tokens(self.profiles()), token);
        }
        let profile = match self.psedu_intention_profiles(token) {
            Some(profile) => profile,
            None => {
                return Err(Error::NotSupported);
            },
        };
        let outstanding = assets.all_type_balance(token);
        let recorded = match latest_acum_weight(
            profile.last_total_deposit_weight,
            profile.last_total_deposit_weight_update,
            outstanding,
            now,
        ) {
            Ok(weight) => weight,
            Err(e) => {
                return Err(e);
            },
        };
        let derived = match self.total_deposit_weight(assets, token, now) {
            Ok(total) => total,
            Err(e) => {
                return Err(e);
            },
        };
        proof {
            if self.consistent(*assets, token) && settles_exactly(
                profile.last_total_deposit_weight,
                profile.last_total_deposit_weight_update,
                outstanding,
                now,
            ) {
                lemma_settled_sums_agree(self.records(), profile, assets@, token, now);
            }
        }
        Ok(derived == recorded as u128)
    }
}

} // verus!
