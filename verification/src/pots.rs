//! The accounts that the staking side reserves or derives: the treasury,
//! the vesting reserve, and each validator's reward pot.
//!
//! How a pot's account follows from a validator's identity is not decided
//! here. The derivation is handed in as a table, one line per validator.

use vstd::prelude::*;
use crate::primitives::AccountId;

verus! {

/// A validator and the account of its reward pot.
#[derive(Clone, Copy, Debug, PartialEq, Eq, Structural)]
pub struct RewardPot {
    pub validator: AccountId,
    pub pot: AccountId,
}

/// The accounts of the staking side.
pub struct StakingAccounts {
    pub treasury: AccountId,
    pub vesting: AccountId,
    pub reward_pots: Vec<RewardPot>,
}

/// The reward pot of `validator`: that of the first line for it, if there is
/// one.
pub open spec fn reward_pot_in(pots: Seq<RewardPot>, validator: AccountId) -> Option<AccountId>
    decreases pots.len(),
{
    if pots.len() == 0 {
        None
    } else if pots[0].validator == validator {
        Some(pots[0].pot)
    } else {
        reward_pot_in(pots.drop_first(), validator)
    }
}

impl StakingAccounts {
    /// The account that holds the treasury.
    pub fn treasury_account(&self) -> (account: AccountId)
        ensures
            account == self.treasury,
    {
        self.treasury
    }

    /// The account that holds the vesting reserve.
    pub fn vesting_account(&self) -> (account: AccountId)
        ensures
            account == self.vesting,
    {
        self.vesting
    }

    /// The account of the reward pot of `validator`, if it is known.
    pub fn reward_pot_for(&self, validator: AccountId) -> (pot: Option<AccountId>)
        ensures
            pot == reward_pot_in(self.reward_pots@, validator),
    {
        let mut i: usize = 0;
        proof {
            assert(self.reward_pots@.skip(0) =~= self.reward_pots@);
        }
        while i < self.reward_pots.len()
            invariant
                i <= self.reward_pots.len(),
                reward_pot_in(self.reward_pots@, validator) == reward_pot_in(
                    self.reward_pots@.skip(i as int),
                    validator,
                ),
            decreases self.reward_pots.len() - i,
        {
            proof {
                assert(self.reward_pots@.skip(i as int).drop_first() =~= self.reward_pots@.skip(
                    i + 1,
                ));
            }
            if self.reward_pots[i].validator == validator {
                return Some(self.reward_pots[i].pot);
            }
            i += 1;
        }
        None
    }
}

} // verus!
