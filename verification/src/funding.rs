//! Valuing the registered assets and filling their reward pools.
//!
//! Each round, every registered asset that has a price is valued at three
//! tenths of the worth of its outstanding total: stake held through an asset
//! counts for less than stake bonded to a validator. What share of the
//! round's reward this earns is decided elsewhere; the share is then put
//! into the asset's pool.

use vstd::prelude::*;
use crate::primitives::{Balance, Error, StakeTarget, Token};
use crate::assets::{total_in, Assets, Holding};
use crate::lookup::lemma_position;
use crate::math::{discounted_value, discounted_value_of};
use crate::store::{
    lemma_with_profile_keeps,
    profile_tokens,
    profiles_kept,
    with_profile,
    ProfileEntry,
    PseduIntentionVoteWeight,
};
use crate::tokens::Module;

verus! {

/// The price of one unit of an asset, in the chain's own asset.
#[derive(Clone, Copy, Debug, PartialEq, Eq, Structural)]
pub struct PriceEntry {
    pub token: Token,
    pub price: Balance,
}

/// The price of `token`: that of the first entry for it, if there is one.
pub open spec fn price_in(prices: Seq<PriceEntry>, token: Token) -> Option<Balance>
    decreases prices.len(),
{
    if prices.len() == 0 {
        None
    } else if prices[0].token == token {
        Some(prices[0].price)
    } else {
        price_in(prices.drop_first(), token)
    }
}

/// The price of `token`, if the list has one.
pub fn pcx_price_for(prices: &Vec<PriceEntry>, token: Token) -> (price: Option<Balance>)
    ensures
        price == price_in(prices@, token),
{
    let mut i: usize = 0;
    proof {
        assert(prices@.skip(0) =~= prices@);
    }
    while i < prices.len()
        invariant
            i <= prices.len(),
            price_in(prices@, token) == price_in(prices@.skip(i as int), token),
        decreases prices.len() - i,
    {
        proof {
            assert(prices@.skip(i as int).drop_first() =~= prices@.skip(i + 1));
        }
        if prices[i].token == token {
            return Some(prices[i].price);
        }
        i += 1;
    }
    None
}

/// The stakes of the registered assets, in the order of registration: for
/// each asset that has a price, the discounted worth of its outstanding
/// total. An asset without a price is left out.
pub open spec fn stakes_in(
    profiles: Seq<ProfileEntry>,
    prices: Seq<PriceEntry>,
    holdings: Seq<Holding>,
) -> Seq<(StakeTarget, Balance)>
    decreases profiles.len(),
{
    if profiles.len() == 0 {
        Seq::empty()
    } else {
        let front = stakes_in(profiles.drop_last(), prices, holdings);
        let token = profiles.last().token;
        match price_in(prices, token) {
            Some(price) => front.push(
                (
                    StakeTarget::AssetTarget(token),
                    discounted_value_of(price, total_in(holdings, token) as Balance),
                ),
            ),
            None => front,
        }
    }
}

impl Module {
    /// The stake that each registered asset counts for in this round.
    pub fn psedu_intentions_info(&self, assets: &Assets, prices: &Vec<PriceEntry>) -> (stakes: Vec<
        (StakeTarget, Balance),
    >)
        requires
            self.wf(),
            assets.wf(),
        ensures
            stakes@ == stakes_in(self.profiles(), prices@, assets@),
    {
        let count = self.profile_count();
        let mut stakes: Vec<(StakeTarget, Balance)> = Vec::new();
        let mut i: usize = 0;
        while i < count
            invariant
                i <= count,
                count == self.profiles().len(),
                self.wf(),
                assets.wf(),
                stakes@ == stakes_in(self.profiles().take(i as int), prices@, assets@),
            decreases count - i,
        {
            let token = self.profile_at(i).token;
            proof {
                assert(self.profiles().take(i + 1).drop_last() =~= self.profiles().take(i as int));
            }
            match pcx_price_for(prices, token) {
                Some(price) => {
                    let amount = assets.all_type_balance(token);
                    let stake = discounted_value(price, amount);
                    stakes.push((StakeTarget::AssetTarget(token), stake));
                },
                None => {},
            }
            i += 1;
        }
        proof {
            assert(self.profiles().take(i as int) =~= self.profiles());
        }
        stakes
    }

    /// What `reward` answers in a given state.
    pub open spec fn reward_outcome(&self, token: Token, value: Balance) -> Result<(), Error> {
        match self.profile(token) {
            None => Err(Error::NotSupported),
            Some(profile) => if profile.jackpot + value > u128::MAX {
                Err(Error::Overflow)
            } else {
                Ok(())
            },
        }
    }

    /// Puts `value` into the pool of `token`.
    ///
    /// Rejected, with the store untouched, for an asset that is not
    /// registered and for a pool that would leave 128 bits.
    pub fn reward(&mut self, token: Token, value: Balance) -> (result: Result<(), Error>)
        requires
            old(self).wf(),
        ensures
            final(self).wf(),
            final(self).records() == old(self).records(),
            result == old(self).reward_outcome(token, value),
            match result {
                Ok(()) => final(self).profiles() == with_profile(
                    old(self).profiles(),
                    token,
                    PseduIntentionVoteWeight {
                        jackpot: (old(self).profile(token).unwrap().jackpot + value) as Balance,
                        ..old(self).profile(token).unwrap()
                    },
                ),
                Err(_) => final(self).profiles() == old(self).profiles(),
            },
            profiles_kept(old(self).profiles(), final(self).profiles()),
    {
        proof {
            lemma_position(profile_tokens(self.profiles()), token);
        }
        let mut pprof = match self.psedu_intention_profiles(token) {
            Some(profile) => profile,
            None => {
                return Err(Error::NotSupported);
            },
        };
        pprof.jackpot = match pprof.jackpot.checked_add(value) {
            Some(n) => n,
            None => {
                return Err(Error::Overflow);
            },
        };
        proof {
            lemma_with_profile_keeps(self.profiles(), token, pprof);
        }
        self.put_profile(token, pprof);
        Ok(())
    }
}

} // verus!
