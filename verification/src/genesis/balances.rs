//! The balances of the chain's own asset.
//!
//! Most accounts carry over as they are. Three kinds do not: the council's
//! funds go to the treasury, the team's funds go to the vesting reserve, and
//! the funds of a validator's legacy pot go to the pot that the new chain
//! derives for that validator.

use vstd::prelude::*;
use crate::primitives::{AccountId, Balance, Error, NATIVE_TOKEN};
use crate::assets::{total_in, Assets};
use crate::genesis::{
    credit_all,
    credited_all,
    credits_added,
    declared,
    BalancesParams,
    FreeBalanceInfo,
    LegacyPot,
    WellknownAccounts,
};
use crate::math::{sum, lemma_sum_nonnegative};
use crate::pots::{reward_pot_in, StakingAccounts};

verus! {

/// The validator that a legacy pot belonged to: that of the first line for
/// the pot, if there is one.
pub open spec fn validator_in(pots: Seq<LegacyPot>, target_pot: AccountId) -> Option<AccountId>
    decreases pots.len(),
{
    if pots.len() == 0 {
        None
    } else if pots[0].pot == target_pot {
        Some(pots[0].validator)
    } else {
        validator_in(pots.drop_first(), target_pot)
    }
}

/// Returns the validator account by the given reward pot account.
pub fn validator_for(target_pot: AccountId, pots: &Vec<LegacyPot>) -> (validator: Option<AccountId>)
    ensures
        validator == validator_in(pots@, target_pot),
{
    let mut i: usize = 0;
    proof {
        assert(pots@.skip(0) =~= pots@);
    }
    while i < pots.len()
        invariant
            i <= pots.len(),
            validator_in(pots@, target_pot) == validator_in(pots@.skip(i as int), target_pot),
        decreases pots.len() - i,
    {
        proof {
            assert(pots@.skip(i as int).drop_first() =~= pots@.skip(i + 1));
        }
        if pots[i].pot == target_pot {
            return Some(pots[i].validator);
        }
        i += 1;
    }
    None
}

/// The account that the funds of `who` go to: the treasury for the council,
/// the vesting reserve for the team, the validator's new pot for a legacy
/// pot, and `who` itself otherwise. There is none where a legacy pot names
/// a validator whose new pot is not known.
pub open spec fn destination(
    who: AccountId,
    wellknown: WellknownAccounts,
    accounts: StakingAccounts,
) -> Option<AccountId> {
    if who == wellknown.legacy_council {
        Some(accounts.treasury)
    } else if who == wellknown.legacy_team {
        Some(accounts.vesting)
    } else {
        match validator_in(wellknown.legacy_pots@, who) {
            Some(validator) => reward_pot_in(accounts.reward_pots@, validator),
            None => Some(who),
        }
    }
}

/// Decides where the funds of `who` go.
pub fn remap(who: AccountId, wellknown: &WellknownAccounts, accounts: &StakingAccounts) -> (to:
    Option<AccountId>)
    ensures
        to == destination(who, *wellknown, *accounts),
{
    if who == wellknown.legacy_council {
        Some(accounts.treasury_account())
    } else if who == wellknown.legacy_team {
        Some(accounts.vesting_account())
    } else {
        match validator_for(who, &wellknown.legacy_pots) {
            Some(validator) => accounts.reward_pot_for(validator),
            None => Some(who),
        }
    }
}

/// Every entry of the snapshot has a destination.
pub open spec fn resolvable(
    entries: Seq<FreeBalanceInfo>,
    wellknown: WellknownAccounts,
    accounts: StakingAccounts,
) -> bool {
    forall|i: int|
        0 <= i < entries.len() ==> destination((#[trigger] entries[i]).who, wellknown, accounts)
            is Some
}

/// The entries of the snapshot, each under the account that its funds go
/// to.
pub open spec fn remapped(
    entries: Seq<FreeBalanceInfo>,
    wellknown: WellknownAccounts,
    accounts: StakingAccounts,
) -> Seq<FreeBalanceInfo> {
    Seq::new(
        entries.len(),
        |i: int|
            FreeBalanceInfo {
                who: destination(entries[i].who, wellknown, accounts).unwrap(),
                free: entries[i].free,
            },
    )
}

/// Credits the balances of the snapshot, each to the account that it goes
/// to, and returns the ledger with the sum of what was credited.
///
/// Fails with `MissingRewardPot` exactly when some entry has no
/// destination, and otherwise with `Overflow` exactly when the total of the
/// chain's asset would leave 128 bits. Nothing is made and nothing is lost
/// on the way: the sum credited is the sum declared, and the total of the
/// chain's asset grows by just that.
pub fn initialize(params: &BalancesParams, accounts: &StakingAccounts, ledger: Assets) -> (result:
    Result<(Assets, Balance), Error>)
    requires
        ledger.wf(),
    ensures
        !resolvable(params.free_balances@, params.wellknown_accounts, *accounts) ==> (
        result matches Err(e) && e == Error::MissingRewardPot),
        resolvable(params.free_balances@, params.wellknown_accounts, *accounts) ==> (
        match credited_all(
            ledger@,
            NATIVE_TOKEN,
            remapped(params.free_balances@, params.wellknown_accounts, *accounts),
        ) {
            Ok(holdings) => result matches Ok(done) && done.0@ == holdings,
            Err(e) => result matches Err(err) && err == e && e == Error::Overflow,
        }),
        result matches Ok(done) ==> {
            &&& done.0.wf()
            &&& done.1 == sum(declared(params.free_balances@))
            &&& done.0.total(NATIVE_TOKEN) == ledger.total(NATIVE_TOKEN) + done.1
            &&& credits_added(
                ledger@,
                done.0@,
                NATIVE_TOKEN,
                remapped(params.free_balances@, params.wellknown_accounts, *accounts),
            )
        },
        (result matches Err(e) && e == Error::Overflow) ==> ledger.total(NATIVE_TOKEN) + sum(
            declared(params.free_balances@),
        ) > u128::MAX,
{
    let ghost entries = params.free_balances@;
    let ghost wanted = remapped(entries, params.wellknown_accounts, *accounts);
    let mut credits: Vec<FreeBalanceInfo> = Vec::new();
    let mut i: usize = 0;
    while i < params.free_balances.len()
        invariant
            i <= params.free_balances.len(),
            entries == params.free_balances@,
            wanted == remapped(entries, params.wellknown_accounts, *accounts),
            credits@.len() == i,
            forall|j: int|
                0 <= j < i ==> destination(
                    (#[trigger] entries[j]).who,
                    params.wellknown_accounts,
                    *accounts,
                ) is Some,
            forall|j: int| 0 <= j < i ==> #[trigger] credits@[j] == wanted[j],
        decreases params.free_balances.len() - i,
    {
        let entry = params.free_balances[i];
        match remap(entry.who, &params.wellknown_accounts, accounts) {
            Some(who) => {
                credits.push(FreeBalanceInfo { who, free: entry.free });
            },
            None => {
                proof {
                    assert(destination(entries[i as int].who, params.wellknown_accounts, *accounts)
                        is None);
                }
                return Err(Error::MissingRewardPot);
            },
        }
        i += 1;
    }
    proof {
        assert(credits@ =~= wanted);
        assert(declared(wanted) =~= declared(entries));
    }
    let ghost start = ledger@;
    let before = ledger.all_type_balance(NATIVE_TOKEN);
    match credit_all(NATIVE_TOKEN, &credits, ledger) {
        Ok(after) => {
            proof {
                lemma_sum_nonnegative(declared(entries));
                assert(total_in(after@, NATIVE_TOKEN) == total_in(start, NATIVE_TOKEN) + sum(
                    declared(entries),
                ));
            }
            let total = after.all_type_balance(NATIVE_TOKEN) - before;
            Ok((after, total))
        },
        Err(e) => Err(e),
    }
}

} // verus!
