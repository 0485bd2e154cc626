//! Initializing the state from the snapshot of the legacy chain.
//!
//! The import runs once, before the first block, and it is all or nothing:
//! every step takes the state it works on by value and hands it back only
//! when it has succeeded, so a state that was imported in part never comes
//! into anyone's hands.

pub mod balances;
pub mod xassets;
pub mod xstaking;
pub mod xmining_asset;

use vstd::prelude::*;
use crate::primitives::{AccountId, Balance, BlockNumber, Error, Token, VoteWeight, NATIVE_TOKEN};
use crate::assets::{balance_in, issued, total_in, Assets, Holding};
use crate::math::{sum, lemma_sum_prefix_at_most, lemma_sum_take_next};
use crate::pots::StakingAccounts;
use crate::staking::{Staking, StakingState, ValidatorInfo};
use crate::store::{forced_profile_in, with_profile, DepositEntry, ProfileEntry};
use crate::tokens::Module;

verus! {

/// An account and the balance that the snapshot declares for it.
#[derive(Clone, Copy, Debug, PartialEq, Eq, Structural)]
pub struct FreeBalanceInfo {
    pub who: AccountId,
    pub free: Balance,
}

/// A reward pot of the legacy chain and the validator it belonged to.
#[derive(Clone, Copy, Debug, PartialEq, Eq, Structural)]
pub struct LegacyPot {
    pub pot: AccountId,
    pub validator: AccountId,
}

/// The accounts of the legacy chain that do not carry over as they are.
pub struct WellknownAccounts {
    pub legacy_council: AccountId,
    pub legacy_team: AccountId,
    pub legacy_pots: Vec<LegacyPot>,
}

/// The balances of the chain's own asset.
pub struct BalancesParams {
    pub free_balances: Vec<FreeBalanceInfo>,
    pub wellknown_accounts: WellknownAccounts,
}

/// The balances of one outside asset.
pub struct XAssetsParams {
    pub asset: Token,
    pub balances: Vec<FreeBalanceInfo>,
}

/// What a nominator has bonded to one validator, and the weight it has
/// accrued there.
#[derive(Clone, Copy, Debug, PartialEq, Eq, Structural)]
pub struct Nomination {
    pub nominee: AccountId,
    pub nomination: Balance,
    pub weight: VoteWeight,
}

/// A nominator with all its nominations.
pub struct NominatorInfo {
    pub nominator: AccountId,
    pub nominations: Vec<Nomination>,
}

/// The validators and the nominators.
pub struct XStakingParams {
    pub validators: Vec<ValidatorInfo>,
    pub nominators: Vec<NominatorInfo>,
}

/// A holder of an outside asset and the weight it has accrued by holding.
#[derive(Clone, Copy, Debug, PartialEq, Eq, Structural)]
pub struct XBtcMiner {
    pub who: AccountId,
    pub weight: VoteWeight,
}

/// The weights of one outside asset: that of the asset, and those of its
/// holders.
pub struct XMiningAssetParams {
    pub asset: Token,
    pub weight: VoteWeight,
    pub miners: Vec<XBtcMiner>,
}

/// The whole snapshot.
pub struct AllParams {
    pub balances: BalancesParams,
    pub xassets: Vec<XAssetsParams>,
    pub xstaking: XStakingParams,
    pub xmining_asset: Vec<XMiningAssetParams>,
}

/// The ledger after one credit, or the reason why it cannot be made.
pub open spec fn credit_step(
    holdings: Seq<Holding>,
    token: Token,
    credit: FreeBalanceInfo,
) -> Result<Seq<Holding>, Error> {
    if total_in(holdings, token) + credit.free > u128::MAX {
        Err(Error::Overflow)
    } else {
        Ok(issued(holdings, credit.who, token, credit.free))
    }
}

/// The ledger after a list of credits, made one after the other. The first
/// credit that cannot be made ends it.
pub open spec fn credited_all(
    holdings: Seq<Holding>,
    token: Token,
    credits: Seq<FreeBalanceInfo>,
) -> Result<Seq<Holding>, Error>
    decreases credits.len(),
{
    if credits.len() == 0 {
        Ok(holdings)
    } else {
        match credited_all(holdings, token, credits.drop_last()) {
            Ok(so_far) => credit_step(so_far, token, credits.last()),
            Err(e) => Err(e),
        }
    }
}

/// The amounts of a list of credits.
pub open spec fn declared(credits: Seq<FreeBalanceInfo>) -> Seq<int> {
    Seq::new(credits.len(), |i: int| credits[i].free as int)
}

/// The amounts that a list of credits gives to `account`, with zero in the
/// place of every credit to another account.
pub open spec fn amounts_for(credits: Seq<FreeBalanceInfo>, account: AccountId) -> Seq<int> {
    Seq::new(
        credits.len(),
        |i: int|
            if credits[i].who == account {
                credits[i].free as int
            } else {
                0
            },
    )
}

/// The second ledger is the first with a list of credits of `token` added:
/// every account has gained what the list gives it, the asset's total has
/// grown by the sum of the list, and no other asset has changed.
pub open spec fn credits_added(
    before: Seq<Holding>,
    after: Seq<Holding>,
    token: Token,
    credits: Seq<FreeBalanceInfo>,
) -> bool {
    &&& forall|a: AccountId|
        #[trigger] balance_in(after, a, token) == balance_in(before, a, token) + sum(
            amounts_for(credits, a),
        )
    &&& forall|a: AccountId, t: Token|
        t != token ==> #[trigger] balance_in(after, a, t) == balance_in(before, a, t)
    &&& forall|t: Token|
        #[trigger] total_in(after, t) == total_in(before, t) + if t == token {
            sum(declared(credits))
        } else {
            0
        }
}

/// Once a front part of the credits cannot be made, the whole list cannot.
pub proof fn lemma_credited_all_fails_on(
    holdings: Seq<Holding>,
    token: Token,
    credits: Seq<FreeBalanceInfo>,
    i: int,
)
    requires
        0 <= i <= credits.len(),
    ensures
        credited_all(holdings, token, credits.take(i)) matches Err(e) ==> credited_all(
            holdings,
            token,
            credits,
        ) == Err::<Seq<Holding>, Error>(e),
    decreases credits.len() - i,
{
    if i == credits.len() {
        assert(credits.take(i) =~= credits);
    } else {
        assert(credits.take(i + 1).drop_last() =~= credits.take(i));
        lemma_credited_all_fails_on(holdings, token, credits, i + 1);
    }
}

/// Credits every entry of the list to its account, in `token`.
///
/// Fails exactly when the asset's total would leave 128 bits. What was
/// credited is what was declared: the total grows by the sum of the list.
pub fn credit_all(token: Token, credits: &Vec<FreeBalanceInfo>, ledger: Assets) -> (result: Result<
    Assets,
    Error,
>)
    requires
        ledger.wf(),
    ensures
        match credited_all(ledger@, token, credits@) {
            Ok(holdings) => result matches Ok(after) && after@ == holdings,
            Err(e) => result matches Err(err) && err == e,
        },
        match result {
            Ok(after) => {
                &&& after.wf()
                &&& ledger.total(token) + sum(declared(credits@)) <= u128::MAX
                &&& credits_added(ledger@, after@, token, credits@)
            },
            Err(e) => e == Error::Overflow && ledger.total(token) + sum(declared(credits@))
                > u128::MAX,
        },
{
    let ghost start = ledger@;
    let mut current = ledger;
    let mut i: usize = 0;
    proof {
        assert forall|a: AccountId| #[trigger]
            sum(amounts_for(credits@, a).take(0)) == 0 by {
            assert(amounts_for(credits@, a).take(0) =~= Seq::<int>::empty());
        }
        assert(declared(credits@).take(0) =~= Seq::<int>::empty());
        assert(credits@.take(0) =~= Seq::<FreeBalanceInfo>::empty());
    }
    while i < credits.len()
        invariant
            i <= credits.len(),
            current.wf(),
            start == ledger@,
            credited_all(start, token, credits@.take(i as int)) == Ok::<Seq<Holding>, Error>(
                current@,
            ),
            forall|a: AccountId|
                #[trigger] balance_in(current@, a, token) == balance_in(start, a, token) + sum(
                    amounts_for(credits@, a).take(i as int),
                ),
            forall|a: AccountId, t: Token|
                t != token ==> #[trigger] balance_in(current@, a, t) == balance_in(start, a, t),
            forall|t: Token|
                #[trigger] total_in(current@, t) == total_in(start, t) + if t == token {
                    sum(declared(credits@).take(i as int))
                } else {
                    0
                },
        decreases credits.len() - i,
    {
        let credit = credits[i];
        let ghost before = current@;
        proof {
            assert(credits@.take(i + 1).drop_last() =~= credits@.take(i as int));
            lemma_credited_all_fails_on(start, token, credits@, i + 1);
            lemma_sum_take_next(declared(credits@), i as int);
            lemma_sum_prefix_at_most(declared(credits@), i + 1);
            assert(total_in(before, token) == total_in(start, token) + sum(
                declared(credits@).take(i as int),
            ));
        }
        match current.issue(token, credit.who, credit.free) {
            Ok(()) => {},
            Err(_) => {
                proof {
                    assert(credits@.take(i + 1).last() == credit);
                    assert(credit_step(before, token, credit) == Err::<Seq<Holding>, Error>(
                        Error::Overflow,
                    ));
                    assert(declared(credits@)[i as int] == credit.free);
                }
                return Err(Error::Overflow);
            },
        }
        proof {
            assert(credits@.take(i + 1).last() == credit);
        }
        proof {
            assert forall|a: AccountId|
                #[trigger] balance_in(current@, a, token) == balance_in(start, a, token) + sum(
                    amounts_for(credits@, a).take(i + 1),
                ) by {
                lemma_sum_take_next(amounts_for(credits@, a), i as int);
                assert(balance_in(before, a, token) == balance_in(start, a, token) + sum(
                    amounts_for(credits@, a).take(i as int),
                ));
            }
            assert forall|a: AccountId, t: Token| t != token implies #[trigger] balance_in(
                current@,
                a,
                t,
            ) == balance_in(start, a, t) by {
                assert(balance_in(before, a, t) == balance_in(start, a, t));
            }
            assert forall|t: Token|
                #[trigger] total_in(current@, t) == total_in(start, t) + if t == token {
                    sum(declared(credits@).take(i + 1))
                } else {
                    0
                } by {
                assert(total_in(before, t) == total_in(start, t) + if t == token {
                    sum(declared(credits@).take(i as int))
                } else {
                    0
                });
            }
        }
        i += 1;
    }
    proof {
        assert(credits@.take(i as int) =~= credits@);
        assert(declared(credits@).take(i as int) =~= declared(credits@));
        assert forall|a: AccountId|
            #[trigger] balance_in(current@, a, token) == balance_in(start, a, token) + sum(
                amounts_for(credits@, a),
            ) by {
            assert(amounts_for(credits@, a).take(i as int) =~= amounts_for(credits@, a));
            assert(balance_in(current@, a, token) == balance_in(start, a, token) + sum(
                amounts_for(credits@, a).take(i as int),
            ));
        }
        assert(total_in(current@, token) == total_in(start, token) + sum(
            declared(credits@).take(i as int),
        ));
    }
    Ok(current)
}

/// The ledger after the balances of all outside assets were credited, one
/// asset after the other.
pub open spec fn assets_imported(holdings: Seq<Holding>, xassets: Seq<XAssetsParams>) -> Result<
    Seq<Holding>,
    Error,
>
    decreases xassets.len(),
{
    if xassets.len() == 0 {
        Ok(holdings)
    } else {
        match assets_imported(holdings, xassets.drop_last()) {
            Ok(so_far) => if xassets.last().asset == NATIVE_TOKEN {
                Err(Error::NotSupported)
            } else {
                credited_all(so_far, xassets.last().asset, xassets.last().balances@)
            },
            Err(e) => Err(e),
        }
    }
}

/// The weight records after the weights of all outside assets were set,
/// one asset after the other.
pub open spec fn miners_imported(
    store: (Seq<ProfileEntry>, Seq<DepositEntry>),
    xmining: Seq<XMiningAssetParams>,
    now: BlockNumber,
) -> Result<(Seq<ProfileEntry>, Seq<DepositEntry>), Error>
    decreases xmining.len(),
{
    if xmining.len() == 0 {
        Ok(store)
    } else {
        match miners_imported(store, xmining.drop_last(), now) {
            Ok(so_far) => if xmining.last().asset == NATIVE_TOKEN {
                Err(Error::NotSupported)
            } else {
                Ok(
                    (
                        with_profile(
                            so_far.0,
                            xmining.last().asset,
                            forced_profile_in(
                                so_far.0,
                                xmining.last().asset,
                                xmining.last().weight,
                                now,
                            ),
                        ),
                        xmining_asset::with_miners(
                            so_far.1,
                            xmining.last().asset,
                            xmining.last().miners@,
                            now,
                        ),
                    ),
                )
            },
            Err(e) => Err(e),
        }
    }
}

/// Once the assets of a front part have failed, the whole list fails in the
/// same way.
pub proof fn lemma_assets_imported_fails_on(
    holdings: Seq<Holding>,
    xassets: Seq<XAssetsParams>,
    i: int,
)
    requires
        0 <= i <= xassets.len(),
    ensures
        assets_imported(holdings, xassets.take(i)) matches Err(e) ==> assets_imported(
            holdings,
            xassets,
        ) == Err::<Seq<Holding>, Error>(e),
    decreases xassets.len() - i,
{
    if i == xassets.len() {
        assert(xassets.take(i) =~= xassets);
    } else {
        assert(xassets.take(i + 1).drop_last() =~= xassets.take(i));
        lemma_assets_imported_fails_on(holdings, xassets, i + 1);
    }
}

/// Once the weights of a front part have failed, the whole list fails in
/// the same way.
pub proof fn lemma_miners_imported_fails_on(
    store: (Seq<ProfileEntry>, Seq<DepositEntry>),
    xmining: Seq<XMiningAssetParams>,
    now: BlockNumber,
    i: int,
)
    requires
        0 <= i <= xmining.len(),
    ensures
        miners_imported(store, xmining.take(i), now) matches Err(e) ==> miners_imported(
            store,
            xmining,
            now,
        ) == Err::<(Seq<ProfileEntry>, Seq<DepositEntry>), Error>(e),
    decreases xmining.len() - i,
{
    if i == xmining.len() {
        assert(xmining.take(i) =~= xmining);
    } else {
        assert(xmining.take(i + 1).drop_last() =~= xmining.take(i));
        lemma_miners_imported_fails_on(store, xmining, now, i + 1);
    }
}

/// The state that the import builds, with what the import has to report:
/// the validators whose cached vote weight is not the sum of the vote
/// weights of their nominators.
pub struct Genesis {
    pub assets: Assets,
    pub staking: Staking,
    pub tokens: Module,
    pub drifted: Vec<AccountId>,
}

/// What the import of a snapshot answers: the ledgers it builds, or the
/// reason why it builds none. The four parts are imported in order, each
/// from where the one before left off, starting with nothing.
pub open spec fn migrated(params: AllParams, accounts: StakingAccounts, now: BlockNumber) -> Result<
    (Seq<Holding>, StakingState, (Seq<ProfileEntry>, Seq<DepositEntry>)),
    Error,
> {
    let nothing = Seq::<Holding>::empty();
    let nobody = StakingState {
        validators: Seq::<crate::staking::ValidatorEntry>::empty(),
        nominations: Seq::<crate::staking::NominationEntry>::empty(),
    };
    let unset = (Seq::<ProfileEntry>::empty(), Seq::<DepositEntry>::empty());
    if !balances::resolvable(
        params.balances.free_balances@,
        params.balances.wellknown_accounts,
        accounts,
    ) {
        Err(Error::MissingRewardPot)
    } else {
        match credited_all(
            nothing,
            NATIVE_TOKEN,
            balances::remapped(
                params.balances.free_balances@,
                params.balances.wellknown_accounts,
                accounts,
            ),
        ) {
            Err(e) => Err(e),
            Ok(native) => match assets_imported(native, params.xassets@) {
                Err(e) => Err(e),
                Ok(holdings) => match xstaking::imported(nobody, params.xstaking) {
                    Err(e) => Err(e),
                    Ok(staking) => match miners_imported(unset, params.xmining_asset@, now) {
                        Err(e) => Err(e),
                        Ok(store) => Ok((holdings, staking, store)),
                    },
                },
            },
        }
    }
}

/// Builds the state from the snapshot, starting with nothing.
///
/// Either every part of the snapshot is imported or no state is handed
/// out. In the state that is handed out, the total of the chain's own asset
/// is the sum of the balances that the snapshot declares for it: the
/// remapping of accounts makes nothing and loses nothing.
#[verifier::loop_isolation(false)]
pub fn run_migration(params: &AllParams, accounts: &StakingAccounts, now: BlockNumber) -> (result:
    Result<Genesis, Error>)
    ensures
        match migrated(*params, *accounts, now) {
            Ok(state) => result matches Ok(genesis) && genesis.assets@ == state.0
                && genesis.staking@ == state.1 && genesis.tokens.profiles() == state.2.0
                && genesis.tokens.records() == state.2.1,
            Err(e) => result matches Err(err) && err == e,
        },
        result matches Ok(genesis) ==> {
            &&& genesis.assets.wf()
            &&& genesis.staking.wf()
            &&& genesis.tokens.wf()
            &&& genesis.assets.total(NATIVE_TOKEN) == sum(
                declared(params.balances.free_balances@),
            )
            &&& genesis.drifted@ == xstaking::drifted_in(
                genesis.staking@,
                params.xstaking.validators@,
            )
        },
        result matches Err(e) ==> {
            ||| e == Error::MissingRewardPot
            ||| e == Error::Overflow
            ||| e == Error::NotSupported
            ||| e == Error::DuplicateValidator
        },
{
    let (native, credited) = match balances::initialize(&params.balances, accounts, Assets::new()) {
        Ok(done) => done,
        Err(e) => {
            return Err(e);
        },
    };
    let ghost native_view = native@;
    let mut assets = native;
    let mut i: usize = 0;
    proof {
        assert(params.xassets@.take(0) =~= Seq::<XAssetsParams>::empty());
    }
    while i < params.xassets.len()
        invariant
            i <= params.xassets.len(),
            assets.wf(),
            assets_imported(native_view, params.xassets@.take(i as int)) == Ok::<
                Seq<Holding>,
                Error,
            >(assets@),
            total_in(assets@, NATIVE_TOKEN) == total_in(native_view, NATIVE_TOKEN),
        decreases params.xassets.len() - i,
    {
        proof {
            assert(params.xassets@.take(i + 1).drop_last() =~= params.xassets@.take(i as int));
            assert(params.xassets@.take(i + 1).last() == params.xassets@[i as int]);
            lemma_assets_imported_fails_on(native_view, params.xassets@, i + 1);
        }
        assets = match xassets::initialize(&params.xassets[i], assets) {
            Ok(after) => after,
            Err(e) => {
                return Err(e);
            },
        };
        i += 1;
    }
    proof {
        assert(params.xassets@.take(i as int) =~= params.xassets@);
    }
    let staking = match xstaking::initialize(&params.xstaking, Staking::new()) {
        Ok(after) => after,
        Err(e) => {
            return Err(e);
        },
    };
    let ghost unset = (Seq::<ProfileEntry>::empty(), Seq::<DepositEntry>::empty());
    let mut tokens = Module::new();
    let mut k: usize = 0;
    proof {
        assert(params.xmining_asset@.take(0) =~= Seq::<XMiningAssetParams>::empty());
    }
    while k < params.xmining_asset.len()
        invariant
            k <= params.xmining_asset.len(),
            tokens.wf(),
            miners_imported(unset, params.xmining_asset@.take(k as int), now) == Ok::<
                (Seq<ProfileEntry>, Seq<DepositEntry>),
                Error,
            >((tokens.profiles(), tokens.records())),
        decreases params.xmining_asset.len() - k,
    {
        proof {
            assert(params.xmining_asset@.take(k + 1).drop_last() =~= params.xmining_asset@.take(
                k as int,
            ));
            assert(params.xmining_asset@.take(k + 1).last() == params.xmining_asset@[k as int]);
            lemma_miners_imported_fails_on(unset, params.xmining_asset@, now, k + 1);
        }
        tokens = match xmining_asset::initialize(&params.xmining_asset[k], now, tokens) {
            Ok(after) => after,
            Err(e) => {
                return Err(e);
            },
        };
        k += 1;
    }
    proof {
        assert(params.xmining_asset@.take(k as int) =~= params.xmining_asset@);
    }
    let drifted = xstaking::drifted_validators(&staking, &params.xstaking.validators);
    Ok(Genesis { assets, staking, tokens, drifted })
}

} // verus!
