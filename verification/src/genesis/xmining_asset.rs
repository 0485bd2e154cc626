//! The mining weights of the outside assets.
//!
//! Mining asset initialization only involves the mining weight: the weight
//! of each holder and the weight of the asset are written as the snapshot
//! has them, as of the current block. Nothing is accrued on the way.

use vstd::prelude::*;
use crate::primitives::{BlockNumber, Error, Token, NATIVE_TOKEN};
use crate::genesis::{XBtcMiner, XMiningAssetParams};
use crate::store::{forced_profile_in, with_profile, with_record, DepositEntry, DepositVoteWeight};
use crate::tokens::Module;

verus! {

/// The records after the weight of every miner of the list was set, one
/// after the other, as of `now`.
pub open spec fn with_miners(
    records: Seq<DepositEntry>,
    asset: Token,
    miners: Seq<XBtcMiner>,
    now: BlockNumber,
) -> Seq<DepositEntry>
    decreases miners.len(),
{
    if miners.len() == 0 {
        records
    } else {
        with_record(
            with_miners(records, asset, miners.drop_last(), now),
            miners.last().who,
            asset,
            DepositVoteWeight {
                last_deposit_weight: miners.last().weight,
                last_deposit_weight_update: now,
            },
        )
    }
}

/// Sets the weight of every miner of the asset, and the weight of the
/// asset, as of `now`. An asset that was not registered is registered by
/// this.
///
/// Fails exactly when the asset is the chain's own: that is no outside
/// asset, and a snapshot that lists it as one is not imported.
pub fn initialize(params: &XMiningAssetParams, now: BlockNumber, tokens: Module) -> (result: Result<
    Module,
    Error,
>)
    requires
        tokens.wf(),
    ensures
        match result {
            Ok(after) => {
                &&& params.asset != NATIVE_TOKEN
                &&& after.wf()
                &&& after.records() == with_miners(
                    tokens.records(),
                    params.asset,
                    params.miners@,
                    now,
                )
                &&& after.profiles() == with_profile(
                    tokens.profiles(),
                    params.asset,
                    forced_profile_in(tokens.profiles(), params.asset, params.weight, now),
                )
            },
            Err(e) => e == Error::NotSupported && params.asset == NATIVE_TOKEN,
        },
{
    if params.asset == NATIVE_TOKEN {
        return Err(Error::NotSupported);
    }
    let ghost start = tokens.records();
    let ghost start_profiles = tokens.profiles();
    let mut tokens = tokens;
    let mut i: usize = 0;
    proof {
        assert(params.miners@.take(0) =~= Seq::<XBtcMiner>::empty());
    }
    while i < params.miners.len()
        invariant
            i <= params.miners.len(),
            tokens.wf(),
            tokens.profiles() == start_profiles,
            tokens.records() == with_miners(
                start,
                params.asset,
                params.miners@.take(i as int),
                now,
            ),
        decreases params.miners.len() - i,
    {
        let miner = params.miners[i];
        proof {
            assert(params.miners@.take(i + 1).drop_last() =~= params.miners@.take(i as int));
        }
        tokens.force_set_miner_mining_weight(miner.who, params.asset, miner.weight, now);
        i += 1;
    }
    proof {
        assert(params.miners@.take(i as int) =~= params.miners@);
    }
    tokens.force_set_asset_mining_weight(params.asset, params.weight, now);
    Ok(tokens)
}

} // verus!
