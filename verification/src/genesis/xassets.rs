//! The balances of the outside assets. They carry over account for account.

use vstd::prelude::*;
use crate::primitives::{Error, NATIVE_TOKEN};
use crate::assets::Assets;
use crate::genesis::{credit_all, credited_all, credits_added, declared, XAssetsParams};
use crate::math::sum;

verus! {

/// Credits the balances of one outside asset, each to its own account.
///
/// Fails with `NotSupported` exactly when the asset is the chain's own, and
/// otherwise with `Overflow` exactly when the asset's total would leave 128
/// bits.
pub fn initialize(params: &XAssetsParams, ledger: Assets) -> (result: Result<Assets, Error>)
    requires
        ledger.wf(),
    ensures
        params.asset == NATIVE_TOKEN ==> (result matches Err(e) && e == Error::NotSupported),
        params.asset != NATIVE_TOKEN ==> match credited_all(
            ledger@,
            params.asset,
            params.balances@,
        ) {
            Ok(holdings) => result matches Ok(after) && after@ == holdings,
            Err(e) => result matches Err(err) && err == e && e == Error::Overflow,
        },
        result matches Ok(after) ==> {
            &&& after.wf()
            &&& credits_added(ledger@, after@, params.asset, params.balances@)
        },
        (result matches Err(e) && e == Error::Overflow) ==> ledger.total(params.asset) + sum(
            declared(params.balances@),
        ) > u128::MAX,
{
    if params.asset == NATIVE_TOKEN {
        return Err(Error::NotSupported);
    }
    credit_all(params.asset, &params.balances, ledger)
}

} // verus!
