//! The agreement between the two views of an asset's weight.
//!
//! The weight of an asset is accrued twice: once per holder, from the
//! holder's balance, and once for the asset, from its outstanding total.
//! The two are updated at different blocks, so they cannot be compared as
//! they are stored. What can be compared is what each would show at block
//! zero if the present balance had been held all along: the stored weight
//! minus the balance times the block of the last update. A settlement does
//! not change that number, and a change of balance moves it by the same
//! amount on both sides.

use vstd::prelude::*;
use crate::primitives::{AccountId, Balance, BlockNumber, Token, VoteWeight};
use crate::accrual::{exact_weight, settled_weight, settles_exactly};
use crate::assets::{balance_in, total_in, Holding};
use crate::lookup::{position, lemma_position};
use crate::math::{
    sum,
    lemma_sum_dominates_term,
    lemma_sum_linear,
    lemma_sum_push,
    lemma_sum_update,
};
use crate::store::{
    record_in,
    record_keys,
    touch,
    touched_record,
    DepositEntry,
    PseduIntentionVoteWeight,
};

verus! {

/// The weight that a record would show at block zero if `held` had been
/// held all along.
pub open spec fn offset_of(weight: VoteWeight, last_update: BlockNumber, held: int) -> int {
    weight - held * last_update
}

/// The offsets of the records of `token`, with zero in the place of every
/// record of another asset.
pub open spec fn weight_offsets(
    records: Seq<DepositEntry>,
    holdings: Seq<Holding>,
    token: Token,
) -> Seq<int> {
    Seq::new(
        records.len(),
        |i: int|
            if records[i].token == token {
                offset_of(
                    records[i].weight.last_deposit_weight,
                    records[i].weight.last_deposit_weight_update,
                    balance_in(holdings, records[i].who, token) as int,
                )
            } else {
                0
            },
    )
}

/// The balances behind the records of `token`, with zero in the place of
/// every record of another asset.
pub open spec fn held_amounts(
    records: Seq<DepositEntry>,
    holdings: Seq<Holding>,
    token: Token,
) -> Seq<int> {
    Seq::new(
        records.len(),
        |i: int|
            if records[i].token == token {
                balance_in(holdings, records[i].who, token) as int
            } else {
                0
            },
    )
}

/// The weights that the records of `token` show once settled at `now`, with
/// zero in the place of every record of another asset.
pub open spec fn settled_weights(
    records: Seq<DepositEntry>,
    holdings: Seq<Holding>,
    token: Token,
    now: BlockNumber,
) -> Seq<int> {
    Seq::new(
        records.len(),
        |i: int|
            if records[i].token == token {
                settled_weight(
                    records[i].weight.last_deposit_weight,
                    records[i].weight.last_deposit_weight_update,
                    balance_in(holdings, records[i].who, token),
                    now,
                ) as int
            } else {
                0
            },
    )
}

/// The per-account records of `token` agree with the asset's record:
/// the offsets of the accounts add up to the offset of the asset, the
/// balances behind the records add up to the outstanding total, and nobody
/// holds the asset without a record.
pub open spec fn consistent_in(
    records: Seq<DepositEntry>,
    profile: PseduIntentionVoteWeight,
    holdings: Seq<Holding>,
    token: Token,
) -> bool {
    &&& sum(weight_offsets(records, holdings, token)) == offset_of(
        profile.last_total_deposit_weight,
        profile.last_total_deposit_weight_update,
        total_in(holdings, token),
    )
    &&& sum(held_amounts(records, holdings, token)) == total_in(holdings, token)
    &&& forall|who: AccountId|
        record_in(records, who, token) is None ==> #[trigger] balance_in(holdings, who, token)
            == 0
}

/// No record of `token` was last updated after `now`.
pub open spec fn all_updated_by(
    records: Seq<DepositEntry>,
    token: Token,
    now: BlockNumber,
) -> bool {
    forall|i: int|
        0 <= i < records.len() && (#[trigger] records[i]).token == token
            ==> records[i].weight.last_deposit_weight_update <= now
}

/// Agreement is a matter of the balances and the total of the asset alone:
/// two ledgers that show the same of both are in agreement with the same
/// records.
pub proof fn lemma_consistency_reads_balances(
    records: Seq<DepositEntry>,
    profile: PseduIntentionVoteWeight,
    first: Seq<Holding>,
    second: Seq<Holding>,
    token: Token,
)
    requires
        consistent_in(records, profile, first, token),
        forall|a: AccountId| #[trigger] balance_in(second, a, token) == balance_in(first, a, token),
        total_in(second, token) == total_in(first, token),
    ensures
        consistent_in(records, profile, second, token),
{
    assert(weight_offsets(records, second, token) =~= weight_offsets(records, first, token));
    assert(held_amounts(records, second, token) =~= held_amounts(records, first, token));
}

/// Touching an account leaves its offset where it was, as long as the
/// ceiling is not reached.
proof fn lemma_offset_after_settling(
    weight: VoteWeight,
    last_update: BlockNumber,
    held: Balance,
    now: BlockNumber,
    delta: int,
)
    requires
        last_update <= now,
        settles_exactly(weight, last_update, held, now),
    ensures
        offset_of(settled_weight(weight, last_update, held, now), now, held + delta) == offset_of(
            weight,
            last_update,
            held as int,
        ) - delta * now,
{
    let h = held as int;
    let n = now as int;
    let u = last_update as int;
    assert(h * (n - u) - (h + delta) * n == -(h * u) - delta * n) by (nonlinear_arith);
    assert(0 <= h * (n - u)) by (nonlinear_arith)
        requires
            0 <= h,
            0 <= n - u,
    ;
}

/// One balance change, settled first on both sides, keeps the two views in
/// agreement.
///
/// `after` is the ledger once the balance of `who` in `token` has changed by
/// `delta`; nothing else of this asset has changed. The records are those
/// after `who` was touched at `now` and the asset's record was settled at
/// `now`, each with the amounts from before the change.
pub proof fn lemma_change_keeps_consistency(
    records: Seq<DepositEntry>,
    profile: PseduIntentionVoteWeight,
    before: Seq<Holding>,
    after: Seq<Holding>,
    who: AccountId,
    token: Token,
    now: BlockNumber,
    delta: int,
)
    requires
        record_keys(records).no_duplicates(),
        consistent_in(records, profile, before, token),
        total_in(before, token) <= u128::MAX,
        record_in(records, who, token) matches Some(record) ==> {
            &&& record.last_deposit_weight_update <= now
            &&& settles_exactly(
                record.last_deposit_weight,
                record.last_deposit_weight_update,
                balance_in(before, who, token),
                now,
            )
        },
        profile.last_total_deposit_weight_update <= now,
        settles_exactly(
            profile.last_total_deposit_weight,
            profile.last_total_deposit_weight_update,
            total_in(before, token) as Balance,
            now,
        ),
        forall|a: AccountId|
            #[trigger] balance_in(after, a, token) == if a == who {
                balance_in(before, a, token) + delta
            } else {
                balance_in(before, a, token) as int
            },
        total_in(after, token) == total_in(before, token) + delta,
    ensures
        consistent_in(
            touch(records, who, token, balance_in(before, who, token), now),
            profile.settled(total_in(before, token) as Balance, now),
            after,
            token,
        ),
{
    let held = balance_in(before, who, token);
    let outstanding = total_in(before, token) as Balance;
    let keys = record_keys(records);
    let touched = touch(records, who, token, held, now);
    let settled = profile.settled(outstanding, now);
    let offsets = weight_offsets(records, before, token);
    let amounts = held_amounts(records, before, token);
    let weight = touched_record(records, who, token, held, now);
    let term = offset_of(weight.last_deposit_weight, now, held + delta);
    lemma_position(keys, (who, token));
    crate::assets::lemma_balance_within_total(before, who, token);
    lemma_offset_after_settling(
        profile.last_total_deposit_weight,
        profile.last_total_deposit_weight_update,
        outstanding,
        now,
        delta,
    );
    assert forall|j: int|
        0 <= j < records.len() && records[j].token == token && records[j].who
            != who implies balance_in(after, records[j].who, token) == balance_in(
        before,
        records[j].who,
        token,
    ) by {}
    match position(keys, (who, token)) {
        Some(i) => {
            let record = records[i].weight;
            assert(keys[i] == (who, token));
            lemma_offset_after_settling(
                record.last_deposit_weight,
                record.last_deposit_weight_update,
                held,
                now,
                delta,
            );
            assert forall|j: int| 0 <= j < records.len() && j != i implies !(records[j].who
                == who && records[j].token == token) by {
                assert(keys[j] != keys[i]);
            }
            assert(weight_offsets(touched, after, token) =~= offsets.update(i, term));
            assert(held_amounts(touched, after, token) =~= amounts.update(i, held + delta));
            lemma_sum_update(offsets, i, term);
            lemma_sum_update(amounts, i, held + delta);
            assert(record_keys(touched) =~= keys);
        },
        None => {
            assert(held == 0);
            assert forall|j: int| 0 <= j < records.len() implies !(records[j].who == who
                && records[j].token == token) by {
                assert(keys[j] != (who, token));
            }
            assert(weight_offsets(touched, after, token) =~= offsets.push(term));
            assert(held_amounts(touched, after, token) =~= amounts.push(held + delta));
            lemma_sum_push(offsets, term);
            lemma_sum_push(amounts, held + delta);
            assert(0 * (now as int) == 0);
        },
    }
    crate::store::lemma_with_record(records, who, token, weight);
    assert forall|a: AccountId| record_in(touched, a, token) is None implies #[trigger] balance_in(
        after,
        a,
        token,
    ) == 0 by {
        assert(a != who);
        assert(record_in(records, a, token) is None);
        assert(balance_in(before, a, token) == 0);
    }
}

/// Where the two views agree, settling every record of the asset and the
/// asset's own record at one block gives the same weight on both sides: the
/// settled weights of the accounts add up to the settled weight of the
/// asset. This holds at every block that no record has passed, as long as
/// the asset's weight stays below the ceiling.
pub proof fn lemma_settled_sums_agree(
    records: Seq<DepositEntry>,
    profile: PseduIntentionVoteWeight,
    holdings: Seq<Holding>,
    token: Token,
    now: BlockNumber,
)
    requires
        consistent_in(records, profile, holdings, token),
        total_in(holdings, token) <= u128::MAX,
        all_updated_by(records, token, now),
        profile.last_total_deposit_weight_update <= now,
        settles_exactly(
            profile.last_total_deposit_weight,
            profile.last_total_deposit_weight_update,
            total_in(holdings, token) as Balance,
            now,
        ),
    ensures
        sum(settled_weights(records, holdings, token, now)) == settled_weight(
            profile.last_total_deposit_weight,
            profile.last_total_deposit_weight_update,
            total_in(holdings, token) as Balance,
            now,
        ),
{
    let n = now as int;
    let offsets = weight_offsets(records, holdings, token);
    let amounts = held_amounts(records, holdings, token);
    crate::assets::lemma_balance_within_total(holdings, 0, token);
    let exact = Seq::new(
        records.len(),
        |i: int|
            if records[i].token == token {
                exact_weight(
                    records[i].weight.last_deposit_weight,
                    records[i].weight.last_deposit_weight_update,
                    balance_in(holdings, records[i].who, token),
                    now,
                )
            } else {
                0
            },
    );
    assert forall|i: int| 0 <= i < exact.len() implies #[trigger] exact[i] == offsets[i] + n
        * amounts[i] && 0 <= exact[i] by {
        if records[i].token == token {
            let h = balance_in(holdings, records[i].who, token) as int;
            let u = records[i].weight.last_deposit_weight_update as int;
            assert(h * (n - u) == n * h - h * u) by (nonlinear_arith);
            assert(0 <= h * (n - u)) by (nonlinear_arith)
                requires
                    0 <= h,
                    0 <= n - u,
            ;
        } else {
            assert(n * 0 == 0);
        }
    }
    lemma_sum_linear(offsets, amounts, exact, n);
    let outstanding = total_in(holdings, token);
    let started = profile.last_total_deposit_weight_update as int;
    assert(outstanding * (n - started) == n * outstanding - outstanding * started)
        by (nonlinear_arith);
    assert(sum(exact) == exact_weight(
        profile.last_total_deposit_weight,
        profile.last_total_deposit_weight_update,
        outstanding as Balance,
        now,
    ));
    let settled = settled_weights(records, holdings, token, now);
    assert forall|i: int| 0 <= i < settled.len() implies settled[i] == exact[i] by {
        lemma_sum_dominates_term(exact, i);
    }
    assert(settled =~= exact);
}

/// With no record and nothing outstanding, a record that has never accrued
/// agrees with the empty list of accounts.
pub proof fn lemma_unheld_asset_is_consistent(
    records: Seq<DepositEntry>,
    holdings: Seq<Holding>,
    token: Token,
    update: BlockNumber,
    jackpot: Balance,
)
    requires
        total_in(holdings, token) == 0,
        forall|i: int| 0 <= i < records.len() ==> (#[trigger] records[i]).token != token,
    ensures
        consistent_in(
            records,
            PseduIntentionVoteWeight {
                jackpot,
                last_total_deposit_weight: 0,
                last_total_deposit_weight_update: update,
            },
            holdings,
            token,
        ),
{
    let offsets = weight_offsets(records, holdings, token);
    let amounts = held_amounts(records, holdings, token);
    assert forall|i: int| 0 <= i < offsets.len() implies 0 <= #[trigger] offsets[i] <= 0 by {
        assert(records[i].token != token);
    }
    assert forall|i: int| 0 <= i < amounts.len() implies 0 <= #[trigger] amounts[i] <= 0 by {
        assert(records[i].token != token);
    }
    crate::math::lemma_sum_bounds(offsets, 0, 0);
    crate::math::lemma_sum_bounds(amounts, 0, 0);
    assert(offsets.len() * 0 == 0 && amounts.len() * 0 == 0);
    assert(0 * (update as int) == 0);
    assert forall|who: AccountId| #[trigger] balance_in(holdings, who, token) == 0 by {
        crate::assets::lemma_balance_within_total(holdings, who, token);
    }
}

} // verus!
