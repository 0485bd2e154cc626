//! Bringing a weight record up to the current block.
//!
//! A record holds the weight accrued up to its last update. Between two
//! updates the holder's balance is constant, so the weight earned since is
//! the balance times the blocks elapsed. The sum is kept in 64 bits and
//! stops at the top of that range.

use vstd::prelude::*;
use crate::primitives::{Balance, BlockNumber, Error, VoteWeight};

verus! {

/// The weight a record would show at `now` if weights were unbounded.
pub open spec fn exact_weight(
    weight: VoteWeight,
    last_update: BlockNumber,
    amount: Balance,
    now: BlockNumber,
) -> int {
    weight + amount * (now - last_update)
}

/// The weight a record shows once settled at `now`: the exact weight, held
/// at the largest value that 64 bits take.
pub open spec fn settled_weight(
    weight: VoteWeight,
    last_update: BlockNumber,
    amount: Balance,
    now: BlockNumber,
) -> VoteWeight {
    let exact = exact_weight(weight, last_update, amount, now);
    if exact <= u64::MAX {
        exact as VoteWeight
    } else {
        u64::MAX
    }
}

/// Whether settling at `now` loses nothing to the 64-bit ceiling.
pub open spec fn settles_exactly(
    weight: VoteWeight,
    last_update: BlockNumber,
    amount: Balance,
    now: BlockNumber,
) -> bool {
    exact_weight(weight, last_update, amount, now) <= u64::MAX
}

/// The weight of a record as of `now`, given the amount that was held ever
/// since the record's last update.
///
/// A block before the last update is rejected: the clock does not run
/// backwards, and a record from the future means that the state is broken.
pub fn latest_acum_weight(
    weight: VoteWeight,
    last_update: BlockNumber,
    amount: Balance,
    now: BlockNumber,
) -> (latest: Result<VoteWeight, Error>)
    ensures
        match latest {
            Ok(settled) => last_update <= now && settled == settled_weight(
                weight,
                last_update,
                amount,
                now,
            ),
            Err(e) => e == Error::ClockWentBackwards && now < last_update,
        },
{
    if now < last_update {
        return Err(Error::ClockWentBackwards);
    }
    let elapsed: u64 = now - last_update;
    let room: u128 = (u64::MAX - weight) as u128;
    proof {
        lemma_elapsed_product(amount, elapsed);
    }
    match amount.checked_mul(elapsed as u128) {
        None => Ok(u64::MAX),
        Some(earned) => {
            if earned > room {
                Ok(u64::MAX)
            } else {
                Ok(weight + (earned as u64))
            }
        },
    }
}

proof fn lemma_elapsed_product(amount: Balance, elapsed: u64)
    ensures
        0 <= amount * elapsed,
        amount * (elapsed as u128) == amount * elapsed,
        elapsed == 0 ==> amount * elapsed == 0,
{
    assert(0 <= amount * elapsed) by (nonlinear_arith)
        requires
            0 <= amount,
            0 <= elapsed,
    ;
}

/// Settling never takes weight away.
pub proof fn lemma_settle_never_decreases(
    weight: VoteWeight,
    last_update: BlockNumber,
    amount: Balance,
    now: BlockNumber,
)
    requires
        last_update <= now,
    ensures
        settled_weight(weight, last_update, amount, now) >= weight,
{
    lemma_elapsed_product(amount, (now - last_update) as u64);
}

/// Settling at the block of the last update changes nothing, whatever amount
/// is held.
pub proof fn lemma_settle_same_block(weight: VoteWeight, block: BlockNumber, amount: Balance)
    ensures
        settled_weight(weight, block, amount, block) == weight,
{
    lemma_elapsed_product(amount, 0);
}

/// Settling twice at the same block gives what settling once gives: the
/// first pass moves the last update to `now`, and the second then finds no
/// blocks elapsed.
pub proof fn lemma_settle_idempotent(
    weight: VoteWeight,
    last_update: BlockNumber,
    amount: Balance,
    later_amount: Balance,
    now: BlockNumber,
)
    requires
        last_update <= now,
    ensures
        settled_weight(
            settled_weight(weight, last_update, amount, now),
            now,
            later_amount,
            now,
        ) == settled_weight(weight, last_update, amount, now),
{
    lemma_settle_same_block(settled_weight(weight, last_update, amount, now), now, later_amount);
}

/// A later settlement shows at least the weight of an earlier one, for a
/// balance that did not change in between.
pub proof fn lemma_settle_monotonic_in_time(
    weight: VoteWeight,
    last_update: BlockNumber,
    amount: Balance,
    earlier: BlockNumber,
    later: BlockNumber,
)
    requires
        last_update <= earlier <= later,
    ensures
        settled_weight(weight, last_update, amount, earlier) <= settled_weight(
            weight,
            last_update,
            amount,
            later,
        ),
{
    let a = amount as int;
    let e1 = earlier - last_update;
    let e2 = later - last_update;
    assert(a * e1 <= a * e2) by (nonlinear_arith)
        requires
            0 <= a,
            0 <= e1 <= e2,
    ;
    assert(0 <= a * e1) by (nonlinear_arith)
        requires
            0 <= a,
            0 <= e1,
    ;
}

} // verus!
