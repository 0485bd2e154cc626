//! Sums of integer sequences, and the wide products that reward shares and
//! valuations are cut from.

use vstd::prelude::*;
use crate::primitives::Balance;
use vstd::arithmetic::div_mod::{
    lemma_div_is_ordered,
    lemma_div_multiples_vanish,
    lemma_fundamental_div_mod,
    lemma_fundamental_div_mod_converse,
    lemma_mod_bound,
};

verus! {

/// The sum of a sequence of integers.
pub open spec fn sum(s: Seq<int>) -> int
    decreases s.len(),
{
    if s.len() == 0 {
        0
    } else {
        sum(s.drop_last()) + s.last()
    }
}

/// Appending a term adds it to the sum.
pub proof fn lemma_sum_push(s: Seq<int>, x: int)
    ensures
        sum(s.push(x)) == sum(s) + x,
{
    assert(s.push(x).drop_last() =~= s);
}

/// Replacing one term changes the sum by the difference of the two.
pub proof fn lemma_sum_update(s: Seq<int>, i: int, x: int)
    requires
        0 <= i < s.len(),
    ensures
        sum(s.update(i, x)) == sum(s) - s[i] + x,
    decreases s.len(),
{
    if i == s.len() - 1 {
        assert(s.update(i, x).drop_last() =~= s.drop_last());
    } else {
        lemma_sum_update(s.drop_last(), i, x);
        assert(s.update(i, x).drop_last() =~= s.drop_last().update(i, x));
    }
}

/// Taking one more term from the front adds that term.
pub proof fn lemma_sum_take_next(s: Seq<int>, i: int)
    requires
        0 <= i < s.len(),
    ensures
        sum(s.take(i + 1)) == sum(s.take(i)) + s[i],
{
    assert(s.take(i + 1).drop_last() =~= s.take(i));
}

/// A sum of terms between `lo` and `hi` lies between the two bounds taken
/// once per term.
pub proof fn lemma_sum_bounds(s: Seq<int>, lo: int, hi: int)
    requires
        forall|i: int| 0 <= i < s.len() ==> lo <= #[trigger] s[i] <= hi,
    ensures
        s.len() * lo <= sum(s) <= s.len() * hi,
    decreases s.len(),
{
    if s.len() > 0 {
        let front = s.drop_last();
        assert forall|i: int| 0 <= i < front.len() implies lo <= #[trigger] front[i] <= hi by {
            assert(front[i] == s[i]);
        }
        lemma_sum_bounds(front, lo, hi);
        let n = front.len() as int;
        assert((n + 1) * lo == n * lo + lo && (n + 1) * hi == n * hi + hi) by (nonlinear_arith);
    }
}

/// In a sum of terms that are not negative, no term exceeds the sum.
pub proof fn lemma_sum_dominates_term(s: Seq<int>, i: int)
    requires
        forall|j: int| 0 <= j < s.len() ==> 0 <= #[trigger] s[j],
        0 <= i < s.len(),
    ensures
        0 <= s[i] <= sum(s),
    decreases s.len(),
{
    let front = s.drop_last();
    assert forall|j: int| 0 <= j < front.len() implies 0 <= #[trigger] front[j] by {
        assert(front[j] == s[j]);
    }
    if i < s.len() - 1 {
        lemma_sum_dominates_term(front, i);
    } else {
        lemma_sum_nonnegative(front);
    }
}

/// A sum of terms that are not negative is not negative.
pub proof fn lemma_sum_nonnegative(s: Seq<int>)
    requires
        forall|j: int| 0 <= j < s.len() ==> 0 <= #[trigger] s[j],
    ensures
        0 <= sum(s),
    decreases s.len(),
{
    if s.len() > 0 {
        let front = s.drop_last();
        assert forall|j: int| 0 <= j < front.len() implies 0 <= #[trigger] front[j] by {
            assert(front[j] == s[j]);
        }
        lemma_sum_nonnegative(front);
    }
}

/// Where each term of `c` is the term of `a` plus `n` times the term of `b`,
/// the sums stand in the same relation.
pub proof fn lemma_sum_linear(a: Seq<int>, b: Seq<int>, c: Seq<int>, n: int)
    requires
        a.len() == b.len(),
        a.len() == c.len(),
        forall|i: int| 0 <= i < c.len() ==> #[trigger] c[i] == a[i] + n * b[i],
    ensures
        sum(c) == sum(a) + n * sum(b),
    decreases c.len(),
{
    if c.len() > 0 {
        let last = c.len() - 1;
        assert(c[last] == a[last] + n * b[last]);
        assert forall|i: int| 0 <= i < c.drop_last().len() implies #[trigger] c.drop_last()[i]
            == a.drop_last()[i] + n * b.drop_last()[i] by {
            assert(c[i] == a[i] + n * b[i]);
        }
        lemma_sum_linear(a.drop_last(), b.drop_last(), c.drop_last(), n);
        assert(n * (sum(b.drop_last()) + b[last]) == n * sum(b.drop_last()) + n * b[last])
            by (nonlinear_arith);
    } else {
        assert(n * 0 == 0);
    }
}

/// With terms that are not negative, the sum of a front part does not
/// exceed the sum of the whole.
pub proof fn lemma_sum_prefix_at_most(s: Seq<int>, i: int)
    requires
        forall|j: int| 0 <= j < s.len() ==> 0 <= #[trigger] s[j],
        0 <= i <= s.len(),
    ensures
        0 <= sum(s.take(i)) <= sum(s),
    decreases s.len() - i,
{
    if i == s.len() {
        assert(s.take(i) =~= s);
        lemma_sum_nonnegative(s);
    } else {
        lemma_sum_prefix_at_most(s, i + 1);
        lemma_sum_take_next(s, i);
        let front = s.take(i);
        assert forall|j: int| 0 <= j < front.len() implies 0 <= #[trigger] front[j] by {
            assert(front[j] == s[j]);
        }
        lemma_sum_nonnegative(front);
    }
}

/// Two to the power of 64: the weight of the upper half of a 128-bit number.
pub const LIMB: u128 = 0x1_0000_0000_0000_0000;

/// `value * numerator / denominator`, rounded down, for a numerator that
/// does not exceed the denominator. The product is never formed in 128 bits:
/// the value is cut in two halves, and each half is multiplied and divided
/// on its own.
fn scale_down(value: u128, numerator: u64, denominator: u64) -> (scaled: u128)
    requires
        denominator > 0,
        numerator <= denominator,
    ensures
        scaled == (value * numerator) / (denominator as int),
        scaled <= value,
{
    let m: u128 = numerator as u128;
    let g: u128 = denominator as u128;
    let upper: u128 = value / LIMB;
    let lower: u128 = value % LIMB;
    proof {
        lemma_half_product(upper, numerator);
        lemma_half_product(lower, numerator);
    }
    let upper_product: u128 = upper * m;
    let lower_product: u128 = lower * m;
    let q_upper: u128 = upper_product / g;
    let r_upper: u128 = upper_product % g;
    let q_lower: u128 = lower_product / g;
    let r_lower: u128 = lower_product % g;
    let carried: u128 = r_upper * LIMB + r_lower;
    let q_carried: u128 = carried / g;
    proof {
        let r_carried = carried as int % g as int;
        lemma_fundamental_div_mod(upper_product as int, g as int);
        lemma_fundamental_div_mod(lower_product as int, g as int);
        lemma_fundamental_div_mod(carried as int, g as int);
        lemma_mod_bound(carried as int, g as int);
        lemma_scaled_parts(
            value as int,
            m as int,
            g as int,
            upper as int,
            lower as int,
            q_upper as int,
            r_upper as int,
            q_lower as int,
            r_lower as int,
            q_carried as int,
            r_carried,
        );
        let quotient = q_upper * LIMB + q_lower + q_carried;
        lemma_fundamental_div_mod_converse(value * m, g as int, quotient, r_carried);
        lemma_scaled_at_most(value as int, m as int, g as int);
    }
    q_upper * LIMB + q_lower + q_carried
}

proof fn lemma_half_product(half: u128, factor: u64)
    requires
        half < LIMB,
    ensures
        0 <= half * factor <= u128::MAX,
{
    assert(0 <= half * factor <= (LIMB - 1) * (LIMB - 1)) by (nonlinear_arith)
        requires
            0 <= half <= LIMB - 1,
            0 <= factor <= LIMB - 1,
    ;
}

proof fn lemma_scaled_parts(
    value: int,
    m: int,
    g: int,
    upper: int,
    lower: int,
    q_upper: int,
    r_upper: int,
    q_lower: int,
    r_lower: int,
    q_carried: int,
    r_carried: int,
)
    requires
        value == upper * LIMB + lower,
        upper * m == g * q_upper + r_upper,
        lower * m == g * q_lower + r_lower,
        r_upper * LIMB + r_lower == g * q_carried + r_carried,
    ensures
        value * m == (q_upper * LIMB + q_lower + q_carried) * g + r_carried,
{
    assert(value * m == (upper * m) * LIMB + lower * m) by (nonlinear_arith)
        requires
            value == upper * LIMB + lower,
    ;
    assert((g * q_upper + r_upper) * LIMB + (g * q_lower + r_lower) == (q_upper * LIMB + q_lower)
        * g + (r_upper * LIMB + r_lower)) by (nonlinear_arith);
    assert((q_upper * LIMB + q_lower) * g + (g * q_carried + r_carried) == (q_upper * LIMB
        + q_lower + q_carried) * g + r_carried) by (nonlinear_arith);
}

proof fn lemma_scaled_at_most(value: int, m: int, g: int)
    requires
        0 <= value,
        0 <= m <= g,
        0 < g,
    ensures
        0 <= (value * m) / g <= value,
{
    assert(0 <= value * m <= g * value) by (nonlinear_arith)
        requires
            0 <= value,
            0 <= m <= g,
    ;
    lemma_div_is_ordered(value * m, g * value, g);
    lemma_div_multiples_vanish(value, g);
    lemma_div_is_ordered(0, value * m, g);
}

/// The share of a pool that a weight earns against the total weight,
/// stretched by a number of blocks, before it is held to the pool's size.
pub open spec fn raw_share(pool: Balance, blocks: u64, weight: u64, total_weight: u64) -> int {
    (pool * blocks * weight) / (total_weight as int)
}

/// The share that is paid out: the raw share, but never more than the pool
/// holds.
pub open spec fn capped_share(pool: Balance, blocks: u64, weight: u64, total_weight: u64) -> int {
    let raw = raw_share(pool, blocks, weight, total_weight);
    if raw > pool {
        pool as int
    } else {
        raw
    }
}

/// Computes the capped share without ever overflowing: where the stretched
/// weight reaches the total, the whole pool is due; below that the pool is
/// scaled down. There is no share where there is no weight to share by.
pub fn proportional_share(pool: Balance, blocks: u64, weight: u64, total_weight: u64) -> (share:
    Option<Balance>)
    ensures
        match share {
            Some(share) => {
                &&& total_weight > 0
                &&& share == capped_share(pool, blocks, weight, total_weight)
                &&& share <= pool
            },
            None => total_weight == 0,
        },
{
    if total_weight == 0 {
        return None;
    }
    proof {
        lemma_half_product(blocks as u128, weight);
    }
    let stretched: u128 = (blocks as u128) * (weight as u128);
    proof {
        assert(pool * blocks * weight == pool * stretched) by (nonlinear_arith)
            requires
                stretched == blocks * weight,
        ;
    }
    if stretched >= total_weight as u128 {
        proof {
            let p = pool as int;
            let s = stretched as int;
            let g = total_weight as int;
            assert(g * p <= p * s) by (nonlinear_arith)
                requires
                    0 <= p,
                    0 < g <= s,
            ;
            lemma_div_is_ordered(g * p, p * s, g);
            lemma_div_multiples_vanish(p, g);
        }
        Some(pool)
    } else {
        Some(scale_down(pool, stretched as u64, total_weight))
    }
}

/// The stake that a holding of `amount` units counts for at `price` per
/// unit: three tenths of its worth, rounded down, before it is held to 128
/// bits.
pub open spec fn exact_discounted_value(price: Balance, amount: Balance) -> int {
    (price * amount * 3) / 10
}

/// The discounted value as it is reported: held at the largest 128-bit
/// value.
pub open spec fn discounted_value_of(price: Balance, amount: Balance) -> Balance {
    let exact = exact_discounted_value(price, amount);
    if exact <= u128::MAX {
        exact as u128
    } else {
        u128::MAX
    }
}

/// Computes the discounted value. Price and amount are each split into tens
/// and units, so that the division by ten is exact on the large part and
/// only a two-digit number is left to round.
pub fn discounted_value(price: Balance, amount: Balance) -> (value: Balance)
    ensures
        value == discounted_value_of(price, amount),
{
    let amount_tens: u128 = amount / 10;
    let amount_units: u128 = amount % 10;
    let price_tens: u128 = price / 10;
    let price_units: u128 = price % 10;
    proof {
        assert(3 * amount_units * price_units <= 243) by (nonlinear_arith)
            requires
                0 <= amount_units < 10,
                0 <= price_units < 10,
        ;
    }
    let small: u128 = (3 * amount_units * price_units) / 10;
    proof {
        lemma_discount_parts(
            price as int,
            amount as int,
            price_tens as int,
            price_units as int,
            amount_tens as int,
            amount_units as int,
        );
        assert(0 <= price * amount_tens && 0 <= amount_units * price_tens) by (nonlinear_arith)
            requires
                0 <= price,
                0 <= amount_tens,
                0 <= amount_units,
                0 <= price_tens,
        ;
    }
    let large: Option<u128> = match price.checked_mul(amount_tens) {
        None => None,
        Some(p) => p.checked_mul(3),
    };
    let middle: Option<u128> = price_tens.checked_mul(3 * amount_units);
    proof {
        assert(price_tens * (3 * amount_units) == 3 * (amount_units * price_tens))
            by (nonlinear_arith);
    }
    match (large, middle) {
        (Some(l), Some(m)) => match l.checked_add(m) {
            None => u128::MAX,
            Some(lm) => match lm.checked_add(small) {
                None => u128::MAX,
                Some(all) => all,
            },
        },
        _ => u128::MAX,
    }
}

proof fn lemma_discount_parts(
    price: int,
    amount: int,
    price_tens: int,
    price_units: int,
    amount_tens: int,
    amount_units: int,
)
    requires
        price == 10 * price_tens + price_units,
        amount == 10 * amount_tens + amount_units,
        0 <= price_units < 10,
        0 <= amount_units < 10,
    ensures
        (price * amount * 3) / 10 == 3 * (price * amount_tens) + 3 * (amount_units * price_tens) + (
        3 * amount_units * price_units) / 10,
{
    let whole = 3 * (price * amount_tens) + 3 * (amount_units * price_tens);
    let rest = 3 * amount_units * price_units;
    assert(price * amount * 3 == 10 * whole + rest) by (nonlinear_arith)
        requires
            price == 10 * price_tens + price_units,
            amount == 10 * amount_tens + amount_units,
            whole == 3 * (price * amount_tens) + 3 * (amount_units * price_tens),
            rest == 3 * amount_units * price_units,
    ;
    assert(0 <= rest <= 243) by (nonlinear_arith)
        requires
            rest == 3 * amount_units * price_units,
            0 <= price_units < 10,
            0 <= amount_units < 10,
    ;
}

} // verus!
