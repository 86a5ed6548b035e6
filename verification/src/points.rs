//! Normalization primitives: pure functions that map raw counts and durations
//! to a score in `[0, SCALE]` points.
//!
//! Three curves are offered: a clamped ratio (also covering capped counts),
//! a logarithmic magnitude for heavy-tailed counts such as stars and forks,
//! and a recency decay over a lookback window.

use vstd::prelude::*;

use crate::SCALE;

verus! {

/// The smaller of two integers.
pub open spec fn min_int(a: int, b: int) -> int {
    if a < b {
        a
    } else {
        b
    }
}

/// Ratio `num / den` scaled to points and clamped to `[0, SCALE]`.
/// A non-positive denominator yields exactly 0: never divide by zero,
/// never undefined. Capped counts (`count / cap`, capped at one) are the
/// same curve with `cap` as the denominator.
pub open spec fn ratio_points(num: int, den: int) -> int {
    if den <= 0 || num <= 0 {
        0
    } else {
        min_int(SCALE as int, (SCALE as int) * num / den)
    }
}

/// `ratio_points` lands in `[0, SCALE]`.
pub proof fn lemma_ratio_points_bounded(num: int, den: int)
    ensures
        0 <= ratio_points(num, den) <= SCALE,
{
    if den > 0 && num > 0 {
        vstd::arithmetic::div_mod::lemma_div_pos_is_pos((SCALE as int) * num, den);
        vstd::arithmetic::mul::lemma_mul_strictly_positive(SCALE as int, num);
    }
}

/// Computes `ratio_points` exactly, through 128-bit intermediates.
pub fn ratio_points_u64(num: u64, den: u64) -> (r: u64)
    ensures
        r == ratio_points(num as int, den as int),
        r <= SCALE,
{
    if den == 0 || num == 0 {
        0
    } else {
        proof {
            vstd::arithmetic::mul::lemma_mul_upper_bound(
                SCALE as int,
                SCALE as int,
                num as int,
                u64::MAX as int,
            );
        }
        let wide: u128 = (SCALE as u128) * (num as u128) / (den as u128);
        proof {
            vstd::arithmetic::div_mod::lemma_div_pos_is_pos((SCALE as int) * (num as int), den as int);
        }
        if wide >= SCALE as u128 {
            SCALE
        } else {
            wide as u64
        }
    }
}

/// One fractional unit of the fixed-point logarithm: 2^20.
pub const LOG_ONE: u64 = 0x100000;

/// Floor of the base-2 logarithm; 0 for inputs below 2.
pub open spec fn log2_floor(x: int) -> int
    decreases x,
{
    if x < 2 {
        0
    } else {
        1 + log2_floor(x / 2)
    }
}

pub proof fn lemma_log2_floor_nonneg(x: int)
    ensures
        log2_floor(x) >= 0,
    decreases x,
{
    if x >= 2 {
        lemma_log2_floor_nonneg(x / 2);
    }
}

/// For `x >= 1`, `x` lies between consecutive powers of two at `log2_floor(x)`.
pub proof fn lemma_log2_floor_bounds(x: int)
    requires
        x >= 1,
    ensures
        vstd::arithmetic::power2::pow2(log2_floor(x) as nat) <= x < vstd::arithmetic::power2::pow2(
            (log2_floor(x) + 1) as nat,
        ),
    decreases x,
{
    lemma_log2_floor_nonneg(x);
    vstd::arithmetic::power2::lemma_pow2_unfold((log2_floor(x) + 1) as nat);
    if x < 2 {
        vstd::arithmetic::power2::lemma2_to64();
    } else {
        lemma_log2_floor_bounds(x / 2);
        lemma_log2_floor_nonneg(x / 2);
        vstd::arithmetic::power2::lemma_pow2_unfold((log2_floor(x / 2) + 1) as nat);
    }
}

/// One step of the mantissa-squaring recurrence: square a mantissa held in
/// `[LOG_ONE, 2 * LOG_ONE)` fixed point and emit the next fraction bit.
pub open spec fn frac_step(m: int) -> (int, int) {
    let sq = m * m / (LOG_ONE as int);
    if sq >= 2 * (LOG_ONE as int) {
        (sq / 2, 1int)
    } else {
        (sq, 0int)
    }
}

/// The mantissa and accumulated fraction value after `i` squaring steps.
pub open spec fn frac_bits(m: int, i: nat) -> (int, int)
    decreases i,
{
    if i == 0 {
        (m, 0int)
    } else {
        let prev = frac_bits(m, (i - 1) as nat);
        let step = frac_step(prev.0);
        (step.0, 2 * prev.1 + step.1)
    }
}

pub proof fn lemma_frac_step_range(m: int)
    requires
        LOG_ONE <= m < 2 * LOG_ONE,
    ensures
        LOG_ONE <= frac_step(m).0 < 2 * LOG_ONE,
        0 <= frac_step(m).1 <= 1,
{
    let one = LOG_ONE as int;
    assert(m * m >= one * one) by (nonlinear_arith)
        requires
            m >= one > 0,
    ;
    assert(m * m < (4 * one) * one) by (nonlinear_arith)
        requires
            0 < m < 2 * one,
    ;
    assert(m * m / one >= one) by {
        vstd::arithmetic::div_mod::lemma_div_by_multiple(one, one);
        vstd::arithmetic::div_mod::lemma_div_is_ordered(one * one, m * m, one);
    }
    assert(m * m / one < 4 * one) by {
        vstd::arithmetic::div_mod::lemma_multiply_divide_lt(m * m, one, 4 * one);
    }
}

pub proof fn lemma_frac_bits_range(m: int, i: nat)
    requires
        LOG_ONE <= m < 2 * LOG_ONE,
    ensures
        LOG_ONE <= frac_bits(m, i).0 < 2 * LOG_ONE,
        0 <= frac_bits(m, i).1 < vstd::arithmetic::power2::pow2(i),
    decreases i,
{
    if i == 0 {
        vstd::arithmetic::power2::lemma2_to64();
    } else {
        vstd::arithmetic::power2::lemma_pow2_unfold(i);
        lemma_frac_bits_range(m, (i - 1) as nat);
        lemma_frac_step_range(frac_bits(m, (i - 1) as nat).0);
    }
}

/// The input scaled so that its leading bit sits at position 20: a fixed-point
/// mantissa in `[LOG_ONE, 2 * LOG_ONE)` when `x >= 1`.
pub open spec fn normalized_mantissa(x: int) -> int {
    let k = log2_floor(x);
    if k >= 20 {
        x / (vstd::arithmetic::power2::pow2((k - 20) as nat) as int)
    } else {
        x * (vstd::arithmetic::power2::pow2((20 - k) as nat) as int)
    }
}

/// Fixed-point base-2 logarithm with 20 fraction bits: about
/// `log2(x) * LOG_ONE`, and 0 for inputs below 1. The fraction comes from
/// 20 steps of mantissa squaring, so the value is a deterministic function
/// of `x` alone.
pub open spec fn log2_points(x: int) -> int {
    if x < 1 {
        0
    } else {
        log2_floor(x) * (LOG_ONE as int) + frac_bits(normalized_mantissa(x), 20).1
    }
}

/// For `x >= 2` the fixed-point logarithm is at least one whole unit.
pub proof fn lemma_log2_points_at_least_one(x: int)
    requires
        x >= 2,
    ensures
        log2_points(x) >= LOG_ONE,
{
    lemma_log2_floor_nonneg(x / 2);
    assert(log2_floor(x) >= 1);
    let m = normalized_mantissa(x);
    lemma_normalized_mantissa_range(x);
    lemma_frac_bits_range(m, 20);
    vstd::arithmetic::mul::lemma_mul_inequality(1, log2_floor(x), LOG_ONE as int);
}

/// The normalized mantissa of any `x >= 1` lies in `[LOG_ONE, 2 * LOG_ONE)`.
pub proof fn lemma_normalized_mantissa_range(x: int)
    requires
        x >= 1,
    ensures
        LOG_ONE <= normalized_mantissa(x) < 2 * LOG_ONE,
{
    let k = log2_floor(x);
    lemma_log2_floor_nonneg(x);
    lemma_log2_floor_bounds(x);
    let one = LOG_ONE as int;
    vstd::arithmetic::power2::lemma2_to64();
    if k >= 20 {
        let d = vstd::arithmetic::power2::pow2((k - 20) as nat) as int;
        vstd::arithmetic::power2::lemma_pow2_pos((k - 20) as nat);
        vstd::arithmetic::power2::lemma_pow2_adds(20, (k - 20) as nat);
        vstd::arithmetic::power2::lemma_pow2_adds(21, (k - 20) as nat);
        assert(vstd::arithmetic::power2::pow2(k as nat) == one * d);
        assert(vstd::arithmetic::power2::pow2((k + 1) as nat) == (2 * one) * d) by {
            vstd::arithmetic::power2::lemma_pow2_unfold((k + 1) as nat);
            assert(2 * (one * d) == (2 * one) * d) by (nonlinear_arith);
        }
        assert(x / d >= one) by {
            vstd::arithmetic::div_mod::lemma_div_by_multiple(one, d);
            vstd::arithmetic::div_mod::lemma_div_is_ordered(one * d, x, d);
        }
        assert(x / d < 2 * one) by {
            vstd::arithmetic::div_mod::lemma_multiply_divide_lt(x, d, 2 * one);
        }
    } else {
        let f = vstd::arithmetic::power2::pow2((20 - k) as nat) as int;
        vstd::arithmetic::power2::lemma_pow2_pos((20 - k) as nat);
        vstd::arithmetic::power2::lemma_pow2_adds(k as nat, (20 - k) as nat);
        vstd::arithmetic::power2::lemma_pow2_adds((k + 1) as nat, (20 - k) as nat);
        assert(one == vstd::arithmetic::power2::pow2(k as nat) * f);
        assert(2 * one == vstd::arithmetic::power2::pow2((k + 1) as nat) * f) by {
            vstd::arithmetic::power2::lemma_pow2_unfold((k + 1) as nat);
            vstd::arithmetic::power2::lemma_pow2_unfold((21 - k) as nat);
            assert(vstd::arithmetic::power2::pow2((21 - k) as nat) == 2 * f);
            assert((2 * vstd::arithmetic::power2::pow2(k as nat)) * f == 2 * (
            vstd::arithmetic::power2::pow2(k as nat) * f)) by (nonlinear_arith);
            assert(vstd::arithmetic::power2::pow2((k + 1) as nat) == 2
                * vstd::arithmetic::power2::pow2(k as nat));
        }
        vstd::arithmetic::mul::lemma_mul_inequality(
            vstd::arithmetic::power2::pow2(k as nat) as int,
            x,
            f,
        );
        vstd::arithmetic::mul::lemma_mul_strict_inequality(
            x,
            vstd::arithmetic::power2::pow2((k + 1) as nat) as int,
            f,
        );
    }
}

/// Computes `log2_points` exactly: the whole part by repeated halving, the
/// fraction by 20 steps of mantissa squaring.
pub fn log2_points_u64(x: u64) -> (r: u64)
    ensures
        r == log2_points(x as int),
        r < 64 * LOG_ONE,
{
    proof {
        vstd::arithmetic::power2::lemma2_to64();
        vstd::arithmetic::power2::lemma2_to64_rest();
    }
    if x < 1 {
        return 0;
    }
    // Whole part: k == log2_floor(x).
    proof {
        vstd::arithmetic::div_mod::lemma_div_basics(x as int);
    }
    let mut k: u64 = 0;
    let mut y: u64 = x;
    while y >= 2
        invariant
            1 <= y <= x,
            log2_floor(x as int) == k + log2_floor(y as int),
            y as int == x as int / (vstd::arithmetic::power2::pow2(k as nat) as int),
            k <= 63,
        decreases y,
    {
        proof {
            lemma_log2_floor_nonneg(y as int / 2);
            vstd::arithmetic::power2::lemma_pow2_pos(k as nat);
            vstd::arithmetic::div_mod::lemma_div_denominator(
                x as int,
                vstd::arithmetic::power2::pow2(k as nat) as int,
                2,
            );
            vstd::arithmetic::power2::lemma_pow2_unfold((k + 1) as nat);
            vstd::arithmetic::mul::lemma_mul_is_commutative(
                vstd::arithmetic::power2::pow2(k as nat) as int,
                2,
            );
            if k >= 63 {
                // x would have to reach 2^64: impossible for a u64.
                let p = vstd::arithmetic::power2::pow2(63) as int;
                vstd::arithmetic::power2::lemma2_to64_rest();
                vstd::arithmetic::div_mod::lemma_fundamental_div_mod(x as int, p);
                vstd::arithmetic::mul::lemma_mul_inequality(2, y as int, p);
                vstd::arithmetic::mul::lemma_mul_is_commutative(y as int, p);
                assert(false);
            }
        }
        y = y / 2;
        k = k + 1;
    }
    proof {
        lemma_log2_floor_bounds(x as int);
    }
    // Mantissa: m == normalized_mantissa(x).
    let mut m: u64;
    if k >= 20 {
        let mut e: u64 = k;
        m = x;
        while e > 20
            invariant
                20 <= e <= k,
                k <= 63,
                m as int == x as int / (vstd::arithmetic::power2::pow2((k - e) as nat) as int),
            decreases e,
        {
            proof {
                vstd::arithmetic::power2::lemma_pow2_pos((k - e) as nat);
                vstd::arithmetic::div_mod::lemma_div_denominator(
                    x as int,
                    vstd::arithmetic::power2::pow2((k - e) as nat) as int,
                    2,
                );
                vstd::arithmetic::power2::lemma_pow2_unfold((k - e + 1) as nat);
                vstd::arithmetic::mul::lemma_mul_is_commutative(
                    vstd::arithmetic::power2::pow2((k - e) as nat) as int,
                    2,
                );
                vstd::arithmetic::div_mod::lemma_div_nonincreasing(
                    x as int,
                    vstd::arithmetic::power2::pow2((k - e) as nat) as int,
                );
                vstd::arithmetic::div_mod::lemma_div_pos_is_pos(
                    x as int,
                    vstd::arithmetic::power2::pow2((k - e) as nat) as int,
                );
            }
            m = m / 2;
            e = e - 1;
        }
    } else {
        let mut e: u64 = k;
        m = x;
        proof {
            vstd::arithmetic::power2::lemma2_to64();
            assert(x as int * (vstd::arithmetic::power2::pow2(0) as int) == x as int);
        }
        while e < 20
            invariant
                k <= e <= 20,
                k <= 63,
                m as int == x as int * (vstd::arithmetic::power2::pow2((e - k) as nat) as int),
                (m as int) < (vstd::arithmetic::power2::pow2((e + 1) as nat) as int),
            decreases 20 - e,
        {
            proof {
                vstd::arithmetic::power2::lemma_pow2_unfold((e - k + 1) as nat);
                vstd::arithmetic::power2::lemma_pow2_unfold((e + 2) as nat);
                assert((x as int * vstd::arithmetic::power2::pow2((e - k) as nat)) * 2 == x as int
                    * (2 * vstd::arithmetic::power2::pow2((e - k) as nat))) by (nonlinear_arith);
                vstd::arithmetic::power2::lemma2_to64();
            }
            m = m * 2;
            e = e + 1;
        }
    }
    proof {
        lemma_normalized_mantissa_range(x as int);
        assert(m as int == normalized_mantissa(x as int));
    }
    // Fraction bits: 20 squaring steps.
    let ghost m0: int = m as int;
    let mut f: u64 = 0;
    let mut i: u64 = 0;
    while i < 20
        invariant
            i <= 20,
            LOG_ONE <= m0 < 2 * LOG_ONE,
            m as int == frac_bits(m0, i as nat).0,
            f as int == frac_bits(m0, i as nat).1,
            LOG_ONE <= m < 2 * LOG_ONE,
            f < vstd::arithmetic::power2::pow2(i as nat),
        decreases 20 - i,
    {
        proof {
            lemma_frac_step_range(m as int);
            vstd::arithmetic::power2::lemma_pow2_unfold((i + 1) as nat);
            vstd::arithmetic::power2::lemma2_to64();
            assert((m as int) * (m as int) < (2 * LOG_ONE as int) * (2 * LOG_ONE as int))
                by (nonlinear_arith)
                requires
                    0 <= m < 2 * LOG_ONE,
            ;
            assert(frac_bits(m0, (i + 1) as nat).0 == frac_step(frac_bits(m0, i as nat).0).0);
            assert(frac_bits(m0, (i + 1) as nat).1 == 2 * frac_bits(m0, i as nat).1 + frac_step(
                frac_bits(m0, i as nat).0,
            ).1);
        }
        let sq = (m * m) / LOG_ONE;
        if sq >= 2 * LOG_ONE {
            m = sq / 2;
            f = 2 * f + 1;
        } else {
            m = sq;
            f = 2 * f;
        }
        i = i + 1;
    }
    proof {
        vstd::arithmetic::mul::lemma_mul_inequality(log2_floor(x as int), 63, LOG_ONE as int);
        vstd::arithmetic::mul::lemma_mul_nonnegative(log2_floor(x as int), LOG_ONE as int);
        vstd::arithmetic::power2::lemma2_to64();
    }
    k * LOG_ONE + f
}

/// Log-magnitude normalization for heavy-tailed counts, before clamping:
/// `log(1 + count) / log(1 + reference)` scaled to points. The base cancels
/// in the quotient, so the fixed-point base-2 logarithm stands in for the
/// natural one. A count above the reference scores above `SCALE` here.
pub open spec fn log_magnitude_raw(count: int, reference: int) -> int {
    (SCALE as int) * log2_points(1 + count) / log2_points(1 + reference)
}

/// Log-magnitude normalization clamped to `[0, SCALE]`: a count at or above
/// the reference scores exactly `SCALE`.
pub open spec fn log_magnitude_points(count: int, reference: int) -> int {
    min_int(SCALE as int, log_magnitude_raw(count, reference))
}

/// Computes `log_magnitude_raw` exactly.
pub fn log_magnitude_raw_u64(count: u64, reference: u64) -> (r: u64)
    requires
        1 <= reference < u64::MAX,
        count < u64::MAX,
    ensures
        r == log_magnitude_raw(count as int, reference as int),
        r <= 64 * SCALE,
{
    let lc = log2_points_u64(count + 1);
    let lr = log2_points_u64(reference + 1);
    proof {
        lemma_log2_points_at_least_one(reference as int + 1);
        vstd::arithmetic::mul::lemma_mul_upper_bound(
            SCALE as int,
            SCALE as int,
            lc as int,
            64 * (LOG_ONE as int),
        );
        vstd::arithmetic::div_mod::lemma_div_pos_is_pos((SCALE as int) * (lc as int), lr as int);
        vstd::arithmetic::div_mod::lemma_div_is_ordered(
            (SCALE as int) * (lc as int),
            (SCALE as int) * 64 * (LOG_ONE as int),
            lr as int,
        );
        vstd::arithmetic::mul::lemma_mul_inequality(
            LOG_ONE as int,
            lr as int,
            64 * (SCALE as int),
        );
        assert((SCALE as int) * 64 * (LOG_ONE as int) == (64 * (SCALE as int)) * (LOG_ONE as int));
        vstd::arithmetic::div_mod::lemma_div_by_multiple(64 * (SCALE as int), LOG_ONE as int);
        vstd::arithmetic::div_mod::lemma_div_is_ordered_by_denominator(
            (64 * (SCALE as int)) * (LOG_ONE as int),
            LOG_ONE as int,
            lr as int,
        );
    }
    (SCALE * lc) / lr
}

/// Computes `log_magnitude_points` exactly.
pub fn log_magnitude_points_u64(count: u64, reference: u64) -> (r: u64)
    requires
        1 <= reference < u64::MAX,
        count < u64::MAX,
    ensures
        r == log_magnitude_points(count as int, reference as int),
        r <= SCALE,
{
    let q = log_magnitude_raw_u64(count, reference);
    if q >= SCALE {
        SCALE
    } else {
        q
    }
}

/// The fixed-point logarithm is never negative.
pub proof fn lemma_log2_points_nonneg(x: int)
    ensures
        log2_points(x) >= 0,
{
    if x >= 1 {
        lemma_log2_floor_nonneg(x);
        lemma_normalized_mantissa_range(x);
        lemma_frac_bits_range(normalized_mantissa(x), 20);
        vstd::arithmetic::mul::lemma_mul_nonnegative(log2_floor(x), LOG_ONE as int);
    }
}

/// The raw log magnitude is never negative for a real reference.
pub proof fn lemma_log_magnitude_raw_nonneg(count: int, reference: int)
    requires
        reference >= 1,
        count >= 0,
    ensures
        log_magnitude_raw(count, reference) >= 0,
        0 <= log_magnitude_points(count, reference) <= SCALE,
{
    lemma_log2_points_nonneg(1 + count);
    lemma_log2_points_at_least_one(1 + reference);
    vstd::arithmetic::mul::lemma_mul_nonnegative(SCALE as int, log2_points(1 + count));
    vstd::arithmetic::div_mod::lemma_div_pos_is_pos(
        (SCALE as int) * log2_points(1 + count),
        log2_points(1 + reference),
    );
}

/// Recency decay: one minus the mean age of `n` events, in days, as a
/// fraction of the lookback window, clamped to `[0, SCALE]`. No events
/// yield 0: no activity earns no recency credit, not a neutral score.
pub open spec fn recency_points(total_age_days: int, n: int, window_days: int) -> int {
    if n <= 0 {
        0
    } else {
        SCALE - ratio_points(total_age_days, window_days * n)
    }
}

/// `recency_points` lands in `[0, SCALE]`.
pub proof fn lemma_recency_points_bounded(total_age_days: int, n: int, window_days: int)
    ensures
        0 <= recency_points(total_age_days, n, window_days) <= SCALE,
{
    if n > 0 {
        lemma_ratio_points_bounded(total_age_days, window_days * n);
    }
}

/// Computes `recency_points` exactly, through 128-bit intermediates.
pub fn recency_points_u64(total_age_days: u128, n: u64, window_days: u64) -> (r: u64)
    requires
        1 <= window_days,
        total_age_days < 0x100000000000000000000u128,
    ensures
        r == recency_points(total_age_days as int, n as int, window_days as int),
        r <= SCALE,
{
    if n == 0 {
        return 0;
    }
    proof {
        vstd::arithmetic::mul::lemma_mul_upper_bound(
            window_days as int,
            u64::MAX as int,
            n as int,
            u64::MAX as int,
        );
        vstd::arithmetic::mul::lemma_mul_strictly_positive(window_days as int, n as int);
        lemma_ratio_points_bounded(total_age_days as int, (window_days as int) * (n as int));
    }
    let den: u128 = (window_days as u128) * (n as u128);
    let ratio: u64;
    if total_age_days == 0 {
        ratio = 0;
    } else {
        proof {
            vstd::arithmetic::mul::lemma_mul_upper_bound(
                SCALE as int,
                SCALE as int,
                total_age_days as int,
                0x100000000000000000000,
            );
            vstd::arithmetic::div_mod::lemma_div_pos_is_pos(
                (SCALE as int) * (total_age_days as int),
                den as int,
            );
        }
        let wide: u128 = (SCALE as u128) * total_age_days / den;
        if wide >= SCALE as u128 {
            ratio = SCALE;
        } else {
            ratio = wide as u64;
        }
    }
    SCALE - ratio
}

} // verus!
