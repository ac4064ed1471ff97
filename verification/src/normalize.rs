//! Two-point normalisation of raw readings, carried out in integers.
//!
//! A normalised reading is the position of the raw value between the
//! calibrated baseline and maximum bend, clamped to the unit interval and
//! kept to three decimals. The quotient is formed and rounded exactly as
//! IEEE 754 double precision does it, so that records agree digit for digit
//! with consumers that recompute them in floating point.

use vstd::prelude::*;
use vstd::arithmetic::power2::{lemma_pow2_pos, lemma_pow2_unfold, pow2};

verus! {

/// The normalised value one, in thousandths.
pub const FULL_SCALE: u16 = 1000;

/// The integer nearest to `n / d`, with ties going to the even neighbour.
pub open spec fn round_half_even(n: nat, d: nat) -> nat {
    let q = n / d;
    let r = n % d;
    if 2 * r < d || (2 * r == d && q % 2 == 0) {
        q
    } else {
        q + 1
    }
}

/// The number of binary places by which `n / d` has to be scaled for its
/// integer part to have 53 bits: the least `e` with `n * 2^e >= d * 2^52`
/// (the literal below is `2^52`).
pub open spec fn significand_shift(n: nat, d: nat) -> nat
    decreases
        if n < d * 0x10_0000_0000_0000 {
            d * 0x10_0000_0000_0000 - n
        } else {
            0
        },
{
    if n == 0 || n >= d * 0x10_0000_0000_0000 {
        0
    } else {
        1 + significand_shift(2 * n, d)
    }
}

/// The significand of the double-precision quotient of `n` by `d`: the
/// quotient itself is this number divided by `2^significand_shift(n, d)`.
pub open spec fn quotient_significand(n: nat, d: nat) -> nat {
    round_half_even(n * pow2(significand_shift(n, d)), d)
}

/// The double-precision quotient of `n` by `d`, for `0 < n < d`, rounded to
/// thousandths.
pub open spec fn quotient_milli(n: nat, d: nat) -> nat {
    round_half_even(1000 * quotient_significand(n, d), pow2(significand_shift(n, d)))
}

/// The normalised value of `raw` under a calibration, in thousandths.
///
/// A calibration whose maximum bend does not exceed its baseline is
/// degenerate and normalises everything to zero. Otherwise readings at or
/// below the baseline give zero, readings at or above the maximum bend give
/// one, and readings in between give their quotient.
pub open spec fn normalized_milli(raw: int, baseline: int, max_bend: int) -> nat {
    let range = max_bend - baseline;
    let offset = raw - baseline;
    if range <= 0 || offset <= 0 {
        0
    } else if offset >= range {
        1000
    } else {
        quotient_milli(offset as nat, range as nat)
    }
}

/// The position of `raw` between baseline and maximum bend, clamped to the
/// calibrated span: a numerator over the denominator `max_bend - baseline`.
pub open spec fn clamped_offset(raw: int, baseline: int, max_bend: int) -> int {
    if raw <= baseline {
        0
    } else if raw >= max_bend {
        max_bend - baseline
    } else {
        raw - baseline
    }
}

/// Divides `n` by `d`, rounding to the nearest integer with ties to even.
fn divide_half_even(n: u128, d: u128) -> (q: u128)
    requires
        d > 0,
        n / d < u128::MAX,
        d <= u128::MAX / 2,
    ensures
        q == round_half_even(n as nat, d as nat),
{
    let q = n / d;
    let r = n % d;
    if 2 * r < d || (2 * r == d && q % 2 == 0) {
        q
    } else {
        q + 1
    }
}

/// Normalises one raw reading against the calibration of its channel.
///
/// The result is in thousandths, between 0 and 1000.
pub fn normalize(raw: i32, baseline: i32, max_bend: i32) -> (milli: u16)
    ensures
        milli == normalized_milli(raw as int, baseline as int, max_bend as int),
        milli <= 1000,
{
    let range: i64 = max_bend as i64 - baseline as i64;
    let offset: i64 = raw as i64 - baseline as i64;
    if range <= 0 || offset <= 0 {
        return 0;
    }
    if offset >= range {
        return FULL_SCALE;
    }
    let n: u128 = offset as u128;
    let d: u128 = range as u128;
    let target: u128 = d * 0x10_0000_0000_0000;
    let mut scaled: u128 = n;
    let mut unit: u128 = 1;
    let ghost mut shift: nat = 0;
    proof {
        vstd::arithmetic::power2::lemma2_to64();
    }
    while scaled < target
        invariant
            0 < n < d < 0x1_0000_0000,
            target == d * 0x10_0000_0000_0000,
            unit > 0,
            unit == pow2(shift),
            scaled == n * unit,
            scaled < 2 * target,
            unit <= scaled,
            significand_shift(n as nat, d as nat) == shift + significand_shift(
                scaled as nat,
                d as nat,
            ),
        decreases
            if scaled < target {
                target - scaled
            } else {
                0
            },
    {
        proof {
            lemma_pow2_unfold(shift + 1);
            assert(2 * (n * unit) == n * (2 * unit)) by (nonlinear_arith);
            shift = shift + 1;
        }
        scaled = scaled * 2;
        unit = unit * 2;
    }
    let significand = divide_half_even(scaled, d);
    assert(significand <= unit) by (nonlinear_arith)
        requires
            significand == round_half_even(scaled as nat, d as nat),
            scaled == n * unit,
            0 < n < d,
            unit > 0,
    ;
    let milli = divide_half_even(1000 * significand, unit);
    assert(milli <= 1000) by (nonlinear_arith)
        requires
            milli == round_half_even((1000 * significand) as nat, unit as nat),
            significand <= unit,
            unit > 0,
    ;
    milli as u16
}

/// A quotient below one never rounds beyond one.
pub proof fn lemma_quotient_milli_bounded(n: nat, d: nat)
    requires
        0 < n < d,
    ensures
        quotient_milli(n, d) <= 1000,
{
    let unit = pow2(significand_shift(n, d));
    lemma_pow2_pos(significand_shift(n, d));
    let significand = quotient_significand(n, d);
    assert(significand <= unit) by (nonlinear_arith)
        requires
            significand == round_half_even(n * unit, d),
            0 < n < d,
            unit > 0,
    ;
    assert(round_half_even(1000 * significand, unit) <= 1000) by (nonlinear_arith)
        requires
            significand <= unit,
            unit > 0,
    ;
}

/// Normalised values stay within the unit interval, whatever the reading
/// and the calibration.
pub proof fn lemma_normalized_in_unit_interval(raw: int, baseline: int, max_bend: int)
    ensures
        0 <= normalized_milli(raw, baseline, max_bend) <= 1000,
{
    if max_bend - baseline > 0 && 0 < raw - baseline < max_bend - baseline {
        lemma_quotient_milli_bounded((raw - baseline) as nat, (max_bend - baseline) as nat);
    }
}

/// The two calibration points map to the ends of the unit interval: a
/// reading at the baseline normalises to zero, and under a calibration whose
/// maximum bend exceeds its baseline a reading at the maximum bend
/// normalises to one.
pub proof fn lemma_normalized_endpoints(baseline: int, max_bend: int)
    ensures
        normalized_milli(baseline, baseline, max_bend) == 0,
        max_bend > baseline ==> normalized_milli(max_bend, baseline, max_bend) == 1000,
{
}

/// Readings outside the calibrated span clamp to its nearer end.
pub proof fn lemma_normalized_clamps(raw: int, baseline: int, max_bend: int)
    requires
        max_bend > baseline,
    ensures
        raw <= baseline ==> normalized_milli(raw, baseline, max_bend) == 0,
        raw >= max_bend ==> normalized_milli(raw, baseline, max_bend) == 1000,
{
}

/// Under a degenerate calibration every reading normalises to zero.
pub proof fn lemma_degenerate_calibration(raw: int, baseline: int, max_bend: int)
    requires
        max_bend <= baseline,
    ensures
        normalized_milli(raw, baseline, max_bend) == 0,
{
}

/// Rounding to the nearest integer is off by at most one half.
pub proof fn lemma_round_half_even_is_nearest(n: nat, d: nat)
    requires
        d > 0,
    ensures
        2 * (round_half_even(n, d) * d - n) <= d,
        2 * (n - round_half_even(n, d) * d) <= d,
{
    let q = n / d;
    let r = n % d;
    assert(n == q * d + r && 0 <= r < d) by (nonlinear_arith)
        requires
            q == n / d,
            r == n % d,
            d > 0,
    ;
    assert((q + 1) * d == q * d + d) by (nonlinear_arith);
}

/// The scaled numerator reaches the weight of the leading bit.
pub proof fn lemma_significand_shift_reaches(n: nat, d: nat)
    requires
        n > 0,
    ensures
        n * pow2(significand_shift(n, d)) >= d * 0x10_0000_0000_0000,
    decreases
        if n < d * 0x10_0000_0000_0000 {
            d * 0x10_0000_0000_0000 - n
        } else {
            0
        },
{
    vstd::arithmetic::power2::lemma2_to64();
    if n < d * 0x10_0000_0000_0000 {
        lemma_significand_shift_reaches(2 * n, d);
        let e = significand_shift(2 * n, d);
        lemma_pow2_unfold(e + 1);
        assert((2 * n) * pow2(e) == n * (2 * pow2(e))) by (nonlinear_arith);
        assert(significand_shift(n, d) == e + 1);
    } else {
        assert(significand_shift(n, d) == 0);
        assert(n * pow2(0) == n) by (nonlinear_arith)
            requires
                pow2(0) == 1,
        ;
    }
}

/// The thousandths of a quotient are the thousandths nearest to the exact
/// quotient: rounding first in binary and then in decimal loses nothing
/// beyond the choice between two equally near neighbours.
pub proof fn lemma_quotient_milli_is_nearest(n: nat, d: nat)
    requires
        0 < n < d,
        d <= 0x1_0000_0000,
    ensures
        2 * (quotient_milli(n, d) * d - 1000 * n) <= d,
        2 * (1000 * n - quotient_milli(n, d) * d) <= d,
{
    let unit = pow2(significand_shift(n, d));
    let significand = quotient_significand(n, d);
    let milli = quotient_milli(n, d);
    lemma_pow2_pos(significand_shift(n, d));
    lemma_significand_shift_reaches(n, d);
    lemma_round_half_even_is_nearest(n * unit, d);
    lemma_round_half_even_is_nearest(1000 * significand, unit);
    assert(unit > 0x10_0000_0000_0000) by (nonlinear_arith)
        requires
            n * unit >= d * 0x10_0000_0000_0000,
            0 < n < d,
    ;
    assert(1000 * d < unit);
    let slack = milli * d - 1000 * n;
    let binary = significand * d - n * unit;
    let decimal = milli * unit - 1000 * significand;
    assert(slack * unit == d * decimal + 1000 * binary) by (nonlinear_arith)
        requires
            slack == milli * d - 1000 * n,
            binary == significand * d - n * unit,
            decimal == milli * unit - 1000 * significand,
    ;
    assert(2 * slack <= d) by (nonlinear_arith)
        requires
            slack * unit == d * decimal + 1000 * binary,
            2 * decimal <= unit,
            2 * binary <= d,
            1000 * d < unit,
            d > 0,
            unit > 0,
    ;
    assert(-2 * slack <= d) by (nonlinear_arith)
        requires
            slack * unit == d * decimal + 1000 * binary,
            -2 * decimal <= unit,
            -2 * binary <= d,
            1000 * d < unit,
            d > 0,
            unit > 0,
    ;
}

/// Under a calibration whose maximum bend exceeds its baseline, the
/// normalised value is the clamped quotient
/// `(raw - baseline) / (max_bend - baseline)` rounded to the nearest
/// thousandth: it differs from the exact quotient by at most half a
/// thousandth.
pub proof fn lemma_normalized_is_nearest_milli(raw: int, baseline: int, max_bend: int)
    requires
        i32::MIN <= raw <= i32::MAX,
        i32::MIN <= baseline <= i32::MAX,
        i32::MIN <= max_bend <= i32::MAX,
        baseline < max_bend,
    ensures
        2 * (normalized_milli(raw, baseline, max_bend) * (max_bend - baseline) - 1000
            * clamped_offset(raw, baseline, max_bend)) <= max_bend - baseline,
        2 * (1000 * clamped_offset(raw, baseline, max_bend) - normalized_milli(
            raw,
            baseline,
            max_bend,
        ) * (max_bend - baseline)) <= max_bend - baseline,
{
    let range = max_bend - baseline;
    if baseline < raw < max_bend {
        lemma_quotient_milli_is_nearest((raw - baseline) as nat, range as nat);
    } else if raw >= max_bend {
        assert(1000 * range - 1000 * range == 0);
    }
}

} // verus!
