//! Fixed-point arithmetic on `i64` values counting millionths.

use vstd::prelude::*;

verus! {

/// One, in fixed-point units: values count millionths.
pub const UNIT: i64 = 1_000_000;

/// Truncating division of `q` by `UNIT`: the quotient rounded toward zero.
pub open spec fn div_unit(q: int) -> int {
    if q >= 0 {
        q / (UNIT as int)
    } else {
        -((-q) / (UNIT as int))
    }
}

/// The fixed-point product of `a` and `b`: their mathematical product,
/// rescaled back to units of millionths, rounded toward zero.
pub open spec fn fx_mul_val(a: int, b: int) -> int {
    div_unit(a * b)
}

/// Whether the mathematical value `v` is representable as an `i64`.
pub open spec fn fits(v: int) -> bool {
    i64::MIN <= v <= i64::MAX
}

proof fn lemma_i64_prod_in_i128(a: int, b: int)
    requires
        fits(a),
        fits(b),
    ensures
        i128::MIN < a * b < i128::MAX,
{
    assert(i128::MIN < a * b < i128::MAX) by (nonlinear_arith)
        requires
            -0x8000_0000_0000_0000 <= a <= 0x7fff_ffff_ffff_ffff,
            -0x8000_0000_0000_0000 <= b <= 0x7fff_ffff_ffff_ffff,
    ;
}

proof fn lemma_div_unit_shrinks(q: int)
    ensures
        q >= 0 ==> 0 <= div_unit(q) <= q,
        q < 0 ==> q <= div_unit(q) <= 0,
{
    if q >= 0 {
        assert(0 <= q / (UNIT as int) <= q) by (nonlinear_arith)
            requires
                q >= 0,
        ;
    } else {
        assert(0 <= (-q) / (UNIT as int) <= -q) by (nonlinear_arith)
            requires
                q < 0,
        ;
    }
}

/// Rescaling a non-negative value keeps it non-negative and no larger.
pub proof fn lemma_div_unit_nonneg(q: int)
    requires
        q >= 0,
    ensures
        0 <= div_unit(q) <= q,
{
    lemma_div_unit_shrinks(q);
}

/// Fixed-point multiplication. Returns the rescaled product, or `None`
/// where it does not fit in an `i64`.
pub fn fx_mul(a: i64, b: i64) -> (r: Option<i64>)
    ensures
        fits(fx_mul_val(a as int, b as int)) ==> r == Some(fx_mul_val(a as int, b as int) as i64),
        !fits(fx_mul_val(a as int, b as int)) ==> r is None,
{
    proof {
        lemma_i64_prod_in_i128(a as int, b as int);
    }
    let p: i128 = (a as i128) * (b as i128);
    proof {
        lemma_div_unit_shrinks(p as int);
    }
    let q: i128 = match p.checked_div(1_000_000i128) {
        Some(v) => v,
        None => {
            proof {
                assert(false);
            }
            0
        },
    };
    assert(q == div_unit((a as int) * (b as int)));
    if q < i64::MIN as i128 || q > i64::MAX as i128 {
        None
    } else {
        Some(q as i64)
    }
}

/// Where a unit draw `u` lands in the half-open range `[lo, hi)`:
/// `lo` plus the rescaled share `u` of the width.
pub open spec fn sample_val(lo: int, hi: int, u: int) -> int {
    lo + fx_mul_val(u, hi - lo)
}

/// Maps a fixed-point draw `u` from `[0, 1)` onto the range `[lo, hi)`.
pub fn sample_in(lo: i64, hi: i64, u: i64) -> (r: i64)
    requires
        lo < hi,
        hi - lo <= i64::MAX,
        0 <= u < UNIT,
    ensures
        r == sample_val(lo as int, hi as int, u as int),
        lo <= r < hi,
{
    let w: i64 = ((hi as i128 - lo as i128) as i64);
    assert((u as int) * (w as int) < (UNIT as int) * (w as int)) by (nonlinear_arith)
        requires
            0 <= u < UNIT,
            w > 0,
    ;
    assert(((u as int) * (w as int)) / (UNIT as int) < w) by (nonlinear_arith)
        requires
            (u as int) * (w as int) < (UNIT as int) * (w as int),
            0 <= (u as int) * (w as int),
            w > 0,
    ;
    proof {
        lemma_div_unit_shrinks((u as int) * (w as int));
    }
    let step: i64 = match fx_mul(u, w) {
        Some(v) => v,
        None => {
            proof {
                assert(false);
            }
            0
        },
    };
    lo + step
}

} // verus!
