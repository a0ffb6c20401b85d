//! Fixed-point arithmetic: signed two's-complement values with 32 fractional
//! bits, held in `i64`.
//!
//! A raw value `v: i64` stands for the real number `v / 2^32`. All operations
//! round toward zero, exactly as the hardware division of the magnitudes
//! does, and every operation that can leave the `i64` range reports that
//! instead of wrapping.

use vstd::prelude::*;

verus! {

/// Raw weight of 1.0: `2^32`.
pub const SCALE: i64 = 0x1_0000_0000;

/// Truncating (round-toward-zero) division, for a positive divisor.
///
/// This is the quotient that machine division of magnitudes produces, as
/// opposed to the flooring `/` of mathematical integers.
pub open spec fn tdiv(a: int, b: int) -> int
    recommends
        b > 0,
{
    if a >= 0 {
        a / b
    } else {
        -((-a) / b)
    }
}

/// The mathematical value of the fixed-point product of raw values `a` and
/// `b`, before any range check: `(a * b) / 2^32`, rounded toward zero.
pub open spec fn fx_mul_val(a: int, b: int) -> int {
    tdiv(a * b, SCALE as int)
}

/// Does the mathematical value `v` fit in an `i64`?
pub open spec fn in_i64(v: int) -> bool {
    i64::MIN <= v <= i64::MAX
}

/// `|a * b| <= aa * bb` whenever `|a| <= aa` and `|b| <= bb`.
pub proof fn lemma_abs_mul_le(a: int, b: int, aa: int, bb: int)
    by (nonlinear_arith)
    requires
        -aa <= a <= aa,
        -bb <= b <= bb,
    ensures
        -(aa * bb) <= a * b <= aa * bb,
{
}

/// Magnitude of a truncating quotient never exceeds the dividend's.
pub proof fn lemma_tdiv_bound(a: int, b: int)
    requires
        b >= 1,
        -0x8000_0000_0000_0000_0000_0000_0000_0000 <= a,
        a <= 0x8000_0000_0000_0000_0000_0000_0000_0000,
    ensures
        a >= 0 ==> 0 <= tdiv(a, b) <= a,
        a < 0 ==> a <= tdiv(a, b) <= 0,
{
    if a >= 0 {
        vstd::arithmetic::div_mod::lemma_div_pos_is_pos(a, b);
        vstd::arithmetic::div_mod::lemma_div_nonincreasing(a, b);
    } else {
        vstd::arithmetic::div_mod::lemma_div_pos_is_pos(-a, b);
        vstd::arithmetic::div_mod::lemma_div_nonincreasing(-a, b);
    }
}

/// Checked fixed-point multiplication: `Some` exactly when the product fits.
pub fn fx_mul(a: i64, b: i64) -> (r: Option<i64>)
    ensures
        match r {
            Some(v) => in_i64(fx_mul_val(a as int, b as int)) && v == fx_mul_val(
                a as int,
                b as int,
            ),
            None => !in_i64(fx_mul_val(a as int, b as int)),
        },
{
    proof {
        lemma_abs_mul_le(
            a as int,
            b as int,
            0x8000_0000_0000_0000,
            0x8000_0000_0000_0000,
        );
    }
    let p: i128 = (a as i128) * (b as i128);
    if p >= 0 {
        let q: u128 = (p as u128) / (SCALE as u128);
        proof {
            vstd::arithmetic::div_mod::lemma_div_nonincreasing(p as int, SCALE as int);
            vstd::arithmetic::div_mod::lemma_div_pos_is_pos(p as int, SCALE as int);
        }
        if q <= (i64::MAX as u128) {
            Some(q as i64)
        } else {
            None
        }
    } else {
        let m: u128 = (-p) as u128;
        let q: u128 = m / (SCALE as u128);
        proof {
            vstd::arithmetic::div_mod::lemma_div_nonincreasing(m as int, SCALE as int);
            vstd::arithmetic::div_mod::lemma_div_pos_is_pos(m as int, SCALE as int);
        }
        if q <= 0x8000_0000_0000_0000u128 {
            Some((-(q as i128)) as i64)
        } else {
            None
        }
    }
}

/// Checked fixed-point (= integer) addition: `Some` exactly when the sum
/// fits.
pub fn fx_add(a: i64, b: i64) -> (r: Option<i64>)
    ensures
        match r {
            Some(v) => in_i64(a as int + b as int) && v == a as int + b as int,
            None => !in_i64(a as int + b as int),
        },
{
    a.checked_add(b)
}

/// Checked product of a pixel index and a raw fixed-point value. The result
/// is again a raw fixed-point value (integer times fixed point needs no
/// rescaling).
pub fn mul_int(x: usize, s: i64) -> (r: Option<i64>)
    ensures
        match r {
            Some(v) => in_i64(x as int * s as int) && v == x as int * s as int,
            None => !in_i64(x as int * s as int),
        },
{
    proof {
        lemma_abs_mul_le(
            x as int,
            s as int,
            0xFFFF_FFFF_FFFF_FFFF,
            0x8000_0000_0000_0000,
        );
    }
    let p: i128 = (x as i128) * (s as i128);
    if p >= (i64::MIN as i128) && p <= (i64::MAX as i128) {
        Some(p as i64)
    } else {
        None
    }
}

/// Truncating division of a raw fixed-point value by a positive pixel count.
pub fn fx_div_w(a: i64, w: usize) -> (r: i64)
    requires
        w >= 1,
    ensures
        r == tdiv(a as int, w as int),
{
    proof {
        lemma_tdiv_bound(a as int, w as int);
    }
    if a >= 0 {
        let q: u128 = (a as u128) / (w as u128);
        q as i64
    } else {
        let m: u128 = (-(a as i128)) as u128;
        let q: u128 = m / (w as u128);
        (-(q as i128)) as i64
    }
}

/// Clamp a raw value into the unit interval `[0, 2^32]`.
pub open spec fn clamp_unit(v: int) -> int {
    if v < 0 {
        0
    } else if v > SCALE as int {
        SCALE as int
    } else {
        v
    }
}

/// Executable clamp into `[0, SCALE]`.
pub fn fx_clamp_unit(v: i64) -> (r: i64)
    ensures
        r == clamp_unit(v as int),
        0 <= r <= SCALE,
{
    if v < 0 {
        0
    } else if v > SCALE {
        SCALE
    } else {
        v
    }
}

} // verus!
