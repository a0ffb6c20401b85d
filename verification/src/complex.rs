//! Complex arithmetic over fixed-point coordinates.
//!
//! A point is a pair of raw fixed-point values (see `fx`). Every operation
//! is checked: a component that leaves the `i64` range is reported as `None`,
//! the fixed-point analogue of a non-finite float, and the escape loop treats
//! such an orbit as escaped.

use vstd::prelude::*;
use crate::fx::{SCALE, fx_mul_val, in_i64, fx_mul, fx_add};

verus! {

/// A point of the complex plane: raw fixed-point real and imaginary parts.
#[derive(Clone, Copy, PartialEq, Eq, Structural, Debug)]
pub struct CPoint {
    pub re: i64,
    pub im: i64,
}

impl CPoint {
    /// The pair of mathematical raw values this point holds.
    pub open spec fn view_val(self) -> (int, int) {
        (self.re as int, self.im as int)
    }
}

/// Raw squared magnitude, at scale `2^64`: `re^2 + im^2` over raw values.
pub open spec fn norm_sq_raw(re: int, im: int) -> int {
    re * re + im * im
}

/// The escape threshold `4.0` at the squared-magnitude scale `2^64`, that is
/// `4 * 2^64 = 2^66`.
pub const FOUR_RAW: i128 = 0x4_0000_0000_0000_0000;

/// Product of two complex fixed-point values; `None` where any partial
/// product or a final component leaves the `i64` range.
pub open spec fn spec_cmul(a: (int, int), b: (int, int)) -> Option<(int, int)> {
    let rr = fx_mul_val(a.0, b.0);
    let ii = fx_mul_val(a.1, b.1);
    let ri = fx_mul_val(a.0, b.1);
    let ir = fx_mul_val(a.1, b.0);
    if in_i64(rr) && in_i64(ii) && in_i64(ri) && in_i64(ir) && in_i64(rr - ii) && in_i64(
        ri + ir,
    ) {
        Some((rr - ii, ri + ir))
    } else {
        None
    }
}

/// `z^p` by repeated complex multiplication; `z^0 = 1`, `z^1 = z`, and once a
/// power is not representable every higher power is `None` as well.
pub open spec fn spec_cpow(z: (int, int), p: nat) -> Option<(int, int)>
    decreases p,
{
    if p == 0 {
        Some((SCALE as int, 0))
    } else if p == 1 {
        Some(z)
    } else {
        match spec_cpow(z, (p - 1) as nat) {
            Some(w) => spec_cmul(w, z),
            None => None,
        }
    }
}

/// One update of the fractal recurrence: `z^p + c`.
pub open spec fn spec_step(z: (int, int), c: (int, int), p: nat) -> Option<(int, int)> {
    match spec_cpow(z, p) {
        Some(w) => if in_i64(w.0 + c.0) && in_i64(w.1 + c.1) {
            Some((w.0 + c.0, w.1 + c.1))
        } else {
            None
        },
        None => None,
    }
}

/// The exponent `2` reduces to the classical square: `z^2 == z * z`.
pub proof fn lemma_pow2_is_square(z: (int, int))
    ensures
        spec_cpow(z, 2) == spec_cmul(z, z),
{
    reveal_with_fuel(spec_cpow, 3);
}

/// Unrepresentable powers persist: if `z^i` is `None`, so is `z^p` for `p >= i`.
pub proof fn lemma_cpow_none_persists(z: (int, int), i: nat, p: nat)
    requires
        2 <= i <= p,
        spec_cpow(z, i) is None,
    ensures
        spec_cpow(z, p) is None,
    decreases p,
{
    if p > i {
        lemma_cpow_none_persists(z, i, (p - 1) as nat);
    }
}

/// `0 <= a^2 <= 2^126` for any `i64` value `a`.
pub proof fn lemma_square_bound(a: int)
    by (nonlinear_arith)
    requires
        -0x8000_0000_0000_0000 <= a <= 0x7FFF_FFFF_FFFF_FFFF,
    ensures
        0 <= a * a <= 0x4000_0000_0000_0000_0000_0000_0000_0000,
{
}

/// Executable complex product, mirroring `spec_cmul`.
pub fn cmul(a: CPoint, b: CPoint) -> (r: Option<CPoint>)
    ensures
        match r {
            Some(c) => spec_cmul(a.view_val(), b.view_val()) == Some(c.view_val()),
            None => spec_cmul(a.view_val(), b.view_val()) is None,
        },
{
    let rr = fx_mul(a.re, b.re);
    let ii = fx_mul(a.im, b.im);
    let ri = fx_mul(a.re, b.im);
    let ir = fx_mul(a.im, b.re);
    match (rr, ii, ri, ir) {
        (Some(rr), Some(ii), Some(ri), Some(ir)) => {
            match (rr.checked_sub(ii), ri.checked_add(ir)) {
                (Some(re), Some(im)) => Some(CPoint { re, im }),
                _ => None,
            }
        },
        _ => None,
    }
}

/// Executable complex power, mirroring `spec_cpow`.
pub fn cpow(z: CPoint, p: usize) -> (r: Option<CPoint>)
    ensures
        match r {
            Some(w) => spec_cpow(z.view_val(), p as nat) == Some(w.view_val()),
            None => spec_cpow(z.view_val(), p as nat) is None,
        },
{
    if p == 0 {
        return Some(CPoint { re: SCALE, im: 0 });
    }
    let mut w = z;
    let mut i: usize = 1;
    while i < p
        invariant
            1 <= i <= p,
            spec_cpow(z.view_val(), i as nat) == Some(w.view_val()),
        decreases p - i,
    {
        match cmul(w, z) {
            Some(w2) => {
                w = w2;
            },
            None => {
                proof {
                    lemma_cpow_none_persists(z.view_val(), (i + 1) as nat, p as nat);
                }
                return None;
            },
        }
        i = i + 1;
    }
    Some(w)
}

/// Executable recurrence update, mirroring `spec_step`.
pub fn step(z: CPoint, c: CPoint, p: usize) -> (r: Option<CPoint>)
    ensures
        match r {
            Some(w) => spec_step(z.view_val(), c.view_val(), p as nat) == Some(w.view_val()),
            None => spec_step(z.view_val(), c.view_val(), p as nat) is None,
        },
{
    match cpow(z, p) {
        Some(w) => match (fx_add(w.re, c.re), fx_add(w.im, c.im)) {
            (Some(re), Some(im)) => Some(CPoint { re, im }),
            _ => None,
        },
        None => None,
    }
}

/// Does the squared magnitude of `z` exceed the escape threshold `4.0`?
pub fn norm_sq_exceeds(z: &CPoint) -> (r: bool)
    ensures
        r == (norm_sq_raw(z.re as int, z.im as int) > FOUR_RAW as int),
{
    proof {
        lemma_square_bound(z.re as int);
        lemma_square_bound(z.im as int);
    }
    let rr: u128 = ((z.re as i128) * (z.re as i128)) as u128;
    let ii: u128 = ((z.im as i128) * (z.im as i128)) as u128;
    rr + ii > (FOUR_RAW as u128)
}

} // verus!
