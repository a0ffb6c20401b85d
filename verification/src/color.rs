//! Escape-count to RGBA color mapping.
//!
//! An escape count `i` out of a budget of `n` iterations is first normalized
//! logarithmically, `c = log2(i + 1) / log2(n - 1)` clamped into `[0, 1]`
//! (the base-2 ratio equals the base-10 ratio), so that the long tail of
//! slowly escaping points is compressed. A cubic in/out easing of `c` drives
//! the hue, which wraps modulo 360 degrees after an optional shift; a
//! quadratic-out easing of `c` drives the lightness; the saturation comes
//! from the configuration. The resulting HSL color is converted to RGB by
//! the standard sector formula, with a fully opaque alpha channel. Bounded
//! points are painted opaque black.
//!
//! All quantities are raw fixed-point values (see `fx`): the unit interval
//! is `[0, SCALE]` and a degree of hue is `SCALE` wide, so valid hues lie in
//! `[0, 360 * SCALE)`.

use vstd::prelude::*;
use crate::fx::{SCALE, tdiv, fx_mul_val, fx_mul, fx_clamp_unit, clamp_unit};
use crate::escape::EscapeResult;
use vstd::arithmetic::power2::pow2;

verus! {

/// Raw weight of one half.
pub const HALF: i64 = 0x8000_0000;

/// One full turn of hue: `360 * SCALE`.
pub const HUE_TURN: i64 = 0x168_0000_0000;

/// One hue sector (60 degrees): `60 * SCALE`.
pub const HUE_SECTOR: i64 = 0x3C_0000_0000;

/// Floor of the base-2 logarithm of a positive integer.
pub open spec fn floor_log2(m: nat) -> nat
    decreases m,
{
    if m < 2 {
        0
    } else {
        1 + floor_log2(m / 2)
    }
}

/// `2^floor_log2(m) <= m < 2^(floor_log2(m) + 1)` for `m >= 1`.
pub proof fn lemma_floor_log2_bounds(m: nat)
    requires
        m >= 1,
    ensures
        pow2(floor_log2(m)) <= m < pow2(floor_log2(m) + 1),
    decreases m,
{
    vstd::arithmetic::power2::lemma2_to64();
    if m < 2 {
    } else {
        lemma_floor_log2_bounds(m / 2);
        let k = floor_log2(m / 2);
        vstd::arithmetic::power2::lemma_pow2_adds(k, 1);
        vstd::arithmetic::power2::lemma_pow2_adds(k + 1, 1);
    }
}

/// The exponent is pinned by the bracketing powers of two.
pub proof fn lemma_floor_log2_unique(m: nat, k: nat)
    requires
        pow2(k) <= m < pow2(k + 1),
    ensures
        k == floor_log2(m),
{
    vstd::arithmetic::power2::lemma_pow2_pos(k);
    lemma_floor_log2_bounds(m);
    let j = floor_log2(m);
    if j + 1 < k {
        vstd::arithmetic::power2::lemma_pow2_strictly_increases(j + 1, k);
    }
    if k + 1 < j {
        vstd::arithmetic::power2::lemma_pow2_strictly_increases(k + 1, j);
    }
}

/// Fixed-point base-2 logarithm of `m >= 1`: the integer part is
/// `floor_log2(m)`, and the fraction interpolates linearly within the
/// octave, reading the 32 bits below the leading one of `m` once `m` is
/// normalized into `[2^63, 2^64)`.
pub open spec fn spec_log2_fx(m: nat) -> int
    recommends
        1 <= m < 0x1_0000_0000_0000_0000,
{
    let k = floor_log2(m);
    let v = m * pow2((63 - k) as nat);
    k * (SCALE as int) + (v - 0x8000_0000_0000_0000) / 0x8000_0000
}

/// The logarithm of one is zero.
pub proof fn lemma_log2_fx_one()
    ensures
        spec_log2_fx(1) == 0,
{
    vstd::arithmetic::power2::lemma2_to64();
    vstd::arithmetic::power2::lemma2_to64_rest();
    assert(floor_log2(1) == 0);
}

/// Executable fixed-point base-2 logarithm.
pub fn log2_fx(m: u64) -> (r: i64)
    requires
        m >= 1,
    ensures
        r == spec_log2_fx(m as nat),
        0 <= r < 64 * (SCALE as int),
        m == 1 ==> r == 0,
{
    proof {
        vstd::arithmetic::power2::lemma2_to64();
        vstd::arithmetic::power2::lemma2_to64_rest();
    }
    let mut v: u64 = m;
    let mut k: u64 = 63;
    proof {
        assert(pow2(0) == 1);
        assert(m as nat * pow2(0) == m as nat) by (nonlinear_arith)
            requires
                pow2(0) == 1,
        ;
    }
    while v < 0x8000_0000_0000_0000
        invariant
            k <= 63,
            v as nat == m as nat * pow2((63 - k) as nat),
            v as nat >= pow2((63 - k) as nat),
        decreases k,
    {
        proof {
            vstd::arithmetic::power2::lemma_pow2_adds((63 - k) as nat, 1);
            vstd::arithmetic::power2::lemma2_to64();
            assert(2 * (m as nat * pow2((63 - k) as nat)) == m as nat * pow2((63 - k + 1) as nat))
                by (nonlinear_arith)
                requires
                    pow2((63 - k + 1) as nat) == 2 * pow2((63 - k) as nat),
            ;
            if k == 0 {
                assert(v as nat >= pow2(63));
                assert(false);
            }
        }
        v = v * 2;
        k = k - 1;
    }
    proof {
        let kk = (63 - k) as nat;
        assert(m as nat * pow2(kk) < pow2(64));
        assert(pow2(63) <= m as nat * pow2(kk));
        vstd::arithmetic::power2::lemma_pow2_adds(k as nat, kk);
        vstd::arithmetic::power2::lemma_pow2_adds((k + 1) as nat, kk);
        vstd::arithmetic::power2::lemma_pow2_pos(kk);
        assert(pow2(k as nat) <= m as nat) by (nonlinear_arith)
            requires
                pow2(63) <= m as nat * pow2(kk),
                pow2(63) == pow2(k as nat) * pow2(kk),
                pow2(kk) >= 1,
        ;
        assert((m as nat) < pow2((k + 1) as nat)) by (nonlinear_arith)
            requires
                m as nat * pow2(kk) < pow2(64),
                pow2(64) == pow2((k + 1) as nat) * pow2(kk),
                pow2(kk) >= 1,
        ;
        lemma_floor_log2_unique(m as nat, k as nat);
    }
    let frac: u64 = (v - 0x8000_0000_0000_0000) / 0x8000_0000;
    let r: i64 = (k as i64) * SCALE + (frac as i64);
    proof {
        if m == 1 {
            lemma_log2_fx_one();
        }
    }
    r
}

/// Normalized escape metric: `log2(i + 1) / log2(n - 1)`, clamped into the
/// unit interval. Degenerate budgets (`n <= 2`, where the denominator is
/// zero) map the only possible counts onto the ends of the interval.
pub open spec fn spec_normalize(i: nat, n: nat) -> int
    recommends
        i < n,
{
    if n <= 1 {
        0
    } else {
        let num = spec_log2_fx(i + 1);
        let den = spec_log2_fx((n - 1) as nat);
        if den <= 0 {
            if num <= 0 {
                0
            } else {
                SCALE as int
            }
        } else {
            let q = (num * (SCALE as int)) / den;
            if q > SCALE as int {
                SCALE as int
            } else {
                q
            }
        }
    }
}

/// The per-render normalization base: `log2(n - 1)`, zero for the
/// degenerate budgets that have no scale.
pub open spec fn spec_base(n: nat) -> int {
    if n >= 2 {
        spec_log2_fx((n - 1) as nat)
    } else {
        0
    }
}

/// Compute the normalization base once per render.
pub fn base_of(n: usize) -> (b: i64)
    ensures
        b == spec_base(n as nat),
        0 <= b < 64 * (SCALE as int),
{
    if n >= 2 {
        log2_fx((n as u64) - 1)
    } else {
        0
    }
}

/// Executable normalization of an escape count, against a precomputed base.
pub fn normalize(i: usize, n: usize, base: i64) -> (r: i64)
    requires
        i < n,
        base == spec_base(n as nat),
    ensures
        r == spec_normalize(i as nat, n as nat),
        0 <= r <= SCALE,
{
    if n <= 1 {
        return 0;
    }
    let num = log2_fx((i as u64) + 1);
    let den = base;
    if den <= 0 {
        if num <= 0 {
            0
        } else {
            SCALE
        }
    } else {
        let q: u128 = ((num as u128) * (SCALE as u128)) / (den as u128);
        proof {
            vstd::arithmetic::div_mod::lemma_div_pos_is_pos(
                num as int * SCALE as int,
                den as int,
            );
        }
        if q > (SCALE as u128) {
            SCALE
        } else {
            q as i64
        }
    }
}

/// The integer part of the logarithm is monotone.
pub proof fn lemma_floor_log2_monotone(a: nat, b: nat)
    requires
        a <= b,
    ensures
        floor_log2(a) <= floor_log2(b),
    decreases b,
{
    if b < 2 {
    } else if a < 2 {
    } else {
        vstd::arithmetic::div_mod::lemma_div_is_ordered(a as int, b as int, 2);
        lemma_floor_log2_monotone(a / 2, b / 2);
    }
}

/// Normalizing a positive 64-bit value lands in `[2^63, 2^64)`.
proof fn lemma_norm_bounds(m: nat)
    requires
        1 <= m < 0x1_0000_0000_0000_0000,
    ensures
        floor_log2(m) <= 63,
        0x8000_0000_0000_0000 <= m * pow2((63 - floor_log2(m)) as nat) < 0x1_0000_0000_0000_0000,
{
    let k = floor_log2(m);
    lemma_floor_log2_bounds(m);
    vstd::arithmetic::power2::lemma2_to64();
    vstd::arithmetic::power2::lemma2_to64_rest();
    if k >= 64 {
        if k > 64 {
            vstd::arithmetic::power2::lemma_pow2_strictly_increases(64, k);
        }
        assert(false);
    }
    vstd::arithmetic::power2::lemma_pow2_adds(k, (63 - k) as nat);
    vstd::arithmetic::power2::lemma_pow2_adds(k + 1, (63 - k) as nat);
    vstd::arithmetic::power2::lemma_pow2_pos((63 - k) as nat);
    assert(m * pow2((63 - k) as nat) >= pow2(63)) by (nonlinear_arith)
        requires
            pow2(k) <= m,
            pow2(63) == pow2(k) * pow2((63 - k) as nat),
            pow2((63 - k) as nat) >= 1,
    ;
    assert(m * pow2((63 - k) as nat) < pow2(64)) by (nonlinear_arith)
        requires
            m < pow2(k + 1),
            pow2(64) == pow2(k + 1) * pow2((63 - k) as nat),
            pow2((63 - k) as nat) >= 1,
    ;
}

/// The fixed-point logarithm of a positive 64-bit value lies in
/// `[0, 64 * SCALE)`.
pub proof fn lemma_log2_fx_range(m: nat)
    requires
        1 <= m < 0x1_0000_0000_0000_0000,
    ensures
        0 <= spec_log2_fx(m) < 64 * (SCALE as int),
{
    let k = floor_log2(m);
    let v = m * pow2((63 - k) as nat);
    lemma_norm_bounds(m);
    vstd::arithmetic::div_mod::lemma_div_pos_is_pos(v - 0x8000_0000_0000_0000, 0x8000_0000);
    assert(k * (SCALE as int) <= 63 * (SCALE as int)) by (nonlinear_arith)
        requires
            0 <= k <= 63,
    ;
    assert((v - 0x8000_0000_0000_0000) / 0x8000_0000 < SCALE as int);
}

/// The fixed-point logarithm is monotone.
pub proof fn lemma_log2_fx_monotone(a: nat, b: nat)
    requires
        1 <= a <= b,
        b < 0x1_0000_0000_0000_0000,
    ensures
        spec_log2_fx(a) <= spec_log2_fx(b),
{
    let ka = floor_log2(a);
    let kb = floor_log2(b);
    let va = a * pow2((63 - ka) as nat);
    let vb = b * pow2((63 - kb) as nat);
    lemma_floor_log2_monotone(a, b);
    lemma_norm_bounds(a);
    lemma_norm_bounds(b);
    if ka == kb {
        assert(va <= vb) by (nonlinear_arith)
            requires
                a <= b,
                va == a * pow2((63 - ka) as nat),
                vb == b * pow2((63 - ka) as nat),
                pow2((63 - ka) as nat) >= 0,
        ;
        vstd::arithmetic::div_mod::lemma_div_is_ordered(
            va - 0x8000_0000_0000_0000,
            vb - 0x8000_0000_0000_0000,
            0x8000_0000,
        );
    } else {
        // One whole octave separates them: the fraction never bridges it.
        assert((va - 0x8000_0000_0000_0000) / 0x8000_0000 < SCALE as int);
        vstd::arithmetic::div_mod::lemma_div_pos_is_pos(
            vb - 0x8000_0000_0000_0000,
            0x8000_0000,
        );
        assert((ka + 1) * (SCALE as int) <= kb * (SCALE as int)) by (nonlinear_arith)
            requires
                ka + 1 <= kb,
        ;
    }
}

/// Law: the normalized escape metric is monotone in the escape count; a
/// point that escapes later never maps below one that escapes earlier.
pub proof fn lemma_normalize_monotone(i1: nat, i2: nat, n: nat)
    requires
        i1 <= i2 < n,
        n <= 0xFFFF_FFFF_FFFF_FFFF,
    ensures
        spec_normalize(i1, n) <= spec_normalize(i2, n),
{
    if n > 1 {
        let num1 = spec_log2_fx(i1 + 1);
        let num2 = spec_log2_fx(i2 + 1);
        let den = spec_log2_fx((n - 1) as nat);
        lemma_log2_fx_monotone(i1 + 1, i2 + 1);
        lemma_log2_fx_range(i1 + 1);
        lemma_log2_fx_range(i2 + 1);
        if den > 0 {
            vstd::arithmetic::div_mod::lemma_div_is_ordered(
                num1 * (SCALE as int),
                num2 * (SCALE as int),
                den,
            );
        }
    }
}

/// A product of unit-interval values stays within both factors.
pub proof fn lemma_unit_mul(a: int, b: int)
    requires
        0 <= a <= SCALE as int,
        0 <= b <= SCALE as int,
    ensures
        0 <= fx_mul_val(a, b) <= a,
        fx_mul_val(a, b) <= b,
{
    assert(0 <= a * b && a * b <= (0x1_0000_0000 as int) * a && a * b <= (0x1_0000_0000 as int)
        * b) by (nonlinear_arith)
        requires
            0 <= a <= 0x1_0000_0000,
            0 <= b <= 0x1_0000_0000,
    ;
    vstd::arithmetic::div_mod::lemma_div_pos_is_pos(a * b, SCALE as int);
    vstd::arithmetic::div_mod::lemma_div_is_ordered(a * b, (0x1_0000_0000 as int) * a, SCALE as int);
    vstd::arithmetic::div_mod::lemma_div_is_ordered(a * b, (0x1_0000_0000 as int) * b, SCALE as int);
    vstd::arithmetic::div_mod::lemma_div_multiples_vanish(a, SCALE as int);
    vstd::arithmetic::div_mod::lemma_div_multiples_vanish(b, SCALE as int);
}

/// Cubic in/out easing of a unit-interval value: `4c^3` on the first half,
/// `1 - (2 - 2c)^3 / 2` on the second, clamped against rounding.
pub open spec fn spec_cubic_in_out(c: int) -> int
    recommends
        0 <= c <= SCALE as int,
{
    if c < HALF as int {
        clamp_unit(4 * fx_mul_val(fx_mul_val(c, c), c))
    } else {
        let u = 2 * (SCALE as int) - 2 * c;
        clamp_unit((SCALE as int) - tdiv(fx_mul_val(fx_mul_val(u, u), u), 2))
    }
}

/// Executable cubic in/out easing.
pub fn cubic_in_out(c: i64) -> (r: i64)
    requires
        0 <= c <= SCALE,
    ensures
        r == spec_cubic_in_out(c as int),
        0 <= r <= SCALE,
{
    if c < HALF {
        proof {
            lemma_unit_mul(c as int, c as int);
            lemma_unit_mul(fx_mul_val(c as int, c as int), c as int);
        }
        let c2 = fx_mul(c, c).unwrap();
        let c3 = fx_mul(c2, c).unwrap();
        fx_clamp_unit(4 * c3)
    } else {
        let u = 2 * (SCALE - c);
        proof {
            lemma_unit_mul(u as int, u as int);
            lemma_unit_mul(fx_mul_val(u as int, u as int), u as int);
        }
        let u2 = fx_mul(u, u).unwrap();
        let u3 = fx_mul(u2, u).unwrap();
        let half_u3 = ((u3 as u64) / 2) as i64;
        fx_clamp_unit(SCALE - half_u3)
    }
}

/// Quadratic-out easing of a unit-interval value: `2c - c^2`, clamped
/// against rounding. A smooth monotonic curve that rises fast first, used
/// for the lightness channel.
pub open spec fn spec_ease_out(c: int) -> int
    recommends
        0 <= c <= SCALE as int,
{
    clamp_unit(2 * c - fx_mul_val(c, c))
}

/// Executable quadratic-out easing.
pub fn ease_out(c: i64) -> (r: i64)
    requires
        0 <= c <= SCALE,
    ensures
        r == spec_ease_out(c as int),
        0 <= r <= SCALE,
{
    proof {
        lemma_unit_mul(c as int, c as int);
    }
    let c2 = fx_mul(c, c).unwrap();
    fx_clamp_unit(2 * c - c2)
}

/// The easing curves fix both ends of the unit interval.
pub proof fn lemma_easing_endpoints()
    ensures
        spec_cubic_in_out(0) == 0,
        spec_cubic_in_out(SCALE as int) == SCALE as int,
        spec_ease_out(0) == 0,
        spec_ease_out(SCALE as int) == SCALE as int,
{
}

/// Hue of an eased value and a shift, wrapped into one turn:
/// `(360 * (e + shift)) mod 360` in degrees.
pub open spec fn spec_hue(e: int, shift: int) -> int
    recommends
        0 <= e <= SCALE as int,
        0 <= shift <= SCALE as int,
{
    (360 * (e + shift)) % (HUE_TURN as int)
}

/// Executable hue composition.
pub fn hue_fx(e: i64, shift: i64) -> (r: i64)
    requires
        0 <= e <= SCALE,
        0 <= shift <= SCALE,
    ensures
        r == spec_hue(e as int, shift as int),
        0 <= r < HUE_TURN,
{
    let t: u64 = 360 * ((e + shift) as u64);
    let w: u64 = t % (HUE_TURN as u64);
    w as i64
}

/// Law: the hue wraps modulo one full turn; shifting by a whole unit (360
/// degrees) changes nothing.
pub proof fn lemma_hue_periodic(e: int, shift: int)
    ensures
        spec_hue(e, shift + SCALE as int) == spec_hue(e, shift),
{
    vstd::arithmetic::div_mod::lemma_mod_add_multiples_vanish(
        360 * (e + shift),
        HUE_TURN as int,
    );
}

/// A raster pixel: four 8-bit channels.
#[derive(Clone, Copy, PartialEq, Eq, Structural, Debug)]
pub struct Rgba {
    pub r: u8,
    pub g: u8,
    pub b: u8,
    pub a: u8,
}

/// A unit-interval channel value scaled to a byte, clamped into `[0, 255]`.
pub open spec fn spec_channel(v: int) -> int {
    let w = if v < 0 {
        0
    } else {
        v
    };
    let b = (w * 255) / (SCALE as int);
    if b > 255 {
        255
    } else {
        b
    }
}

/// HSL to RGB by the standard sector decomposition: `h` in `[0, 360)`
/// degrees (raw: `[0, HUE_TURN)`), `s` and `l` in the unit interval; the
/// result channels lie in `[0, 255]`.
pub open spec fn spec_hsl_to_rgb(h: int, s: int, l: int) -> (int, int, int)
    recommends
        0 <= h < HUE_TURN as int,
        0 <= s <= SCALE as int,
        0 <= l <= SCALE as int,
{
    let two_l = 2 * l;
    let dl = if two_l >= SCALE as int {
        two_l - SCALE as int
    } else {
        (SCALE as int) - two_l
    };
    let chroma = fx_mul_val((SCALE as int) - dl, s);
    let hf = (h % (2 * (HUE_SECTOR as int))) / 60;
    let dh = if hf >= SCALE as int {
        hf - SCALE as int
    } else {
        (SCALE as int) - hf
    };
    let x = fx_mul_val(chroma, (SCALE as int) - dh);
    let m = l - chroma / 2;
    let sector = h / (HUE_SECTOR as int);
    let rgb1 = if sector == 0 {
        (chroma, x, 0)
    } else if sector == 1 {
        (x, chroma, 0)
    } else if sector == 2 {
        (0, chroma, x)
    } else if sector == 3 {
        (0, x, chroma)
    } else if sector == 4 {
        (x, 0, chroma)
    } else {
        (chroma, 0, x)
    };
    (spec_channel(rgb1.0 + m), spec_channel(rgb1.1 + m), spec_channel(rgb1.2 + m))
}

/// Executable channel scaling.
fn channel(v: i64) -> (r: u8)
    requires
        -0x1_0000_0000_0000 <= v <= 0x1_0000_0000_0000,
    ensures
        r == spec_channel(v as int),
{
    let w: i64 = if v < 0 {
        0
    } else {
        v
    };
    let b: u64 = ((w as u64) * 255) / (SCALE as u64);
    if b > 255 {
        255
    } else {
        b as u8
    }
}

/// Executable HSL to RGB conversion.
pub fn hsl_to_rgb(h: i64, s: i64, l: i64) -> (rgb: (u8, u8, u8))
    requires
        0 <= h < HUE_TURN,
        0 <= s <= SCALE,
        0 <= l <= SCALE,
    ensures
        (rgb.0 as int, rgb.1 as int, rgb.2 as int) == spec_hsl_to_rgb(h as int, s as int, l as int),
{
    let two_l = 2 * l;
    let dl = if two_l >= SCALE {
        two_l - SCALE
    } else {
        SCALE - two_l
    };
    proof {
        lemma_unit_mul(SCALE as int - dl as int, s as int);
    }
    let chroma = fx_mul(SCALE - dl, s).unwrap();
    let hf = ((h as u64) % (2 * (HUE_SECTOR as u64)) / 60) as i64;
    let dh = if hf >= SCALE {
        hf - SCALE
    } else {
        SCALE - hf
    };
    proof {
        vstd::arithmetic::div_mod::lemma_mod_division_less_than_divisor(
            h as int,
            2 * (HUE_SECTOR as int),
        );
        vstd::arithmetic::div_mod::lemma_div_pos_is_pos(
            (h as int) % (2 * (HUE_SECTOR as int)),
            60,
        );
        vstd::arithmetic::div_mod::lemma_div_is_ordered(
            (h as int) % (2 * (HUE_SECTOR as int)),
            2 * (HUE_SECTOR as int) - 1,
            60,
        );
        lemma_unit_mul(chroma as int, SCALE as int - dh as int);
    }
    let x = fx_mul(chroma, SCALE - dh).unwrap();
    let m = l - ((chroma as u64) / 2) as i64;
    let sector = ((h as u64) / (HUE_SECTOR as u64)) as i64;
    let rgb1: (i64, i64, i64) = if sector == 0 {
        (chroma, x, 0)
    } else if sector == 1 {
        (x, chroma, 0)
    } else if sector == 2 {
        (0, chroma, x)
    } else if sector == 3 {
        (0, x, chroma)
    } else if sector == 4 {
        (x, 0, chroma)
    } else {
        (chroma, 0, x)
    };
    (channel(rgb1.0 + m), channel(rgb1.1 + m), channel(rgb1.2 + m))
}

/// A channel value is a byte.
pub proof fn lemma_channel_range(v: int)
    ensures
        0 <= spec_channel(v) <= 255,
{
    let w = if v < 0 {
        0
    } else {
        v
    };
    vstd::arithmetic::div_mod::lemma_div_pos_is_pos(w * 255, SCALE as int);
}

/// The full color of one escape outcome: opaque black for bounded points,
/// the eased HSL gradient for escaped ones; the alpha channel is always
/// fully opaque.
pub open spec fn spec_color_of(res: EscapeResult, n: nat, shift: int, sat: int) -> Rgba {
    match res {
        EscapeResult::Bounded => Rgba { r: 0, g: 0, b: 0, a: 255 },
        EscapeResult::Escaped(i) => {
            let c = spec_normalize(i as nat, n);
            let e = spec_cubic_in_out(c);
            let h = spec_hue(e, shift);
            let l = spec_ease_out(c);
            let rgb = spec_hsl_to_rgb(h, sat, l);
            Rgba { r: rgb.0 as u8, g: rgb.1 as u8, b: rgb.2 as u8, a: 255 }
        },
    }
}

/// Executable color mapping of one escape outcome.
pub fn color_of(res: EscapeResult, n: usize, base: i64, shift: i64, sat: i64) -> (p: Rgba)
    requires
        res matches EscapeResult::Escaped(i) ==> i < n,
        base == spec_base(n as nat),
        0 <= shift <= SCALE,
        0 <= sat <= SCALE,
    ensures
        p == spec_color_of(res, n as nat, shift as int, sat as int),
        p.a == 255,
{
    match res {
        EscapeResult::Bounded => Rgba { r: 0, g: 0, b: 0, a: 255 },
        EscapeResult::Escaped(i) => {
            let c = normalize(i, n, base);
            let e = cubic_in_out(c);
            let h = hue_fx(e, shift);
            let l = ease_out(c);
            let rgb = hsl_to_rgb(h, sat, l);
            proof {
                assert forall|v: int| 0 <= #[trigger] spec_channel(v) <= 255 by {
                    lemma_channel_range(v);
                }
            }
            Rgba { r: rgb.0, g: rgb.1, b: rgb.2, a: 255 }
        },
    }
}

/// Law: for every normalized input in the unit interval and every configured
/// shift and saturation in the unit interval, the color mapper's hue lies in
/// `[0, 360)` degrees, its eased lightness stays in the unit interval, and
/// every RGB channel it produces is a byte.
pub proof fn lemma_color_components_valid(c: int, shift: int, sat: int)
    requires
        0 <= c <= SCALE as int,
        0 <= shift <= SCALE as int,
        0 <= sat <= SCALE as int,
    ensures
        0 <= spec_cubic_in_out(c) <= SCALE as int,
        0 <= spec_ease_out(c) <= SCALE as int,
        0 <= spec_hue(spec_cubic_in_out(c), shift) < HUE_TURN as int,
        ({
            let rgb = spec_hsl_to_rgb(
                spec_hue(spec_cubic_in_out(c), shift),
                sat,
                spec_ease_out(c),
            );
            0 <= rgb.0 <= 255 && 0 <= rgb.1 <= 255 && 0 <= rgb.2 <= 255
        }),
{
    vstd::arithmetic::div_mod::lemma_mod_division_less_than_divisor(
        360 * (spec_cubic_in_out(c) + shift),
        HUE_TURN as int,
    );
    assert forall|v: int| 0 <= #[trigger] spec_channel(v) <= 255 by {
        lemma_channel_range(v);
    }
}

} // verus!
