//! Pixel-to-plane coordinate mapping.
//!
//! A `Viewport` names the rectangular region of the complex plane that the
//! raster covers. Pixel `(x, y)` of a `w * h` raster maps to
//! `(left + x * sx, top + y * sy)` with the per-render scale factors
//! `sx = (right - left) / w` and `sy = (bottom - top) / h`, all in raw
//! fixed-point values. The pixel grid is half open: the last column stays one
//! scale step short of the right edge, and likewise for rows.

use vstd::prelude::*;
use crate::fx::tdiv;
use crate::fx::fx_div_w;
use crate::fx::mul_int;
use crate::complex::CPoint;

verus! {

/// Largest raw coordinate magnitude the mapper accepts: `2^61`, i.e. about
/// `5.8e8` once the 32 fractional bits are stripped. Keeping all four
/// viewport edges within this bound keeps every span and every mapped point
/// representable in `i64`.
pub const COORD_LIMIT: i64 = 0x2000_0000_0000_0000;

/// Rectangular region of the complex plane, in raw fixed-point coordinates.
/// `left < right` and `top < bottom` are expected but not required: a
/// collapsed axis yields a zero scale factor and a constant coordinate, not
/// an error.
#[derive(Clone, Copy, PartialEq, Eq, Structural, Debug)]
pub struct Viewport {
    pub left: i64,
    pub right: i64,
    pub top: i64,
    pub bottom: i64,
}

impl Viewport {
    /// Machine limit: all four edges within `[-2^61, 2^61]`.
    pub open spec fn in_range(self) -> bool {
        &&& -COORD_LIMIT <= self.left <= COORD_LIMIT
        &&& -COORD_LIMIT <= self.right <= COORD_LIMIT
        &&& -COORD_LIMIT <= self.top <= COORD_LIMIT
        &&& -COORD_LIMIT <= self.bottom <= COORD_LIMIT
    }
}

/// Horizontal scale factor `(right - left) / w`, truncated toward zero.
pub open spec fn spec_scale_x(vp: Viewport, w: int) -> int {
    tdiv(vp.right - vp.left, w)
}

/// Vertical scale factor `(bottom - top) / h`, truncated toward zero.
pub open spec fn spec_scale_y(vp: Viewport, h: int) -> int {
    tdiv(vp.bottom - vp.top, h)
}

/// Real part of the plane point of pixel column `x`.
pub open spec fn spec_map_x(vp: Viewport, w: int, x: int) -> int {
    vp.left + x * spec_scale_x(vp, w)
}

/// Imaginary part of the plane point of pixel row `y`.
pub open spec fn spec_map_y(vp: Viewport, h: int, y: int) -> int {
    vp.top + y * spec_scale_y(vp, h)
}

/// For a span `d` with `|d| <= 2^62` and a pixel index `x < w`, the offset
/// `x * (d / w)` lies between `0` and `d`.
pub proof fn lemma_mul_scale_bound(d: int, w: int, x: int)
    requires
        w >= 1,
        0 <= x < w,
    ensures
        d >= 0 ==> 0 <= x * tdiv(d, w) <= d,
        d < 0 ==> d <= x * tdiv(d, w) <= 0,
{
    if d >= 0 {
        let q = d / w;
        vstd::arithmetic::div_mod::lemma_div_pos_is_pos(d, w);
        vstd::arithmetic::div_mod::lemma_fundamental_div_mod(d, w);
        vstd::arithmetic::div_mod::lemma_remainder_upper(d, w);
        vstd::arithmetic::div_mod::lemma_remainder_lower(d, w);
        assert(0 <= x * q <= d) by (nonlinear_arith)
            requires
                0 <= q,
                0 <= x < w,
                w * q <= d,
        ;
    } else {
        let e = -d;
        let q = e / w;
        vstd::arithmetic::div_mod::lemma_div_pos_is_pos(e, w);
        vstd::arithmetic::div_mod::lemma_fundamental_div_mod(e, w);
        vstd::arithmetic::div_mod::lemma_remainder_upper(e, w);
        vstd::arithmetic::div_mod::lemma_remainder_lower(e, w);
        assert(0 <= x * q <= e) by (nonlinear_arith)
            requires
                0 <= q,
                0 <= x < w,
                w * q <= e,
        ;
        assert(x * tdiv(d, w) == -(x * q)) by (nonlinear_arith)
            requires
                tdiv(d, w) == -q,
        ;
    }
}

/// Executable horizontal scale factor.
pub fn scale_x(vp: &Viewport, w: usize) -> (r: i64)
    requires
        w >= 1,
        vp.in_range(),
    ensures
        r == spec_scale_x(*vp, w as int),
{
    fx_div_w(vp.right - vp.left, w)
}

/// Executable vertical scale factor.
pub fn scale_y(vp: &Viewport, h: usize) -> (r: i64)
    requires
        h >= 1,
        vp.in_range(),
    ensures
        r == spec_scale_y(*vp, h as int),
{
    fx_div_w(vp.bottom - vp.top, h)
}

/// Map pixel `(x, y)` to its point of the complex plane. `sx` and `sy` must
/// be the per-render scale factors of the same viewport and raster size.
pub fn map_point(vp: &Viewport, w: usize, h: usize, sx: i64, sy: i64, x: usize, y: usize) -> (c:
    CPoint)
    requires
        vp.in_range(),
        1 <= w,
        1 <= h,
        x < w,
        y < h,
        sx == spec_scale_x(*vp, w as int),
        sy == spec_scale_y(*vp, h as int),
    ensures
        c.re == spec_map_x(*vp, w as int, x as int),
        c.im == spec_map_y(*vp, h as int, y as int),
{
    proof {
        lemma_mul_scale_bound(vp.right - vp.left, w as int, x as int);
        lemma_mul_scale_bound(vp.bottom - vp.top, h as int, y as int);
    }
    let px = mul_int(x, sx).unwrap();
    let py = mul_int(y, sy).unwrap();
    CPoint { re: vp.left + px, im: vp.top + py }
}

/// The first pixel maps exactly onto the viewport's top-left corner.
pub proof fn lemma_first_pixel(vp: Viewport, w: int, h: int)
    requires
        w >= 1,
        h >= 1,
    ensures
        spec_map_x(vp, w, 0) == vp.left,
        spec_map_y(vp, h, 0) == vp.top,
{
}

/// The last pixel stays at least one scale step short of the far edge of a
/// non-collapsed viewport: the pixel grid is half open.
pub proof fn lemma_last_pixel(vp: Viewport, w: int, h: int)
    requires
        w >= 1,
        h >= 1,
        vp.left <= vp.right,
        vp.top <= vp.bottom,
    ensures
        spec_map_x(vp, w, w - 1) == vp.left + (w - 1) * spec_scale_x(vp, w),
        spec_map_x(vp, w, w - 1) <= vp.right - spec_scale_x(vp, w),
        spec_map_y(vp, h, h - 1) == vp.top + (h - 1) * spec_scale_y(vp, h),
        spec_map_y(vp, h, h - 1) <= vp.bottom - spec_scale_y(vp, h),
{
    let d = vp.right - vp.left;
    let q = d / w;
    vstd::arithmetic::div_mod::lemma_fundamental_div_mod(d, w);
    vstd::arithmetic::div_mod::lemma_remainder_lower(d, w);
    assert((w - 1) * q == w * q - q) by (nonlinear_arith);
    let e = vp.bottom - vp.top;
    let p = e / h;
    vstd::arithmetic::div_mod::lemma_fundamental_div_mod(e, h);
    vstd::arithmetic::div_mod::lemma_remainder_lower(e, h);
    assert((h - 1) * p == h * p - p) by (nonlinear_arith);
}

/// A collapsed axis is defined, not an error: a zero span yields a zero
/// scale factor, and every pixel of that axis maps onto the same coordinate.
pub proof fn lemma_collapsed_axis(vp: Viewport, w: int, x: int)
    requires
        w >= 1,
        0 <= x < w,
        vp.left == vp.right,
    ensures
        spec_scale_x(vp, w) == 0,
        spec_map_x(vp, w, x) == vp.left,
{
    vstd::arithmetic::div_mod::lemma_div_of0(w);
}

} // verus!
