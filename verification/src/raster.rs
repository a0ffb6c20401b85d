//! Row-wise rasterization of the whole image.
//!
//! A `RenderConfig` fixes the viewport, the raster size, the iteration
//! budget, the exponent and the color parameters. The raster is a flat
//! buffer of `width * height * 4` bytes, row-major with the top row first,
//! four channels (R, G, B, A) per pixel. Rows are independent: each one is a
//! pure function of the configuration and the row index, so the whole image
//! may be assembled sequentially or row-parallel with byte-identical output;
//! both paths are pinned to the same `spec_raster`.

use vstd::prelude::*;
use rayon::iter::IntoParallelIterator;
use rayon::iter::ParallelIterator;
use crate::fx::SCALE;
use crate::coords::{Viewport, spec_scale_x, spec_scale_y, spec_map_x, spec_map_y, scale_x,
    scale_y, map_point};
use crate::escape::{spec_escape, escape_time};
use crate::color::{spec_color_of, spec_base, base_of, color_of, Rgba};

verus! {

/// Immutable description of one render, passed by value into the pipeline;
/// no global state is involved.
#[derive(Clone, Copy, PartialEq, Eq, Structural, Debug)]
pub struct RenderConfig {
    pub viewport: Viewport,
    pub width: usize,
    pub height: usize,
    pub max_iterations: usize,
    pub power: usize,
    /// Hue shift in turns, raw fixed point in `[0, SCALE]`.
    pub hue_shift: i64,
    /// Saturation, raw fixed point in `[0, SCALE]`.
    pub saturation: i64,
    /// Distribute row rendering over a worker pool?
    pub parallel: bool,
}

/// A rejected configuration: a zero dimension or a zero iteration budget,
/// refused before anything is allocated or rendered.
#[derive(Clone, Copy, PartialEq, Eq, Structural, Debug)]
pub enum ConfigError {
    ZeroWidth,
    ZeroHeight,
    ZeroIterations,
}

impl RenderConfig {
    /// Machine limits: viewport coordinates representable, color parameters
    /// in the unit interval, and a buffer size that fits `usize`.
    pub open spec fn wf(self) -> bool {
        &&& self.viewport.in_range()
        &&& 0 <= self.hue_shift <= SCALE
        &&& 0 <= self.saturation <= SCALE
        &&& self.width * self.height * 4 <= usize::MAX
    }

    /// A renderable configuration: positive dimensions and budget.
    pub open spec fn valid(self) -> bool {
        self.width >= 1 && self.height >= 1 && self.max_iterations >= 1
    }
}

/// The color of pixel `(x, y)`: map to the plane, evaluate the escape time,
/// map the outcome to a color.
pub open spec fn spec_pixel(cfg: RenderConfig, x: int, y: int) -> Rgba {
    let cre = spec_map_x(cfg.viewport, cfg.width as int, x);
    let cim = spec_map_y(cfg.viewport, cfg.height as int, y);
    let res = spec_escape((cre, cim), cfg.power as nat, cfg.max_iterations as nat);
    spec_color_of(res, cfg.max_iterations as nat, cfg.hue_shift as int, cfg.saturation as int)
}

/// Row `y` as bytes: byte `i` is channel `i % 4` of pixel `i / 4`.
pub open spec fn spec_row(cfg: RenderConfig, y: int) -> Seq<u8> {
    Seq::new(
        (cfg.width * 4) as nat,
        |i: int|
            {
                let p = spec_pixel(cfg, i / 4, y);
                let ch = i % 4;
                if ch == 0 {
                    p.r
                } else if ch == 1 {
                    p.g
                } else if ch == 2 {
                    p.b
                } else {
                    p.a
                }
            },
    )
}

/// The full raster: `height` rows of `width * 4` bytes, top row first.
pub open spec fn spec_raster(cfg: RenderConfig) -> Seq<u8> {
    Seq::new(
        (cfg.width * cfg.height * 4) as nat,
        |i: int| spec_row(cfg, i / (cfg.width * 4) as int)[i % (cfg.width * 4) as int],
    )
}

/// A row's byte count fits `usize`, and `height` rows make the raster.
proof fn lemma_w4_fits(cfg: RenderConfig)
    requires
        cfg.wf(),
        cfg.valid(),
    ensures
        cfg.width * 4 <= usize::MAX,
        cfg.height * (cfg.width * 4) == cfg.width * cfg.height * 4,
{
    assert(cfg.width * 4 <= cfg.width * cfg.height * 4 && cfg.height * (cfg.width * 4)
        == cfg.width * cfg.height * 4) by (nonlinear_arith)
        requires
            cfg.height >= 1,
    ;
}

/// Where each channel of pixel `x` lands inside its row.
proof fn lemma_row_index(cfg: RenderConfig, y: int, x: int)
    requires
        0 <= x < cfg.width,
    ensures
        4 * x + 3 < cfg.width * 4,
        spec_row(cfg, y)[4 * x] == spec_pixel(cfg, x, y).r,
        spec_row(cfg, y)[4 * x + 1] == spec_pixel(cfg, x, y).g,
        spec_row(cfg, y)[4 * x + 2] == spec_pixel(cfg, x, y).b,
        spec_row(cfg, y)[4 * x + 3] == spec_pixel(cfg, x, y).a,
{
    vstd::arithmetic::div_mod::lemma_fundamental_div_mod_converse(4 * x, 4, x, 0);
    vstd::arithmetic::div_mod::lemma_fundamental_div_mod_converse(4 * x + 1, 4, x, 1);
    vstd::arithmetic::div_mod::lemma_fundamental_div_mod_converse(4 * x + 2, 4, x, 2);
    vstd::arithmetic::div_mod::lemma_fundamental_div_mod_converse(4 * x + 3, 4, x, 3);
}

/// Where each byte of row `y` lands inside the raster.
proof fn lemma_raster_index(cfg: RenderConfig, y: int, x: int)
    requires
        cfg.width >= 1,
        0 <= y < cfg.height,
        0 <= x < cfg.width * 4,
    ensures
        0 <= y * (cfg.width * 4) + x < cfg.width * cfg.height * 4,
        spec_raster(cfg)[y * (cfg.width * 4) + x] == spec_row(cfg, y)[x],
{
    let w4 = cfg.width * 4;
    assert(0 <= y * w4 + x < cfg.height * w4 && cfg.height * w4 == cfg.width * cfg.height * 4)
        by (nonlinear_arith)
        requires
            0 <= y < cfg.height,
            0 <= x < w4,
            w4 == cfg.width * 4,
    ;
    vstd::arithmetic::div_mod::lemma_fundamental_div_mod_converse(
        y * w4 + x,
        w4 as int,
        y,
        x,
    );
}

/// Render one pixel, given the precomputed per-render scale factors and
/// normalization base.
fn render_pixel(cfg: &RenderConfig, sx: i64, sy: i64, base: i64, x: usize, y: usize) -> (p: Rgba)
    requires
        cfg.wf(),
        cfg.valid(),
        x < cfg.width,
        y < cfg.height,
        sx == spec_scale_x(cfg.viewport, cfg.width as int),
        sy == spec_scale_y(cfg.viewport, cfg.height as int),
        base == spec_base(cfg.max_iterations as nat),
    ensures
        p == spec_pixel(*cfg, x as int, y as int),
{
    let c = map_point(&cfg.viewport, cfg.width, cfg.height, sx, sy, x, y);
    let res = escape_time(c, cfg.power, cfg.max_iterations);
    color_of(res, cfg.max_iterations, base, cfg.hue_shift, cfg.saturation)
}

/// Render row `y` into a fresh buffer of `width * 4` bytes.
#[verifier::loop_isolation(false)]
#[verifier::rlimit(60)]
pub fn render_row(cfg: &RenderConfig, y: usize) -> (row: Vec<u8>)
    requires
        cfg.wf(),
        cfg.valid(),
        y < cfg.height,
    ensures
        row@ == spec_row(*cfg, y as int),
{
    let sx = scale_x(&cfg.viewport, cfg.width);
    let sy = scale_y(&cfg.viewport, cfg.height);
    let base = base_of(cfg.max_iterations);
    let mut row: Vec<u8> = Vec::new();
    let mut x: usize = 0;
    while x < cfg.width
        invariant
            x <= cfg.width,
            row@.len() == 4 * x,
            forall|i: int| 0 <= i < 4 * x ==> row@[i] == spec_row(*cfg, y as int)[i],
        decreases cfg.width - x,
    {
        let p = render_pixel(cfg, sx, sy, base, x, y);
        row.push(p.r);
        row.push(p.g);
        row.push(p.b);
        row.push(p.a);
        proof {
            lemma_row_index(*cfg, y as int, x as int);
        }
        x = x + 1;
    }
    proof {
        assert(row@ =~= spec_row(*cfg, y as int));
    }
    row
}

/// Append one rendered row's bytes onto the raster buffer.
#[verifier::loop_isolation(false)]
fn push_row(cfg: &RenderConfig, buf: &mut Vec<u8>, row: &Vec<u8>, y: usize)
    requires
        cfg.wf(),
        cfg.valid(),
        y < cfg.height,
        row@ == spec_row(*cfg, y as int),
        old(buf)@.len() == y * (cfg.width * 4),
        forall|i: int| 0 <= i < old(buf)@.len() ==> old(buf)@[i] == spec_raster(*cfg)[i],
    ensures
        final(buf)@.len() == (y + 1) * (cfg.width * 4),
        forall|i: int| 0 <= i < final(buf)@.len() ==> final(buf)@[i] == spec_raster(*cfg)[i],
{
    proof {
        lemma_w4_fits(*cfg);
        assert((y + 1) * (cfg.width * 4) == y * (cfg.width * 4) + cfg.width * 4)
            by (nonlinear_arith);
    }
    let w4: usize = cfg.width * 4;
    let mut x: usize = 0;
    while x < w4
        invariant
            x <= w4,
            buf@.len() == y * (cfg.width * 4) + x,
            forall|i: int| 0 <= i < buf@.len() ==> buf@[i] == spec_raster(*cfg)[i],
        decreases w4 - x,
    {
        buf.push(row[x]);
        proof {
            lemma_raster_index(*cfg, y as int, x as int);
        }
        x = x + 1;
    }
}

/// Sequential rasterization: walk the rows in order with a single worker.
#[verifier::loop_isolation(false)]
pub fn render_seq(cfg: &RenderConfig) -> (buf: Vec<u8>)
    requires
        cfg.wf(),
        cfg.valid(),
    ensures
        buf@ == spec_raster(*cfg),
{
    proof {
        lemma_w4_fits(*cfg);
    }
    let mut buf: Vec<u8> = Vec::new();
    let mut y: usize = 0;
    while y < cfg.height
        invariant
            y <= cfg.height,
            buf@.len() == y * (cfg.width * 4),
            forall|i: int| 0 <= i < buf@.len() ==> buf@[i] == spec_raster(*cfg)[i],
        decreases cfg.height - y,
    {
        let row = render_row(cfg, y);
        push_row(cfg, &mut buf, &row, y);
        y = y + 1;
    }
    proof {
        assert(buf@ =~= spec_raster(*cfg));
    }
    buf
}

/// Relies on rayon: `(0..height).into_par_iter().map(f).collect()` over an
/// indexed parallel iterator yields exactly `[f(0), f(1), ..]` in index
/// order, whatever the worker pool's schedule; the closure only calls the
/// verified `render_row`.
#[verifier::external_body]
fn par_rows(cfg: &RenderConfig) -> (rows: Vec<Vec<u8>>)
    requires
        cfg.wf(),
        cfg.valid(),
    ensures
        rows@.len() == cfg.height,
        forall|y: int| 0 <= y < cfg.height ==> rows@[y]@ == spec_row(*cfg, y),
{
    (0..cfg.height).into_par_iter().map(|y| render_row(cfg, y)).collect()
}

/// Parallel rasterization: rows are rendered on a worker pool over disjoint
/// data, then concatenated in row order.
#[verifier::loop_isolation(false)]
pub fn render_par(cfg: &RenderConfig) -> (buf: Vec<u8>)
    requires
        cfg.wf(),
        cfg.valid(),
    ensures
        buf@ == spec_raster(*cfg),
{
    proof {
        lemma_w4_fits(*cfg);
    }
    let rows = par_rows(cfg);
    let mut buf: Vec<u8> = Vec::new();
    let mut y: usize = 0;
    while y < cfg.height
        invariant
            y <= cfg.height,
            buf@.len() == y * (cfg.width * 4),
            forall|i: int| 0 <= i < buf@.len() ==> buf@[i] == spec_raster(*cfg)[i],
        decreases cfg.height - y,
    {
        let row = &rows[y];
        push_row(cfg, &mut buf, row, y);
        y = y + 1;
    }
    proof {
        assert(buf@ =~= spec_raster(*cfg));
    }
    buf
}

/// Render the configured image, or reject the configuration. The error is
/// pinned: `ZeroWidth`, then `ZeroHeight`, then `ZeroIterations`, each
/// returned exactly on the stated inputs; every valid configuration renders.
pub fn render(cfg: &RenderConfig) -> (r: Result<Vec<u8>, ConfigError>)
    requires
        cfg.wf(),
    ensures
        r is Ok <==> cfg.valid(),
        r matches Ok(buf) ==> buf@ == spec_raster(*cfg),
        r == Err::<Vec<u8>, ConfigError>(ConfigError::ZeroWidth) <==> cfg.width == 0,
        r == Err::<Vec<u8>, ConfigError>(ConfigError::ZeroHeight) <==> cfg.width != 0
            && cfg.height == 0,
        r == Err::<Vec<u8>, ConfigError>(ConfigError::ZeroIterations) <==> cfg.width != 0
            && cfg.height != 0 && cfg.max_iterations == 0,
{
    if cfg.width == 0 {
        return Err(ConfigError::ZeroWidth);
    }
    if cfg.height == 0 {
        return Err(ConfigError::ZeroHeight);
    }
    if cfg.max_iterations == 0 {
        return Err(ConfigError::ZeroIterations);
    }
    if cfg.parallel {
        Ok(render_par(cfg))
    } else {
        Ok(render_seq(cfg))
    }
}

/// Law: the raster's bytes do not depend on the scheduling flag. Two
/// configurations that agree on everything but `parallel` describe the same
/// image, byte for byte.
pub proof fn lemma_parallel_agnostic(a: RenderConfig, b: RenderConfig)
    requires
        a.viewport == b.viewport,
        a.width == b.width,
        a.height == b.height,
        a.max_iterations == b.max_iterations,
        a.power == b.power,
        a.hue_shift == b.hue_shift,
        a.saturation == b.saturation,
    ensures
        spec_raster(a) == spec_raster(b),
{
    assert forall|y: int| true implies spec_row(a, y) == spec_row(b, y) by {
        assert(spec_row(a, y) =~= spec_row(b, y));
    }
    assert(spec_raster(a) =~= spec_raster(b));
}

/// Law: every pixel's alpha channel of a rendered raster is fully opaque.
pub proof fn lemma_alpha_opaque(cfg: RenderConfig, p: int)
    requires
        cfg.width >= 1,
        cfg.height >= 1,
        0 <= p < cfg.width * cfg.height,
    ensures
        0 <= 4 * p + 3 < cfg.width * cfg.height * 4,
        spec_raster(cfg)[4 * p + 3] == 255,
{
    let w = cfg.width as int;
    let w4 = w * 4;
    let y = p / w;
    let x = p % w;
    vstd::arithmetic::div_mod::lemma_fundamental_div_mod(p, w);
    vstd::arithmetic::div_mod::lemma_mod_division_less_than_divisor(p, w);
    vstd::arithmetic::div_mod::lemma_div_pos_is_pos(p, w);
    assert(y < cfg.height) by (nonlinear_arith)
        requires
            p == w * y + x,
            p < cfg.width * cfg.height,
            w == cfg.width,
            0 <= x < w,
            0 <= y,
    ;
    assert(4 * p + 3 == y * w4 + (4 * x + 3) && 4 * p + 3 < cfg.width * cfg.height * 4)
        by (nonlinear_arith)
        requires
            p == w * y + x,
            p < cfg.width * cfg.height,
            w4 == w * 4,
            w == cfg.width,
    ;
    lemma_row_index(cfg, y, x);
    lemma_raster_index(cfg, y, 4 * x + 3);
}

} // verus!
