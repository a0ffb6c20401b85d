use fractal::coords::Viewport;
use fractal::raster::{RenderConfig, ConfigError, render, render_row, render_seq, render_par};
use fractal::fx::SCALE;

const S: i64 = SCALE;

fn small_config(parallel: bool) -> RenderConfig {
    RenderConfig {
        viewport: Viewport { left: -2 * S, right: S, top: -3 * S / 2, bottom: 3 * S / 2 },
        width: 2,
        height: 2,
        max_iterations: 10,
        power: 2,
        hue_shift: S / 2,
        saturation: 4 * (S / 5),
        parallel,
    }
}

fn larger_config(parallel: bool) -> RenderConfig {
    RenderConfig {
        viewport: Viewport {
            left: -29 * (S / 10),
            right: 19 * (S / 10),
            top: -27 * (S / 20),
            bottom: 27 * (S / 20),
        },
        width: 16,
        height: 12,
        max_iterations: 60,
        power: 2,
        hue_shift: S / 2,
        saturation: 4 * (S / 5),
        parallel,
    }
}

#[test]
fn end_to_end_two_by_two() {
    let cfg = small_config(false);
    let buf = render(&cfg).unwrap();
    assert_eq!(buf.len(), 16);
    for p in 0..4 {
        assert_eq!(buf[4 * p + 3], 255);
    }
}

#[test]
fn sequential_and_parallel_are_byte_identical() {
    let seq = render(&small_config(false)).unwrap();
    let par = render(&small_config(true)).unwrap();
    assert_eq!(seq, par);
    let seq2 = render(&larger_config(false)).unwrap();
    let par2 = render(&larger_config(true)).unwrap();
    assert_eq!(seq2, par2);
    assert_eq!(seq2.len(), 16 * 12 * 4);
}

#[test]
fn direct_mode_entry_points_agree() {
    let cfg = larger_config(false);
    assert_eq!(render_seq(&cfg), render_par(&cfg));
}

#[test]
fn alpha_is_opaque_everywhere() {
    let cfg = larger_config(true);
    let buf = render(&cfg).unwrap();
    for p in 0..(16 * 12) {
        assert_eq!(buf[4 * p + 3], 255);
    }
}

#[test]
fn first_row_matches_raster_prefix() {
    let cfg = larger_config(false);
    let row = render_row(&cfg, 0);
    let buf = render(&cfg).unwrap();
    assert_eq!(row.len(), 16 * 4);
    assert_eq!(&buf[..16 * 4], &row[..]);
}

#[test]
fn zero_width_is_rejected_first() {
    let mut cfg = small_config(false);
    cfg.width = 0;
    cfg.height = 0;
    cfg.max_iterations = 0;
    assert_eq!(render(&cfg), Err(ConfigError::ZeroWidth));
}

#[test]
fn zero_height_is_rejected() {
    let mut cfg = small_config(false);
    cfg.height = 0;
    cfg.max_iterations = 0;
    assert_eq!(render(&cfg), Err(ConfigError::ZeroHeight));
}

#[test]
fn zero_iterations_is_rejected() {
    let mut cfg = small_config(false);
    cfg.max_iterations = 0;
    assert_eq!(render(&cfg), Err(ConfigError::ZeroIterations));
}

#[test]
fn max_iterations_one_renders() {
    // Every point is bounded after a single iteration: an all-black image.
    let mut cfg = small_config(false);
    cfg.max_iterations = 1;
    let buf = render(&cfg).unwrap();
    for p in 0..4 {
        assert_eq!(buf[4 * p], 0);
        assert_eq!(buf[4 * p + 1], 0);
        assert_eq!(buf[4 * p + 2], 0);
        assert_eq!(buf[4 * p + 3], 255);
    }
}
