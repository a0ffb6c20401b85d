//! Escape-time fractal renderer over a fixed-point model of the complex
//! plane.
//!
//! The pipeline maps each pixel of a raster to a point of the complex plane
//! (`coords`), iterates the fractal update rule until the orbit escapes or an
//! iteration budget runs out (`escape`), turns the escape count into an RGBA
//! color through a logarithmic remapping and an HSL conversion (`color`), and
//! assembles the whole image row by row, sequentially or in parallel
//! (`raster`).
//!
//! Real quantities (coordinates, scale factors, color channels) are carried
//! as two's-complement fixed-point numbers with 32 fractional bits (`fx`), so
//! that every arithmetic step has an exact, machine-checked meaning.

pub mod fx;

pub mod complex;

pub mod escape;

pub mod coords;

pub mod color;

pub mod raster;

