//! A terminal character-art rendering engine.
//!
//! The pipeline decodes raster frames into uniform pixel buffers, plans a
//! character-grid geometry that preserves the visual aspect ratio of the
//! source, box-resamples each frame onto that grid, applies optional
//! enhancement filters (luminance with gamma compensation, unsharp-mask
//! sharpening, Sobel edge detection), quantizes per-cell intensity into
//! glyphs (or braille sub-cell dot patterns), and composites the result with
//! a double-buffered, diff-based redraw strategy. A playback planner paces
//! animated sequences and applies a bounded frame-skip policy.
//!
//! All intensities are integers: color channels and luminance live in
//! `0..=255`, and fractional configuration values (sharpen strength) are
//! carried in hundredths.

use vstd::prelude::*;

pub mod pixel;
pub mod geometry;
pub mod resample;
pub mod enhance;
pub mod glyph;
pub mod compositor;
pub mod playback;
pub mod config;
pub mod render;

verus! {

/// Clamp an integer intensity into the inclusive byte range `0..=255`.
pub open spec fn clamp_byte(v: int) -> int {
    if v < 0 {
        0
    } else if v > 255 {
        255
    } else {
        v
    }
}

} // verus!
