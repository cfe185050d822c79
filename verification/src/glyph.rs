//! The glyph mapper: quantizing per-cell intensity into characters.
//!
//! A scalar intensity in `0..=255` is bucketed linearly into a glyph ramp
//! (ordered sparse to dense). In braille mode, a cell's 2x4 sub-sample block
//! is thresholded against its own mean to form an eight-dot pattern, which
//! maps one-to-one onto the braille codepoint block at `U+2800`. Glyphs are
//! carried as Unicode scalar values.

use vstd::prelude::*;
use vstd::arithmetic::div_mod::lemma_multiply_divide_le;
use vstd::arithmetic::div_mod::lemma_div_pos_is_pos;
use vstd::arithmetic::mul::lemma_mul_inequality;
use vstd::arithmetic::mul::lemma_mul_nonnegative;
use crate::pixel::Rgb;

verus! {

/// First codepoint of the Unicode braille patterns block.
pub const BRAILLE_BASE: u32 = 0x2800;

/// The ramp bucket that an intensity in `0..=255` falls in, for a ramp of
/// `len` glyphs: `floor(intensity * (len - 1) / 255)`, so 0 maps to the
/// first glyph and 255 to the last.
pub open spec fn spec_ramp_index(intensity: int, len: int) -> int {
    intensity * (len - 1) / 255
}

/// Map an intensity onto a glyph of the ramp.
pub fn map_intensity(intensity: u8, ramp: &Vec<u32>) -> (r: u32)
    requires
        ramp@.len() >= 1,
        ramp@.len() * 255 <= u64::MAX,
    ensures
        0 <= spec_ramp_index(intensity as int, ramp@.len() as int) < ramp@.len(),
        r == ramp@[spec_ramp_index(intensity as int, ramp@.len() as int)],
{
    let len = ramp.len();
    proof {
        lemma_mul_nonnegative(intensity as int, len as int - 1);
        lemma_div_pos_is_pos(intensity as int * (len as int - 1), 255);
        lemma_mul_inequality(intensity as int, 255, len as int - 1);
        lemma_multiply_divide_le(intensity as int * (len as int - 1), 255, len as int - 1);
        assert(intensity as int * (len as int - 1) <= 255 * (len as int - 1))
            by (nonlinear_arith)
            requires
                intensity <= 255,
                len >= 1,
        ;
        assert(255 * (len as int - 1) <= len as int * 255) by (nonlinear_arith)
            requires
                len >= 1,
        ;
    }
    let idx: usize = (((intensity as u64) * ((len - 1) as u64)) / 255) as usize;
    ramp[idx]
}

/// The braille codepoint that an eight-dot pattern selects.
pub open spec fn spec_braille_encode(bits: u8) -> u32 {
    (BRAILLE_BASE + bits) as u32
}

/// The dot pattern of a codepoint in the braille block.
pub open spec fn spec_braille_decode(cp: u32) -> u8 {
    (cp - BRAILLE_BASE) as u8
}

/// Compose a braille glyph from an eight-dot pattern.
pub fn braille_encode(bits: u8) -> (r: u32)
    ensures
        r == spec_braille_encode(bits),
        BRAILLE_BASE <= r < BRAILLE_BASE + 256,
{
    BRAILLE_BASE + bits as u32
}

/// Recover the dot pattern from a braille glyph.
pub fn braille_decode(cp: u32) -> (r: u8)
    requires
        BRAILLE_BASE <= cp < BRAILLE_BASE + 256,
    ensures
        r == spec_braille_decode(cp),
{
    (cp - BRAILLE_BASE) as u8
}

/// Law: the sub-cell dot pattern round-trips through its braille glyph.
/// Every eight-dot pattern maps to a distinct codepoint in the braille
/// block, and decoding that codepoint returns the pattern unchanged.
pub proof fn lemma_braille_round_trip(bits: u8)
    ensures
        spec_braille_decode(spec_braille_encode(bits)) == bits,
        BRAILLE_BASE <= spec_braille_encode(bits) < BRAILLE_BASE + 256,
{
}

/// The luminance sub-sample for dot `(dx, dy)` of cell `(cx, cy)` on a
/// sample grid of width `sw` whose cells are 2 samples wide and 4 tall.
pub open spec fn sub_sample(
    lum: Seq<u8>,
    sw: int,
    cx: int,
    cy: int,
    dx: int,
    dy: int,
) -> int {
    lum[(4 * cy + dy) * sw + (2 * cx + dx)] as int
}

/// The sum of a cell's eight sub-samples.
pub open spec fn block_sum(lum: Seq<u8>, sw: int, cx: int, cy: int) -> int {
    sub_sample(lum, sw, cx, cy, 0, 0) + sub_sample(lum, sw, cx, cy, 1, 0)
        + sub_sample(lum, sw, cx, cy, 0, 1) + sub_sample(lum, sw, cx, cy, 1, 1)
        + sub_sample(lum, sw, cx, cy, 0, 2) + sub_sample(lum, sw, cx, cy, 1, 2)
        + sub_sample(lum, sw, cx, cy, 0, 3) + sub_sample(lum, sw, cx, cy, 1, 3)
}

/// One thresholded dot: set when its sub-sample exceeds the block mean.
pub open spec fn dot(lum: Seq<u8>, sw: int, cx: int, cy: int, dx: int, dy: int) -> int {
    if sub_sample(lum, sw, cx, cy, dx, dy) > block_sum(lum, sw, cx, cy) / 8 {
        1int
    } else {
        0int
    }
}

/// The eight-dot pattern of cell `(cx, cy)`: dots 1-3 are the left column's
/// top three rows, dots 4-6 the right column's, dot 7 bottom-left, dot 8
/// bottom-right, as the braille block orders them.
pub open spec fn spec_braille_bits(lum: Seq<u8>, sw: int, cx: int, cy: int) -> int {
    dot(lum, sw, cx, cy, 0, 0) + 2 * dot(lum, sw, cx, cy, 0, 1) + 4 * dot(lum, sw, cx, cy, 0, 2)
        + 8 * dot(lum, sw, cx, cy, 1, 0) + 16 * dot(lum, sw, cx, cy, 1, 1)
        + 32 * dot(lum, sw, cx, cy, 1, 2) + 64 * dot(lum, sw, cx, cy, 0, 3)
        + 128 * dot(lum, sw, cx, cy, 1, 3)
}

/// Threshold a cell's 2x4 sub-sample block into its dot pattern.
#[verifier::rlimit(60)]
pub fn braille_bits(lum: &Vec<u8>, sw: usize, sh: usize, cx: usize, cy: usize) -> (r: u8)
    requires
        lum@.len() == sw * sh,
        2 * cx + 1 < sw,
        4 * cy + 3 < sh,
    ensures
        r as int == spec_braille_bits(lum@, sw as int, cx as int, cy as int),
{
    let glen = lum.len();
    proof {
        crate::pixel::lemma_row_major_index_in_bounds(sw as int, sh as int, 2 * cx as int,
            4 * cy as int);
        crate::pixel::lemma_row_major_index_in_bounds(sw as int, sh as int, 2 * cx + 1,
            4 * cy as int);
        crate::pixel::lemma_row_major_index_in_bounds(sw as int, sh as int, 2 * cx as int,
            4 * cy + 1);
        crate::pixel::lemma_row_major_index_in_bounds(sw as int, sh as int, 2 * cx + 1,
            4 * cy + 1);
        crate::pixel::lemma_row_major_index_in_bounds(sw as int, sh as int, 2 * cx as int,
            4 * cy + 2);
        crate::pixel::lemma_row_major_index_in_bounds(sw as int, sh as int, 2 * cx + 1,
            4 * cy + 2);
        crate::pixel::lemma_row_major_index_in_bounds(sw as int, sh as int, 2 * cx as int,
            4 * cy + 3);
        crate::pixel::lemma_row_major_index_in_bounds(sw as int, sh as int, 2 * cx + 1,
            4 * cy + 3);
    }
    let s00: u32 = lum[(4 * cy) * sw + 2 * cx] as u32;
    let s10: u32 = lum[(4 * cy) * sw + 2 * cx + 1] as u32;
    let s01: u32 = lum[(4 * cy + 1) * sw + 2 * cx] as u32;
    let s11: u32 = lum[(4 * cy + 1) * sw + 2 * cx + 1] as u32;
    let s02: u32 = lum[(4 * cy + 2) * sw + 2 * cx] as u32;
    let s12: u32 = lum[(4 * cy + 2) * sw + 2 * cx + 1] as u32;
    let s03: u32 = lum[(4 * cy + 3) * sw + 2 * cx] as u32;
    let s13: u32 = lum[(4 * cy + 3) * sw + 2 * cx + 1] as u32;
    let mean: u32 = (s00 + s10 + s01 + s11 + s02 + s12 + s03 + s13) / 8;
    let b1: u8 = if s00 > mean { 1 } else { 0 };
    let b2: u8 = if s01 > mean { 1 } else { 0 };
    let b3: u8 = if s02 > mean { 1 } else { 0 };
    let b4: u8 = if s10 > mean { 1 } else { 0 };
    let b5: u8 = if s11 > mean { 1 } else { 0 };
    let b6: u8 = if s12 > mean { 1 } else { 0 };
    let b7: u8 = if s03 > mean { 1 } else { 0 };
    let b8: u8 = if s13 > mean { 1 } else { 0 };
    b1 + 2 * b2 + 4 * b3 + 8 * b4 + 16 * b5 + 32 * b6 + 64 * b7 + 128 * b8
}

/// A rendered cell's foreground: the resampled color, or none in grayscale
/// mode, where only the glyph carries the intensity.
#[derive(Clone, Copy, PartialEq, Eq, Structural, Debug)]
pub enum CellColor {
    /// Grayscale mode: no color attached.
    Mono,
    /// Color mode: 24-bit foreground.
    Colored { r: u8, g: u8, b: u8 },
}

/// One rendered terminal cell: a glyph (as a Unicode scalar value) and its
/// foreground color.
#[derive(Clone, Copy, PartialEq, Eq, Structural, Debug)]
pub struct GlyphCell {
    pub glyph: u32,
    pub color: CellColor,
}

/// The cell rendered for a given intensity and resampled color.
pub open spec fn spec_render_cell(
    intensity: int,
    color: Rgb,
    grayscale: bool,
    ramp: Seq<u32>,
) -> GlyphCell {
    GlyphCell {
        glyph: ramp[spec_ramp_index(intensity, ramp.len() as int)],
        color: if grayscale {
            CellColor::Mono
        } else {
            CellColor::Colored { r: color.r, g: color.g, b: color.b }
        },
    }
}

/// Render one cell from its intensity and resampled color.
pub fn render_cell(intensity: u8, color: Rgb, grayscale: bool, ramp: &Vec<u32>) -> (r: GlyphCell)
    requires
        ramp@.len() >= 1,
        ramp@.len() * 255 <= u64::MAX,
    ensures
        r == spec_render_cell(intensity as int, color, grayscale, ramp@),
{
    let glyph = map_intensity(intensity, ramp);
    let cell_color = if grayscale {
        CellColor::Mono
    } else {
        CellColor::Colored { r: color.r, g: color.g, b: color.b }
    };
    GlyphCell { glyph, color: cell_color }
}

} // verus!
