//! The geometry planner: choosing a character-grid size for a pixel frame.
//!
//! Terminal cells are visually about twice as tall as wide, so a grid of
//! `cols` columns and `rows` rows shows with aspect ratio `cols / (2 * rows)`.
//! The planner picks the column count (from the terminal width, a preset
//! table, and the width-modulation factor), then rounds the row count so that
//! the shown aspect ratio tracks the source's `width / height`. Dimensions
//! are clamped to the terminal and never fall below 1x1. In braille mode each
//! cell samples a 2x4 sub-pixel block.

use vstd::prelude::*;
use vstd::math::abs;

verus! {

/// How many cell widths one cell height covers on a typical terminal font.
pub const CELL_ASPECT: u32 = 2;

/// Why rendering cannot proceed at all.
#[derive(Clone, Copy, PartialEq, Eq, Structural, Debug)]
pub enum RenderError {
    /// The terminal reports no usable area (its size could not be queried,
    /// or either dimension is zero).
    TerminalTooSmall,
}

/// Reject a terminal that reports no usable area before planning on it.
pub fn check_terminal(term_cols: u32, term_rows: u32) -> (r: Result<(), RenderError>)
    ensures
        r is Ok <==> (term_cols > 0 && term_rows > 0),
        r is Err ==> r == Result::<(), RenderError>::Err(RenderError::TerminalTooSmall),
{
    if term_cols > 0 && term_rows > 0 {
        Ok(())
    } else {
        Err(RenderError::TerminalTooSmall)
    }
}

/// The resolved grid: target dimensions in cells, and the sub-cell sample
/// block each cell covers (1x1 normally, 2x4 in braille mode).
#[derive(Clone, Copy, PartialEq, Eq, Structural, Debug)]
pub struct Geometry {
    pub target_cols: u32,
    pub target_rows: u32,
    pub block_w: u32,
    pub block_h: u32,
}

impl Geometry {
    /// Both grid dimensions are positive and the sample block is one of the
    /// two shapes the pipeline knows.
    pub open spec fn wf(self) -> bool {
        &&& self.target_cols >= 1
        &&& self.target_rows >= 1
        &&& ((self.block_w == 1 && self.block_h == 1)
            || (self.block_w == 2 && self.block_h == 4))
    }

    /// The pixel width of the sample grid a frame is resampled to.
    pub open spec fn sample_width(self) -> int {
        self.target_cols * self.block_w
    }

    /// The pixel height of the sample grid a frame is resampled to.
    pub open spec fn sample_height(self) -> int {
        self.target_rows * self.block_h
    }
}

/// The column target that a dimension preset (1 through 6) selects.
pub open spec fn spec_preset_cols(preset: u32) -> u32 {
    if preset == 1 {
        40u32
    } else if preset == 2 {
        60u32
    } else if preset == 3 {
        80u32
    } else if preset == 4 {
        100u32
    } else if preset == 5 {
        120u32
    } else {
        160u32
    }
}

/// Clamp `v` into `1..=hi`, treating a zero `hi` as 1.
pub open spec fn clamp_dim(v: int, hi: int) -> int {
    let top = if hi < 1 { 1int } else { hi };
    if v < 1 {
        1int
    } else if v > top {
        top
    } else {
        v
    }
}

/// The planned column count: preset table or terminal width, scaled by the
/// width-modulation factor, clamped to the terminal.
pub open spec fn spec_plan_cols(term_cols: u32, width_mod: u32, preset: u32) -> int {
    let base = if 1 <= preset <= 6 {
        spec_preset_cols(preset) as int
    } else {
        term_cols as int
    };
    clamp_dim(base * width_mod, term_cols as int)
}

/// The ideal (unclamped) row count for `cols` columns: the nearest integer to
/// `cols * src_h / (CELL_ASPECT * src_w)`, so that the shown aspect ratio
/// `cols / (CELL_ASPECT * rows)` tracks `src_w / src_h`.
pub open spec fn spec_ideal_rows(cols: int, src_w: int, src_h: int) -> int {
    (cols * src_h + src_w) / (2 * src_w)
}

/// The planned row count: the ideal row count clamped to the terminal.
pub open spec fn spec_plan_rows(cols: int, src_w: int, src_h: int, term_rows: u32) -> int {
    clamp_dim(spec_ideal_rows(cols, src_w, src_h), term_rows as int)
}

/// Plan the target grid for a source of `src_w x src_h` pixels on a terminal
/// of `term_cols x term_rows` cells.
pub fn plan(
    src_w: u32,
    src_h: u32,
    term_cols: u32,
    term_rows: u32,
    width_mod: u32,
    preset: u32,
    braille: bool,
) -> (g: Geometry)
    requires
        src_w > 0,
        src_h > 0,
        width_mod > 0,
    ensures
        g.wf(),
        g.target_cols as int == spec_plan_cols(term_cols, width_mod, preset),
        g.target_rows as int == spec_plan_rows(
            g.target_cols as int,
            src_w as int,
            src_h as int,
            term_rows,
        ),
        g.target_cols as int <= clamp_dim(term_cols as int, term_cols as int),
        g.target_rows as int <= clamp_dim(term_rows as int, term_rows as int),
        braille ==> g.block_w == 2 && g.block_h == 4,
        !braille ==> g.block_w == 1 && g.block_h == 1,
{
    let base: u64 = if 1 <= preset && preset <= 6 {
        preset_cols(preset) as u64
    } else {
        term_cols as u64
    };
    proof {
        lemma_u32_product_fits_u64(base as int, width_mod as int);
    }
    let scaled: u64 = base * (width_mod as u64);
    let col_top: u32 = if term_cols < 1 { 1 } else { term_cols };
    let cols: u32 = if scaled < 1 {
        1
    } else if scaled > col_top as u64 {
        col_top
    } else {
        scaled as u32
    };

    proof {
        lemma_u32_product_fits_u64(cols as int, src_h as int);
        lemma_u32_product_fits_u64(CELL_ASPECT as int, src_w as int);
    }
    let num: u64 = (cols as u64) * (src_h as u64) + (src_w as u64);
    let den: u64 = (CELL_ASPECT as u64) * (src_w as u64);
    let ideal: u64 = num / den;
    let row_top: u32 = if term_rows < 1 { 1 } else { term_rows };
    let rows: u32 = if ideal < 1 {
        1
    } else if ideal > row_top as u64 {
        row_top
    } else {
        ideal as u32
    };

    if braille {
        Geometry { target_cols: cols, target_rows: rows, block_w: 2, block_h: 4 }
    } else {
        Geometry { target_cols: cols, target_rows: rows, block_w: 1, block_h: 1 }
    }
}

/// The product of two values below 2^32, plus one more such value, stays
/// below 2^64.
pub proof fn lemma_u32_product_fits_u64(a: int, b: int)
    requires
        0 <= a <= u32::MAX,
        0 <= b <= u32::MAX,
    ensures
        a * b + u32::MAX <= u64::MAX,
{
    assert(a * b + u32::MAX <= u64::MAX) by (nonlinear_arith)
        requires
            0 <= a <= u32::MAX,
            0 <= b <= u32::MAX,
    ;
}

/// The column target that a dimension preset selects.
pub fn preset_cols(preset: u32) -> (r: u32)
    ensures
        r == spec_preset_cols(preset),
{
    if preset == 1 {
        40
    } else if preset == 2 {
        60
    } else if preset == 3 {
        80
    } else if preset == 4 {
        100
    } else if preset == 5 {
        120
    } else {
        160
    }
}

/// Law: whenever the ideal row count survives clamping and is at least 17,
/// the planned grid's shown aspect ratio `cols / (2 * rows)` differs from the
/// source aspect ratio `src_w / src_h` by at most 3 percent.
///
/// Cross-multiplied, that reads: `100 * |cols * src_h - 2 * rows * src_w|`
/// is at most `3 * (2 * rows * src_w)`. Below 17 rows the rounding step
/// alone can exceed the band (one row out of 16 is over 3 percent).
pub proof fn lemma_plan_aspect_tolerance(
    cols: int,
    src_w: int,
    src_h: int,
    term_rows: u32,
)
    requires
        src_w > 0,
        src_h > 0,
        cols > 0,
        spec_ideal_rows(cols, src_w, src_h) >= 17,
        spec_ideal_rows(cols, src_w, src_h) <= term_rows as int,
    ensures
        ({
            let rows = spec_plan_rows(cols, src_w, src_h, term_rows);
            100 * abs(cols * src_h - 2 * rows * src_w) <= 3 * (2 * rows * src_w)
        }),
{
    let num = cols * src_h + src_w;
    let den = 2 * src_w;
    let rows = num / den;
    assert(rows == spec_ideal_rows(cols, src_w, src_h));
    assert(spec_plan_rows(cols, src_w, src_h, term_rows) == rows);
    vstd::arithmetic::div_mod::lemma_fundamental_div_mod(num, den);
    let rem = num % den;
    vstd::arithmetic::div_mod::lemma_mod_bound(num, den);
    assert(num == den * rows + rem);
    assert(0 <= rem < den);
    let err = cols * src_h - 2 * rows * src_w;
    assert(den * rows == 2 * rows * src_w) by (nonlinear_arith)
        requires
            den == 2 * src_w,
    ;
    assert(err == rem - src_w);
    assert(abs(err) <= src_w);
    assert(100 * src_w <= 3 * (2 * rows * src_w)) by (nonlinear_arith)
        requires
            rows >= 17,
            src_w > 0,
    ;
    assert(100 * abs(err) <= 100 * src_w);
}

} // verus!
