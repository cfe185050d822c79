//! The resampler: box-filter a pixel frame onto the planned sample grid.
//!
//! Each output sample is the arithmetic mean (per channel, integer division)
//! of the source pixels in its cell's source rectangle. The rectangle for
//! output column `cx` of `sw` spans source columns `cx*fw/sw` up to
//! `(cx+1)*fw/sw`, widened to at least one column (and likewise for rows), so
//! every output sample averages a non-empty box even when upsampling.

use vstd::prelude::*;
use vstd::arithmetic::div_mod::lemma_multiply_divide_le;
use vstd::arithmetic::div_mod::lemma_multiply_divide_lt;
use vstd::arithmetic::div_mod::lemma_div_pos_is_pos;
use vstd::arithmetic::mul::lemma_mul_inequality;
use vstd::arithmetic::mul::lemma_mul_strict_inequality;
use vstd::arithmetic::mul::lemma_mul_nonnegative;
use vstd::arithmetic::mul::lemma_mul_upper_bound;
use crate::pixel::Rgb;
use crate::pixel::PixelFrame;
use crate::pixel::lemma_row_major_index_in_bounds;
use crate::geometry::Geometry;

verus! {

/// Channel `c` of a sample: 0 red, 1 green, 2 blue.
pub open spec fn chan(p: Rgb, c: int) -> int {
    if c == 0 {
        p.r as int
    } else if c == 1 {
        p.g as int
    } else {
        p.b as int
    }
}

/// Sum of channel `c` over row `y`, source columns `x0..x1`, of a row-major
/// buffer of width `fw`.
pub open spec fn row_sum(px: Seq<Rgb>, fw: int, y: int, x0: int, x1: int, c: int) -> int
    decreases x1 - x0,
{
    if x1 <= x0 {
        0
    } else {
        row_sum(px, fw, y, x0, x1 - 1, c) + chan(px[y * fw + (x1 - 1)], c)
    }
}

/// Sum of channel `c` over the rectangle `x0..x1` by `y0..y1`.
pub open spec fn rect_sum(
    px: Seq<Rgb>,
    fw: int,
    x0: int,
    x1: int,
    y0: int,
    y1: int,
    c: int,
) -> int
    decreases y1 - y0,
{
    if y1 <= y0 {
        0
    } else {
        rect_sum(px, fw, x0, x1, y0, y1 - 1, c) + row_sum(px, fw, y1 - 1, x0, x1, c)
    }
}

/// A row sum of byte channels lies between 0 and 255 per column.
pub proof fn lemma_row_sum_bounds(px: Seq<Rgb>, fw: int, y: int, x0: int, x1: int, c: int)
    requires
        x0 <= x1,
    ensures
        0 <= row_sum(px, fw, y, x0, x1, c) <= 255 * (x1 - x0),
    decreases x1 - x0,
{
    if x1 <= x0 {
    } else {
        lemma_row_sum_bounds(px, fw, y, x0, x1 - 1, c);
    }
}

/// A rectangle sum of byte channels lies between 0 and 255 per pixel.
pub proof fn lemma_rect_sum_bounds(
    px: Seq<Rgb>,
    fw: int,
    x0: int,
    x1: int,
    y0: int,
    y1: int,
    c: int,
)
    requires
        x0 <= x1,
        y0 <= y1,
    ensures
        0 <= rect_sum(px, fw, x0, x1, y0, y1, c) <= 255 * ((x1 - x0) * (y1 - y0)),
    decreases y1 - y0,
{
    if y1 <= y0 {
    } else {
        lemma_rect_sum_bounds(px, fw, x0, x1, y0, y1 - 1, c);
        lemma_row_sum_bounds(px, fw, y1 - 1, x0, x1, c);
        assert(255 * ((x1 - x0) * (y1 - 1 - y0)) + 255 * (x1 - x0)
            == 255 * ((x1 - x0) * (y1 - y0))) by (nonlinear_arith);
        assert((x1 - x0) * (y1 - 1 - y0) >= 0) by (nonlinear_arith)
            requires
                x0 <= x1,
                y0 <= y1 - 1,
        ;
    }
}

/// First source coordinate covered by output coordinate `c` of `dst` over a
/// source extent of `src`.
pub open spec fn src_lo(c: int, src: int, dst: int) -> int {
    c * src / dst
}

/// One past the last source coordinate covered by output coordinate `c`:
/// `(c+1)*src/dst`, widened so the range holds at least one coordinate.
pub open spec fn src_hi(c: int, src: int, dst: int) -> int {
    let lo = src_lo(c, src, dst);
    let hi = (c + 1) * src / dst;
    if hi <= lo {
        lo + 1
    } else {
        hi
    }
}

/// The source range of an in-bounds output coordinate is non-empty and lies
/// inside the source extent.
pub proof fn lemma_src_range(c: int, src: int, dst: int)
    requires
        0 <= c < dst,
        src >= 1,
        dst >= 1,
    ensures
        0 <= src_lo(c, src, dst),
        src_lo(c, src, dst) < src_hi(c, src, dst),
        src_hi(c, src, dst) <= src,
{
    lemma_mul_nonnegative(c, src);
    lemma_div_pos_is_pos(c * src, dst);
    lemma_mul_strict_inequality(c, dst, src);
    assert(c * src < dst * src);
    lemma_multiply_divide_lt(c * src, dst, src);
    assert(src_lo(c, src, dst) < src);
    lemma_mul_inequality(c + 1, dst, src);
    assert((c + 1) * src <= dst * src);
    lemma_multiply_divide_le((c + 1) * src, dst, src);
}

/// The per-channel box mean for output cell `(cx, cy)` of a `sw x sh` sample
/// grid over a `fw x fh` source.
pub open spec fn cell_mean_chan(
    px: Seq<Rgb>,
    fw: int,
    fh: int,
    sw: int,
    sh: int,
    cx: int,
    cy: int,
    c: int,
) -> int {
    let x0 = src_lo(cx, fw, sw);
    let x1 = src_hi(cx, fw, sw);
    let y0 = src_lo(cy, fh, sh);
    let y1 = src_hi(cy, fh, sh);
    rect_sum(px, fw, x0, x1, y0, y1, c) / ((x1 - x0) * (y1 - y0))
}

/// The box-mean color for output cell `(cx, cy)`.
pub open spec fn spec_cell_mean(
    px: Seq<Rgb>,
    fw: int,
    fh: int,
    sw: int,
    sh: int,
    cx: int,
    cy: int,
) -> Rgb {
    Rgb {
        r: cell_mean_chan(px, fw, fh, sw, sh, cx, cy, 0) as u8,
        g: cell_mean_chan(px, fw, fh, sw, sh, cx, cy, 1) as u8,
        b: cell_mean_chan(px, fw, fh, sw, sh, cx, cy, 2) as u8,
    }
}

/// The product of two values that fit in 64 bits fits in 128 bits.
proof fn lemma_u64_product_fits_u128(a: int, b: int)
    requires
        0 <= a <= u64::MAX,
        0 <= b <= u64::MAX,
    ensures
        a * b <= u128::MAX,
{
    assert(a * b <= u128::MAX) by (nonlinear_arith)
        requires
            0 <= a <= u64::MAX,
            0 <= b <= u64::MAX,
    ;
}

/// A partial pass over a box never reaches the box's full pixel count.
proof fn lemma_partial_count(x0: int, x1: int, y0: int, y1: int, x: int, y: int)
    requires
        x0 <= x < x1,
        y0 <= y < y1,
    ensures
        (x1 - x0) * (y - y0) + (x - x0) + 1 <= (x1 - x0) * (y1 - y0),
{
    assert((x1 - x0) * (y - y0) + (x - x0) + 1 <= (x1 - x0) * (y1 - y0)) by (nonlinear_arith)
        requires
            x0 <= x < x1,
            y0 <= y < y1,
    ;
}

/// Average the source pixels in the rectangle `x0..x1` by `y0..y1`,
/// per channel, rounding down.
pub fn box_average(frame: &PixelFrame, x0: usize, x1: usize, y0: usize, y1: usize) -> (r: Rgb)
    requires
        frame.wf(),
        x0 < x1 <= frame.width,
        y0 < y1 <= frame.height,
        255 * (frame.width * frame.height) <= u64::MAX,
    ensures
        ({
            let count = (x1 - x0) * (y1 - y0);
            &&& r.r as int == rect_sum(frame.pixels@, frame.width as int, x0 as int, x1 as int,
                y0 as int, y1 as int, 0) / count
            &&& r.g as int == rect_sum(frame.pixels@, frame.width as int, x0 as int, x1 as int,
                y0 as int, y1 as int, 1) / count
            &&& r.b as int == rect_sum(frame.pixels@, frame.width as int, x0 as int, x1 as int,
                y0 as int, y1 as int, 2) / count
        }),
{
    let ghost px = frame.pixels@;
    let ghost fw = frame.width as int;
    proof {
        lemma_mul_upper_bound(x1 - x0, fw, y1 - y0, frame.height as int);
        lemma_mul_nonnegative(fw, frame.height as int);
    }
    let mut sum_r: u64 = 0;
    let mut sum_g: u64 = 0;
    let mut sum_b: u64 = 0;
    let mut y: usize = y0;
    while y < y1
        invariant
            frame.wf(),
            px == frame.pixels@,
            fw == frame.width as int,
            x0 < x1 <= frame.width,
            y0 <= y <= y1,
            y1 <= frame.height,
            255 * (frame.width * frame.height) <= u64::MAX,
            (x1 - x0) * (y1 - y0) <= frame.width * frame.height,
            sum_r == rect_sum(px, fw, x0 as int, x1 as int, y0 as int, y as int, 0),
            sum_g == rect_sum(px, fw, x0 as int, x1 as int, y0 as int, y as int, 1),
            sum_b == rect_sum(px, fw, x0 as int, x1 as int, y0 as int, y as int, 2),
        decreases y1 - y,
    {
        let mut x: usize = x0;
        while x < x1
            invariant
                frame.wf(),
                px == frame.pixels@,
                fw == frame.width as int,
                x0 < x1 <= frame.width,
                y0 <= y < y1,
                y1 <= frame.height,
                x0 <= x <= x1,
                255 * (frame.width * frame.height) <= u64::MAX,
                (x1 - x0) * (y1 - y0) <= frame.width * frame.height,
                sum_r == rect_sum(px, fw, x0 as int, x1 as int, y0 as int, y as int, 0)
                    + row_sum(px, fw, y as int, x0 as int, x as int, 0),
                sum_g == rect_sum(px, fw, x0 as int, x1 as int, y0 as int, y as int, 1)
                    + row_sum(px, fw, y as int, x0 as int, x as int, 1),
                sum_b == rect_sum(px, fw, x0 as int, x1 as int, y0 as int, y as int, 2)
                    + row_sum(px, fw, y as int, x0 as int, x as int, 2),
            decreases x1 - x,
        {
            proof {
                lemma_rect_sum_bounds(px, fw, x0 as int, x1 as int, y0 as int, y as int, 0);
                lemma_rect_sum_bounds(px, fw, x0 as int, x1 as int, y0 as int, y as int, 1);
                lemma_rect_sum_bounds(px, fw, x0 as int, x1 as int, y0 as int, y as int, 2);
                lemma_row_sum_bounds(px, fw, y as int, x0 as int, x as int, 0);
                lemma_row_sum_bounds(px, fw, y as int, x0 as int, x as int, 1);
                lemma_row_sum_bounds(px, fw, y as int, x0 as int, x as int, 2);
                lemma_partial_count(x0 as int, x1 as int, y0 as int, y1 as int, x as int, y as int);
                assert(255 * ((x1 - x0) * (y - y0)) + 255 * (x - x0) + 255
                    <= 255 * ((x1 - x0) * (y1 - y0))) by (nonlinear_arith)
                    requires
                        (x1 - x0) * (y - y0) + (x - x0) + 1 <= (x1 - x0) * (y1 - y0),
                ;
                assert(255 * ((x1 - x0) * (y1 - y0)) <= 255 * (frame.width * frame.height))
                    by (nonlinear_arith)
                    requires
                        0 <= (x1 - x0) * (y1 - y0) <= frame.width * frame.height,
                ;
            }
            let p = frame.at(x, y);
            sum_r = sum_r + p.r as u64;
            sum_g = sum_g + p.g as u64;
            sum_b = sum_b + p.b as u64;
            x += 1;
        }
        y += 1;
    }
    let count: u64 = ((x1 - x0) as u64) * ((y1 - y0) as u64);
    proof {
        lemma_rect_sum_bounds(px, fw, x0 as int, x1 as int, y0 as int, y1 as int, 0);
        lemma_rect_sum_bounds(px, fw, x0 as int, x1 as int, y0 as int, y1 as int, 1);
        lemma_rect_sum_bounds(px, fw, x0 as int, x1 as int, y0 as int, y1 as int, 2);
        assert(count >= 1) by (nonlinear_arith)
            requires
                count == (x1 - x0) * (y1 - y0),
                x1 - x0 >= 1,
                y1 - y0 >= 1,
        ;
        lemma_multiply_divide_le(sum_r as int, count as int, 255);
        lemma_multiply_divide_le(sum_g as int, count as int, 255);
        lemma_multiply_divide_le(sum_b as int, count as int, 255);
        assert(count * 255 == 255 * ((x1 - x0) * (y1 - y0))) by (nonlinear_arith)
            requires
                count == (x1 - x0) * (y1 - y0),
        ;
    }
    Rgb { r: (sum_r / count) as u8, g: (sum_g / count) as u8, b: (sum_b / count) as u8 }
}

/// Resample a frame onto the geometry's sample grid: `sample_width` columns
/// by `sample_height` rows, row-major, each sample the box mean of its
/// source rectangle.
pub fn resample(frame: &PixelFrame, geom: &Geometry) -> (r: Vec<Rgb>)
    requires
        frame.wf(),
        geom.wf(),
        255 * (frame.width * frame.height) <= u64::MAX,
        geom.sample_width() * geom.sample_height() <= usize::MAX,
    ensures
        r@.len() == geom.sample_width() * geom.sample_height(),
        forall|cx: int, cy: int|
            0 <= cx < geom.sample_width() && 0 <= cy < geom.sample_height()
                ==> #[trigger] r@[cy * geom.sample_width() + cx] == spec_cell_mean(
                    frame.pixels@,
                    frame.width as int,
                    frame.height as int,
                    geom.sample_width(),
                    geom.sample_height(),
                    cx,
                    cy,
                ),
{
    let ghost px = frame.pixels@;
    let ghost fw = frame.width as int;
    let ghost fh = frame.height as int;
    proof {
        assert(geom.sample_width() >= 1 && geom.sample_height() >= 1) by (nonlinear_arith)
            requires
                geom.target_cols >= 1,
                geom.target_rows >= 1,
                geom.block_w >= 1,
                geom.block_h >= 1,
                geom.sample_width() == geom.target_cols * geom.block_w,
                geom.sample_height() == geom.target_rows * geom.block_h,
        ;
        assert(geom.sample_width() <= usize::MAX && geom.sample_height() <= usize::MAX)
            by (nonlinear_arith)
            requires
                geom.sample_width() >= 1,
                geom.sample_height() >= 1,
                geom.sample_width() * geom.sample_height() <= usize::MAX,
        ;
    }
    let sw: usize = (geom.target_cols as u64 * geom.block_w as u64) as usize;
    let sh: usize = (geom.target_rows as u64 * geom.block_h as u64) as usize;
    let mut out: Vec<Rgb> = Vec::new();
    let mut ty: usize = 0;
    while ty < sh
        invariant
            frame.wf(),
            geom.wf(),
            px == frame.pixels@,
            fw == frame.width as int,
            fh == frame.height as int,
            255 * (frame.width * frame.height) <= u64::MAX,
            sw as int == geom.sample_width(),
            sh as int == geom.sample_height(),
            sw >= 1,
            sh >= 1,
            sw * sh <= usize::MAX,
            ty <= sh,
            out@.len() == ty * sw,
            forall|cx: int, cy: int|
                0 <= cx < sw && 0 <= cy < ty
                    ==> #[trigger] out@[cy * sw + cx] == spec_cell_mean(
                        px, fw, fh, sw as int, sh as int, cx, cy),
        decreases sh - ty,
    {
        let mut tx: usize = 0;
        proof {
            lemma_mul_inequality(ty as int + 1, sh as int, sw as int);
            assert((ty + 1) * sw == ty * sw + sw) by (nonlinear_arith);
            assert(sh * sw == sw * sh) by (nonlinear_arith);
        }
        while tx < sw
            invariant
                frame.wf(),
                geom.wf(),
                px == frame.pixels@,
                fw == frame.width as int,
                fh == frame.height as int,
                255 * (frame.width * frame.height) <= u64::MAX,
                sw as int == geom.sample_width(),
                sh as int == geom.sample_height(),
                sw >= 1,
                sh >= 1,
                sw * sh <= usize::MAX,
                ty < sh,
                tx <= sw,
                ty * sw + sw <= sw * sh,
                out@.len() == ty * sw + tx,
                forall|cx: int, cy: int|
                    0 <= cx < sw && 0 <= cy < ty
                        ==> #[trigger] out@[cy * sw + cx] == spec_cell_mean(
                            px, fw, fh, sw as int, sh as int, cx, cy),
                forall|cx: int|
                    0 <= cx < tx
                        ==> #[trigger] out@[ty * sw + cx] == spec_cell_mean(
                            px, fw, fh, sw as int, sh as int, cx, ty as int),
            decreases sw - tx,
        {
            proof {
                lemma_src_range(tx as int, fw, sw as int);
                lemma_src_range(ty as int, fh, sh as int);
                lemma_u64_product_fits_u128(tx as int + 1, frame.width as int);
                lemma_u64_product_fits_u128(ty as int + 1, frame.height as int);
                lemma_mul_nonnegative(tx as int, frame.width as int);
                lemma_mul_nonnegative(ty as int, frame.height as int);
                lemma_mul_inequality(tx as int, tx as int + 1, frame.width as int);
                lemma_mul_inequality(ty as int, ty as int + 1, frame.height as int);
            }
            let x0: usize = ((tx as u128) * (frame.width as u128) / (sw as u128)) as usize;
            let x1t: usize = (((tx as u128) + 1) * (frame.width as u128) / (sw as u128)) as usize;
            let x1: usize = if x1t <= x0 { x0 + 1 } else { x1t };
            let y0: usize = ((ty as u128) * (frame.height as u128) / (sh as u128)) as usize;
            let y1t: usize = (((ty as u128) + 1) * (frame.height as u128) / (sh as u128)) as usize;
            let y1: usize = if y1t <= y0 { y0 + 1 } else { y1t };
            assert(x0 as int == src_lo(tx as int, fw, sw as int));
            assert(x1 as int == src_hi(tx as int, fw, sw as int));
            assert(y0 as int == src_lo(ty as int, fh, sh as int));
            assert(y1 as int == src_hi(ty as int, fh, sh as int));
            let cell = box_average(frame, x0, x1, y0, y1);
            out.push(cell);
            proof {
                assert(out@[ty * sw + tx] == spec_cell_mean(
                    px, fw, fh, sw as int, sh as int, tx as int, ty as int));
                assert forall|cx: int, cy: int|
                    0 <= cx < sw && 0 <= cy < ty implies #[trigger] (cy * sw + cx) < ty * sw + tx by {
                    lemma_row_major_index_in_bounds(sw as int, ty as int, cx, cy);
                    vstd::arithmetic::mul::lemma_mul_is_commutative(sw as int, ty as int);
                }
            }
            tx += 1;
        }
        ty += 1;
    }
    proof {
        assert(sh * sw == sw * sh) by (nonlinear_arith);
    }
    out
}

} // verus!
