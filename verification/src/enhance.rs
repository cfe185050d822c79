//! The enhancement pipeline: luminance extraction with gamma compensation,
//! unsharp-mask sharpening, and Sobel edge detection.
//!
//! All stages work on integer intensities in `0..=255`. Luminance uses the
//! BT.601 weights `(299, 587, 114)` in thousandths. Gamma compensation uses
//! gamma 2: the corrected value is the integer square root of `255 * L`,
//! which maps `0..=255` onto `0..=255` monotonically and brightens the dark
//! end as a fractional power law does. Sharpen strength is carried in
//! hundredths (`0..=200` for the configured `0.0..=2.0` range).

use vstd::prelude::*;
use vstd::arithmetic::div_mod::lemma_multiply_divide_le;
use vstd::arithmetic::mul::lemma_mul_inequality;
use crate::pixel::Rgb;
use crate::pixel::lemma_row_major_index_in_bounds;

verus! {

/// BT.601 luminance of a sample, in `0..=255`.
pub open spec fn spec_luminance(p: Rgb) -> int {
    (299 * p.r + 587 * p.g + 114 * p.b) / 1000
}

/// Weighted-sum luminance of one sample.
pub fn luminance(p: Rgb) -> (r: u8)
    ensures
        r as int == spec_luminance(p),
{
    let num: u32 = 299 * (p.r as u32) + 587 * (p.g as u32) + 114 * (p.b as u32);
    proof {
        vstd::arithmetic::div_mod::lemma_div_is_ordered(num as int, 255000, 1000);
    }
    (num / 1000) as u8
}

/// `r` is the integer square root of `n`.
pub open spec fn is_isqrt(n: int, r: int) -> bool {
    &&& r >= 0
    &&& r * r <= n
    &&& n < (r + 1) * (r + 1)
}

/// The integer square root of a non-negative `n`.
pub open spec fn spec_isqrt(n: int) -> int {
    choose|r: int| is_isqrt(n, r)
}

/// The integer square root is unique.
pub proof fn lemma_isqrt_unique(n: int, r1: int, r2: int)
    requires
        is_isqrt(n, r1),
        is_isqrt(n, r2),
    ensures
        r1 == r2,
{
    if r1 < r2 {
        assert((r1 + 1) * (r1 + 1) <= r2 * r2) by (nonlinear_arith)
            requires
                0 <= r1 + 1 <= r2,
        ;
    }
    if r2 < r1 {
        assert((r2 + 1) * (r2 + 1) <= r1 * r1) by (nonlinear_arith)
            requires
                0 <= r2 + 1 <= r1,
        ;
    }
}

/// Every non-negative integer has an integer square root, and `spec_isqrt`
/// denotes it.
pub proof fn lemma_isqrt_exists(n: int)
    requires
        n >= 0,
    ensures
        is_isqrt(n, spec_isqrt(n)),
    decreases n,
{
    if n == 0 {
        assert(is_isqrt(0, 0));
    } else {
        lemma_isqrt_exists(n - 1);
        let p = spec_isqrt(n - 1);
        if (p + 1) * (p + 1) <= n {
            assert(n - 1 < (p + 1) * (p + 1));
            assert(n == (p + 1) * (p + 1));
            assert(n < (p + 2) * (p + 2)) by (nonlinear_arith)
                requires
                    n == (p + 1) * (p + 1),
                    p >= 0,
            ;
            assert(is_isqrt(n, p + 1));
        } else {
            assert(is_isqrt(n, p));
        }
    }
}

/// Integer square root by binary search.
pub fn isqrt(n: u64) -> (r: u64)
    ensures
        r as int == spec_isqrt(n as int),
        is_isqrt(n as int, r as int),
{
    let mut lo: u64 = 0;
    let mut hi: u64 = if n >= 0xFFFF_FFFF {
        0x1_0000_0000
    } else {
        n + 1
    };
    proof {
        if n >= 0xFFFF_FFFF {
            assert((n as int) < 0x1_0000_0000 * 0x1_0000_0000);
        } else {
            assert((n as int) < (n as int + 1) * (n as int + 1)) by (nonlinear_arith)
                requires
                    n >= 0,
            ;
        }
    }
    while hi - lo > 1
        invariant
            lo < hi <= 0x1_0000_0000,
            lo * lo <= n as int,
            (n as int) < hi * hi,
        decreases hi - lo,
    {
        let mid: u64 = lo + (hi - lo) / 2;
        proof {
            assert(mid * mid <= 0xFFFF_FFFF * 0xFFFF_FFFF) by (nonlinear_arith)
                requires
                    0 <= mid <= 0xFFFF_FFFF,
            ;
        }
        if mid * mid <= n {
            lo = mid;
        } else {
            hi = mid;
        }
    }
    proof {
        assert(is_isqrt(n as int, lo as int));
        lemma_isqrt_exists(n as int);
        lemma_isqrt_unique(n as int, lo as int, spec_isqrt(n as int));
    }
    lo
}

/// Gamma compensation with gamma 2: the corrected luminance is
/// `isqrt(255 * L)`, still in `0..=255`.
pub open spec fn spec_gamma(l: int) -> int {
    spec_isqrt(255 * l)
}

/// Gamma-compensate one luminance value.
pub fn gamma_correct(l: u8) -> (r: u8)
    ensures
        r as int == spec_gamma(l as int),
        r as int <= 255,
{
    let r = isqrt(255 * (l as u64));
    proof {
        assert(is_isqrt(255 * (l as int), r as int));
        assert(r as int <= 255) by (nonlinear_arith)
            requires
                (r as int) * (r as int) <= 255 * (l as int),
                l <= 255,
                r >= 0,
        ;
    }
    r as u8
}

/// Sum of a run of luminance bytes on row `y` of a row-major grid of
/// width `w`, columns `x0..x1`.
pub open spec fn lum_row_sum(lum: Seq<u8>, w: int, y: int, x0: int, x1: int) -> int
    decreases x1 - x0,
{
    if x1 <= x0 {
        0
    } else {
        lum_row_sum(lum, w, y, x0, x1 - 1) + lum[y * w + (x1 - 1)]
    }
}

/// Sum of luminance bytes over the rectangle `x0..x1` by `y0..y1`.
pub open spec fn lum_rect_sum(lum: Seq<u8>, w: int, x0: int, x1: int, y0: int, y1: int) -> int
    decreases y1 - y0,
{
    if y1 <= y0 {
        0
    } else {
        lum_rect_sum(lum, w, x0, x1, y0, y1 - 1) + lum_row_sum(lum, w, y1 - 1, x0, x1)
    }
}

/// A luminance row sum lies between 0 and 255 per column.
pub proof fn lemma_lum_row_sum_bounds(lum: Seq<u8>, w: int, y: int, x0: int, x1: int)
    requires
        x0 <= x1,
    ensures
        0 <= lum_row_sum(lum, w, y, x0, x1) <= 255 * (x1 - x0),
    decreases x1 - x0,
{
    if x1 <= x0 {
    } else {
        lemma_lum_row_sum_bounds(lum, w, y, x0, x1 - 1);
    }
}

/// A luminance rectangle sum lies between 0 and 255 per cell.
pub proof fn lemma_lum_rect_sum_bounds(lum: Seq<u8>, w: int, x0: int, x1: int, y0: int, y1: int)
    requires
        x0 <= x1,
        y0 <= y1,
    ensures
        0 <= lum_rect_sum(lum, w, x0, x1, y0, y1) <= 255 * ((x1 - x0) * (y1 - y0)),
    decreases y1 - y0,
{
    if y1 <= y0 {
    } else {
        lemma_lum_rect_sum_bounds(lum, w, x0, x1, y0, y1 - 1);
        lemma_lum_row_sum_bounds(lum, w, y1 - 1, x0, x1);
        assert(255 * ((x1 - x0) * (y1 - 1 - y0)) + 255 * (x1 - x0)
            == 255 * ((x1 - x0) * (y1 - y0))) by (nonlinear_arith);
        assert((x1 - x0) * (y1 - 1 - y0) >= 0) by (nonlinear_arith)
            requires
                x0 <= x1,
                y0 <= y1 - 1,
        ;
    }
}

/// The 3x3 box-blur value at `(x, y)`: the mean of the in-bounds neighbors
/// (including the sample itself).
pub open spec fn spec_blur(lum: Seq<u8>, w: int, h: int, x: int, y: int) -> int {
    let x0 = if x >= 1 { x - 1 } else { 0 };
    let x1 = if x + 2 <= w { x + 2 } else { w };
    let y0 = if y >= 1 { y - 1 } else { 0 };
    let y1 = if y + 2 <= h { y + 2 } else { h };
    lum_rect_sum(lum, w, x0, x1, y0, y1) / ((x1 - x0) * (y1 - y0))
}

/// The unsharp-mask output for one sample: `orig + s * (orig - blurred)` in
/// hundredths, clamped to `0..=255`, with the two signs split so that every
/// division is of a non-negative value.
pub open spec fn spec_sharpen_px(orig: int, blurred: int, s: int) -> int {
    if orig >= blurred {
        crate::clamp_byte(orig + s * (orig - blurred) / 100)
    } else {
        let cut = s * (blurred - orig) / 100;
        if cut >= orig {
            0
        } else {
            orig - cut
        }
    }
}

/// The sharpened value at `(x, y)` of a luminance grid.
pub open spec fn spec_sharpen_at(lum: Seq<u8>, w: int, h: int, s: int, x: int, y: int) -> int {
    spec_sharpen_px(lum[y * w + x] as int, spec_blur(lum, w, h, x, y), s)
}

/// Compute the 3x3 box blur at `(x, y)`.
pub fn blur_at(lum: &Vec<u8>, w: usize, h: usize, x: usize, y: usize) -> (r: u8)
    requires
        w >= 1,
        h >= 1,
        lum@.len() == w * h,
        x < w,
        y < h,
    ensures
        r as int == spec_blur(lum@, w as int, h as int, x as int, y as int),
{
    // Binding the length keeps its usize bound available for the indexing.
    let glen = lum.len();
    let x0: usize = if x >= 1 { x - 1 } else { 0 };
    let x1: usize = if x >= w - 1 { w } else { x + 2 };
    let y0: usize = if y >= 1 { y - 1 } else { 0 };
    let y1: usize = if y >= h - 1 { h } else { y + 2 };
    let mut sum: u32 = 0;
    let mut yy: usize = y0;
    while yy < y1
        invariant
            w >= 1,
            h >= 1,
            lum@.len() == w * h,
            x0 < x1 <= w,
            w * h <= usize::MAX,
            y0 <= yy <= y1,
            y1 <= h,
            x1 - x0 <= 3,
            y1 - y0 <= 3,
            sum == lum_rect_sum(lum@, w as int, x0 as int, x1 as int, y0 as int, yy as int),
            sum <= 255 * 9,
        decreases y1 - yy,
    {
        let mut xx: usize = x0;
        while xx < x1
            invariant
                w >= 1,
                h >= 1,
                lum@.len() == w * h,
                x0 < x1 <= w,
                w * h <= usize::MAX,
                y0 <= yy < y1,
                y1 <= h,
                x0 <= xx <= x1,
                x1 - x0 <= 3,
                y1 - y0 <= 3,
                sum == lum_rect_sum(lum@, w as int, x0 as int, x1 as int, y0 as int, yy as int)
                    + lum_row_sum(lum@, w as int, yy as int, x0 as int, xx as int),
                sum <= 255 * 9,
            decreases x1 - xx,
        {
            proof {
                lemma_row_major_index_in_bounds(w as int, h as int, xx as int, yy as int);
                lemma_lum_rect_sum_bounds(lum@, w as int, x0 as int, x1 as int, y0 as int,
                    yy as int);
                lemma_lum_row_sum_bounds(lum@, w as int, yy as int, x0 as int, xx as int);
                assert(lum_rect_sum(lum@, w as int, x0 as int, x1 as int, y0 as int, yy as int)
                    <= 255 * 6) by (nonlinear_arith)
                    requires
                        lum_rect_sum(lum@, w as int, x0 as int, x1 as int, y0 as int, yy as int)
                            <= 255 * ((x1 - x0) * (yy - y0)),
                        x1 - x0 <= 3,
                        0 <= yy - y0 <= 2,
                        x0 < x1,
                ;
            }
            sum = sum + lum[yy * w + xx] as u32;
            xx += 1;
        }
        yy += 1;
    }
    proof {
        assert((x1 - x0) * (y1 - y0) <= 9) by (nonlinear_arith)
            requires
                0 < x1 - x0 <= 3,
                0 < y1 - y0 <= 3,
        ;
    }
    let count: u32 = ((x1 - x0) as u32) * ((y1 - y0) as u32);
    proof {
        lemma_lum_rect_sum_bounds(lum@, w as int, x0 as int, x1 as int, y0 as int, y1 as int);
        assert(count >= 1) by (nonlinear_arith)
            requires
                count == (x1 - x0) * (y1 - y0),
                x1 - x0 >= 1,
                y1 - y0 >= 1,
        ;
        lemma_multiply_divide_le(sum as int, count as int, 255);
        assert(count * 255 == 255 * ((x1 - x0) * (y1 - y0))) by (nonlinear_arith)
            requires
                count == (x1 - x0) * (y1 - y0),
        ;
    }
    (sum / count) as u8
}

/// Unsharp-mask sharpen a luminance grid. Strength is in hundredths
/// (`0..=200`); strength 0 returns the input bit for bit.
pub fn sharpen(lum: &Vec<u8>, w: usize, h: usize, strength: u32) -> (r: Vec<u8>)
    requires
        w >= 1,
        h >= 1,
        lum@.len() == w * h,
        strength <= 200,
    ensures
        r@.len() == lum@.len(),
        forall|x: int, y: int|
            0 <= x < w && 0 <= y < h
                ==> #[trigger] r@[y * w + x] as int == spec_sharpen_at(
                    lum@, w as int, h as int, strength as int, x, y),
        strength == 0 ==> r@ == lum@,
{
    let glen = lum.len();
    let mut out: Vec<u8> = Vec::new();
    let mut y: usize = 0;
    while y < h
        invariant
            w >= 1,
            h >= 1,
            lum@.len() == w * h,
            w * h <= usize::MAX,
            strength <= 200,
            y <= h,
            out@.len() == y * w,
            forall|px: int, py: int|
                0 <= px < w && 0 <= py < y
                    ==> #[trigger] out@[py * w + px] as int == spec_sharpen_at(
                        lum@, w as int, h as int, strength as int, px, py),
        decreases h - y,
    {
        let mut x: usize = 0;
        proof {
            lemma_mul_inequality(y as int + 1, h as int, w as int);
            assert((y + 1) * w == y * w + w) by (nonlinear_arith);
            assert(h as int * w as int == w as int * h as int) by (nonlinear_arith);
        }
        while x < w
            invariant
                w >= 1,
                h >= 1,
                lum@.len() == w * h,
                w * h <= usize::MAX,
                strength <= 200,
                y < h,
                x <= w,
                y * w + w <= w * h,
                out@.len() == y * w + x,
                forall|px: int, py: int|
                    0 <= px < w && 0 <= py < y
                        ==> #[trigger] out@[py * w + px] as int == spec_sharpen_at(
                            lum@, w as int, h as int, strength as int, px, py),
                forall|px: int|
                    0 <= px < x
                        ==> #[trigger] out@[y * w + px] as int == spec_sharpen_at(
                            lum@, w as int, h as int, strength as int, px, y as int),
            decreases w - x,
        {
            proof {
                lemma_row_major_index_in_bounds(w as int, h as int, x as int, y as int);
            }
            let orig: u32 = lum[y * w + x] as u32;
            let blurred: u32 = blur_at(lum, w, h, x, y) as u32;
            let px: u8 = if orig >= blurred {
                proof {
                    assert(strength * (orig - blurred) <= 200 * 255) by (nonlinear_arith)
                        requires
                            strength <= 200,
                            orig - blurred <= 255,
                            orig >= blurred,
                    ;
                }
                let boost: u32 = strength * (orig - blurred) / 100;
                if orig + boost > 255 {
                    255
                } else {
                    (orig + boost) as u8
                }
            } else {
                proof {
                    assert(strength * (blurred - orig) <= 200 * 255) by (nonlinear_arith)
                        requires
                            strength <= 200,
                            blurred - orig <= 255,
                            blurred >= orig,
                    ;
                }
                let cut: u32 = strength * (blurred - orig) / 100;
                if cut >= orig {
                    0
                } else {
                    (orig - cut) as u8
                }
            };
            out.push(px);
            proof {
                assert forall|cx: int, cy: int|
                    0 <= cx < w && 0 <= cy < y
                        implies #[trigger] (cy * w + cx) < y * w + x by {
                    lemma_row_major_index_in_bounds(w as int, y as int, cx, cy);
                    vstd::arithmetic::mul::lemma_mul_is_commutative(w as int, y as int);
                }
            }
            x += 1;
        }
        y += 1;
    }
    proof {
        assert(h as int * w as int == w as int * h as int) by (nonlinear_arith);
        if strength == 0 {
            assert forall|i: int| 0 <= i < out@.len() implies out@[i] == lum@[i] by {
                let py = i / (w as int);
                let px = i % (w as int);
                vstd::arithmetic::div_mod::lemma_fundamental_div_mod(i, w as int);
                vstd::arithmetic::div_mod::lemma_mod_bound(i, w as int);
                vstd::arithmetic::div_mod::lemma_div_pos_is_pos(i, w as int);
                assert(py < h) by (nonlinear_arith)
                    requires
                        i == py * w + px,
                        0 <= px < w,
                        i < w * h,
                        py >= 0,
                        w >= 1,
                ;
                assert(out@[py * (w as int) + px] as int == spec_sharpen_at(
                    lum@, w as int, h as int, 0, px, py));
            }
            assert(out@ =~= lum@);
        }
    }
    out
}

/// The luminance value at `(x, y)` of a row-major grid, as an integer.
pub open spec fn lum_at(lum: Seq<u8>, w: int, x: int, y: int) -> int {
    lum[y * w + x] as int
}

/// The horizontal Sobel response at an interior point: the weighted right
/// column minus the weighted left column.
pub open spec fn spec_gx(lum: Seq<u8>, w: int, x: int, y: int) -> int {
    (lum_at(lum, w, x + 1, y - 1) + 2 * lum_at(lum, w, x + 1, y) + lum_at(lum, w, x + 1, y + 1))
        - (lum_at(lum, w, x - 1, y - 1) + 2 * lum_at(lum, w, x - 1, y) + lum_at(lum, w, x - 1,
        y + 1))
}

/// The vertical Sobel response at an interior point: the weighted bottom row
/// minus the weighted top row.
pub open spec fn spec_gy(lum: Seq<u8>, w: int, x: int, y: int) -> int {
    (lum_at(lum, w, x - 1, y + 1) + 2 * lum_at(lum, w, x, y + 1) + lum_at(lum, w, x + 1, y + 1))
        - (lum_at(lum, w, x - 1, y - 1) + 2 * lum_at(lum, w, x, y - 1) + lum_at(lum, w, x + 1,
        y - 1))
}

/// The edge magnitude at `(x, y)`: `sqrt(gx^2 + gy^2)` capped at 255 for
/// interior points, 0 on the one-sample border.
pub open spec fn spec_sobel_at(lum: Seq<u8>, w: int, h: int, x: int, y: int) -> int {
    if 1 <= x && x + 1 < w && 1 <= y && y + 1 < h {
        let gx = spec_gx(lum, w, x, y);
        let gy = spec_gy(lum, w, x, y);
        let m = spec_isqrt(gx * gx + gy * gy);
        if m > 255 {
            255
        } else {
            m
        }
    } else {
        0
    }
}

/// Sobel edge magnitudes of a luminance grid, row-major, border zero.
pub fn sobel(lum: &Vec<u8>, w: usize, h: usize) -> (r: Vec<u8>)
    requires
        w >= 1,
        h >= 1,
        lum@.len() == w * h,
    ensures
        r@.len() == lum@.len(),
        forall|x: int, y: int|
            0 <= x < w && 0 <= y < h
                ==> #[trigger] r@[y * w + x] as int == spec_sobel_at(
                    lum@, w as int, h as int, x, y),
{
    let glen = lum.len();
    let mut out: Vec<u8> = Vec::new();
    let mut y: usize = 0;
    while y < h
        invariant
            w >= 1,
            h >= 1,
            lum@.len() == w * h,
            w * h <= usize::MAX,
            y <= h,
            out@.len() == y * w,
            forall|px: int, py: int|
                0 <= px < w && 0 <= py < y
                    ==> #[trigger] out@[py * w + px] as int == spec_sobel_at(
                        lum@, w as int, h as int, px, py),
        decreases h - y,
    {
        let mut x: usize = 0;
        proof {
            lemma_mul_inequality(y as int + 1, h as int, w as int);
            assert((y + 1) * w == y * w + w) by (nonlinear_arith);
            assert(h as int * w as int == w as int * h as int) by (nonlinear_arith);
        }
        while x < w
            invariant
                w >= 1,
                h >= 1,
                lum@.len() == w * h,
                w * h <= usize::MAX,
                y < h,
                x <= w,
                y * w + w <= w * h,
                out@.len() == y * w + x,
                forall|px: int, py: int|
                    0 <= px < w && 0 <= py < y
                        ==> #[trigger] out@[py * w + px] as int == spec_sobel_at(
                            lum@, w as int, h as int, px, py),
                forall|px: int|
                    0 <= px < x
                        ==> #[trigger] out@[y * w + px] as int == spec_sobel_at(
                            lum@, w as int, h as int, px, y as int),
            decreases w - x,
        {
            let m: u8 = if x >= 1 && x + 1 < w && y >= 1 && y + 1 < h {
                proof {
                    lemma_row_major_index_in_bounds(w as int, h as int, x - 1, y - 1);
                    lemma_row_major_index_in_bounds(w as int, h as int, x as int, y - 1);
                    lemma_row_major_index_in_bounds(w as int, h as int, x + 1, y - 1);
                    lemma_row_major_index_in_bounds(w as int, h as int, x - 1, y as int);
                    lemma_row_major_index_in_bounds(w as int, h as int, x + 1, y as int);
                    lemma_row_major_index_in_bounds(w as int, h as int, x - 1, y + 1);
                    lemma_row_major_index_in_bounds(w as int, h as int, x as int, y + 1);
                    lemma_row_major_index_in_bounds(w as int, h as int, x + 1, y + 1);
                }
                let a: i32 = lum[(y - 1) * w + (x - 1)] as i32;
                let b: i32 = lum[(y - 1) * w + x] as i32;
                let c: i32 = lum[(y - 1) * w + (x + 1)] as i32;
                let d: i32 = lum[y * w + (x - 1)] as i32;
                let f: i32 = lum[y * w + (x + 1)] as i32;
                let g: i32 = lum[(y + 1) * w + (x - 1)] as i32;
                let hh: i32 = lum[(y + 1) * w + x] as i32;
                let k: i32 = lum[(y + 1) * w + (x + 1)] as i32;
                let gx: i32 = (c + 2 * f + k) - (a + 2 * d + g);
                let gy: i32 = (g + 2 * hh + k) - (a + 2 * b + c);
                assert(gx as int == spec_gx(lum@, w as int, x as int, y as int));
                assert(gy as int == spec_gy(lum@, w as int, x as int, y as int));
                proof {
                    assert(gx * gx + gy * gy <= 2 * 1020 * 1020) by (nonlinear_arith)
                        requires
                            -1020 <= gx <= 1020,
                            -1020 <= gy <= 1020,
                    ;
                    assert(gx * gx >= 0) by (nonlinear_arith);
                    assert(gy * gy >= 0) by (nonlinear_arith);
                }
                let sq: u64 = ((gx as i64) * (gx as i64) + (gy as i64) * (gy as i64)) as u64;
                let m0 = isqrt(sq);
                if m0 > 255 {
                    255
                } else {
                    m0 as u8
                }
            } else {
                0
            };
            out.push(m);
            proof {
                assert forall|cx: int, cy: int|
                    0 <= cx < w && 0 <= cy < y
                        implies #[trigger] (cy * w + cx) < y * w + x by {
                    lemma_row_major_index_in_bounds(w as int, y as int, cx, cy);
                    vstd::arithmetic::mul::lemma_mul_is_commutative(w as int, y as int);
                }
            }
            x += 1;
        }
        y += 1;
    }
    proof {
        assert(h as int * w as int == w as int * h as int) by (nonlinear_arith);
    }
    out
}

/// Law: edge magnitude is invariant under a global brightness offset. Two
/// luminance grids that differ by the same offset at every sample have the
/// same Sobel magnitude at every position: the Sobel kernels' weights sum to
/// zero, so the offset cancels out of both gradients.
pub proof fn lemma_sobel_brightness_invariant(
    l1: Seq<u8>,
    l2: Seq<u8>,
    w: int,
    h: int,
    off: int,
    x: int,
    y: int,
)
    requires
        w >= 1,
        h >= 1,
        l1.len() == w * h,
        l2.len() == w * h,
        forall|i: int| 0 <= i < l1.len() ==> #[trigger] l2[i] as int == l1[i] as int + off,
        0 <= x < w,
        0 <= y < h,
    ensures
        spec_sobel_at(l2, w, h, x, y) == spec_sobel_at(l1, w, h, x, y),
{
    if 1 <= x && x + 1 < w && 1 <= y && y + 1 < h {
        lemma_row_major_index_in_bounds(w, h, x - 1, y - 1);
        lemma_row_major_index_in_bounds(w, h, x, y - 1);
        lemma_row_major_index_in_bounds(w, h, x + 1, y - 1);
        lemma_row_major_index_in_bounds(w, h, x - 1, y);
        lemma_row_major_index_in_bounds(w, h, x + 1, y);
        lemma_row_major_index_in_bounds(w, h, x - 1, y + 1);
        lemma_row_major_index_in_bounds(w, h, x, y + 1);
        lemma_row_major_index_in_bounds(w, h, x + 1, y + 1);
        assert(spec_gx(l2, w, x, y) == spec_gx(l1, w, x, y));
        assert(spec_gy(l2, w, x, y) == spec_gy(l1, w, x, y));
    }
}

/// Law: a uniformly lit region has zero edge magnitude. On a grid whose
/// samples are all equal, the Sobel magnitude is zero everywhere.
pub proof fn lemma_sobel_uniform_zero(lum: Seq<u8>, w: int, h: int, v: u8, x: int, y: int)
    requires
        w >= 1,
        h >= 1,
        lum.len() == w * h,
        forall|i: int| 0 <= i < lum.len() ==> #[trigger] lum[i] == v,
        0 <= x < w,
        0 <= y < h,
    ensures
        spec_sobel_at(lum, w, h, x, y) == 0,
{
    if 1 <= x && x + 1 < w && 1 <= y && y + 1 < h {
        lemma_row_major_index_in_bounds(w, h, x - 1, y - 1);
        lemma_row_major_index_in_bounds(w, h, x, y - 1);
        lemma_row_major_index_in_bounds(w, h, x + 1, y - 1);
        lemma_row_major_index_in_bounds(w, h, x - 1, y);
        lemma_row_major_index_in_bounds(w, h, x + 1, y);
        lemma_row_major_index_in_bounds(w, h, x - 1, y + 1);
        lemma_row_major_index_in_bounds(w, h, x, y + 1);
        lemma_row_major_index_in_bounds(w, h, x + 1, y + 1);
        assert(spec_gx(lum, w, x, y) == 0);
        assert(spec_gy(lum, w, x, y) == 0);
        assert(is_isqrt(0, 0));
        lemma_isqrt_exists(0);
        lemma_isqrt_unique(0, 0, spec_isqrt(0));
    }
}

} // verus!
