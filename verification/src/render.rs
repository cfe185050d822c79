//! The per-frame rendering pipeline: resample, enhance, map to glyphs.
//!
//! One call renders one pixel frame onto a glyph grid of the planned
//! geometry: box-resample onto the sample grid, take gamma-compensated
//! luminance, sharpen, optionally replace intensity by Sobel edge magnitude,
//! then quantize each cell to a ramp glyph (or a braille pattern) with its
//! foreground color taken from the resampled samples.

use vstd::prelude::*;
use crate::pixel::Rgb;
use crate::pixel::PixelFrame;
use crate::pixel::lemma_row_major_index_in_bounds;
use crate::geometry::Geometry;
use crate::resample::spec_cell_mean;
use crate::resample::resample;
use crate::enhance::spec_luminance;
use crate::enhance::spec_gamma;
use crate::enhance::spec_sharpen_at;
use crate::enhance::spec_sobel_at;
use crate::enhance::luminance;
use crate::enhance::gamma_correct;
use crate::enhance::sharpen;
use crate::enhance::sobel;
use crate::glyph::GlyphCell;
use crate::glyph::CellColor;
use crate::glyph::spec_render_cell;
use crate::glyph::spec_braille_encode;
use crate::glyph::spec_braille_bits;
use crate::glyph::render_cell;
use crate::glyph::braille_bits;
use crate::glyph::braille_encode;
use crate::compositor::GlyphGrid;
use crate::config::RenderConfig;

verus! {

/// The gamma-compensated luminance of each sample of a resampled grid.
pub open spec fn spec_base_grid(px: Seq<Rgb>, fw: int, fh: int, sw: int, sh: int) -> Seq<u8> {
    Seq::new(
        (sw * sh) as nat,
        |i: int| spec_gamma(spec_luminance(spec_cell_mean(px, fw, fh, sw, sh, i % sw, i / sw)))
            as u8,
    )
}

/// The intensity grid after the enhancement stages: luminance with gamma,
/// then unsharp-mask sharpening, then (when enabled) Sobel edge magnitude.
pub open spec fn spec_enhanced_grid(
    px: Seq<Rgb>,
    fw: int,
    fh: int,
    sw: int,
    sh: int,
    sharpen_strength: int,
    edge: bool,
) -> Seq<u8> {
    let base = spec_base_grid(px, fw, fh, sw, sh);
    let sharp = Seq::new(
        (sw * sh) as nat,
        |i: int| spec_sharpen_at(base, sw, sh, sharpen_strength, i % sw, i / sw) as u8,
    );
    if edge {
        Seq::new((sw * sh) as nat, |i: int| spec_sobel_at(sharp, sw, sh, i % sw, i / sw) as u8)
    } else {
        sharp
    }
}

/// The glyph cell rendered at grid position `(cx, cy)`.
pub open spec fn spec_rendered_cell(
    px: Seq<Rgb>,
    fw: int,
    fh: int,
    geom: Geometry,
    sharpen_strength: int,
    edge: bool,
    braille: bool,
    grayscale: bool,
    ramp: Seq<u32>,
    cx: int,
    cy: int,
) -> GlyphCell {
    let sw = geom.sample_width();
    let sh = geom.sample_height();
    let enh = spec_enhanced_grid(px, fw, fh, sw, sh, sharpen_strength, edge);
    if braille {
        let color = spec_cell_mean(px, fw, fh, sw, sh, 2 * cx, 4 * cy);
        GlyphCell {
            glyph: spec_braille_encode(spec_braille_bits(enh, sw, cx, cy) as u8),
            color: if grayscale {
                CellColor::Mono
            } else {
                CellColor::Colored { r: color.r, g: color.g, b: color.b }
            },
        }
    } else {
        spec_render_cell(
            enh[cy * sw + cx] as int,
            spec_cell_mean(px, fw, fh, sw, sh, cx, cy),
            grayscale,
            ramp,
        )
    }
}

/// A flat row-major index decomposes into its column and row.
proof fn lemma_flat_index(sw: int, sh: int, i: int)
    requires
        sw >= 1,
        sh >= 1,
        0 <= i < sw * sh,
    ensures
        0 <= i % sw < sw,
        0 <= i / sw < sh,
        i == (i / sw) * sw + (i % sw),
{
    vstd::arithmetic::div_mod::lemma_fundamental_div_mod(i, sw);
    vstd::arithmetic::div_mod::lemma_mod_bound(i, sw);
    vstd::arithmetic::div_mod::lemma_div_pos_is_pos(i, sw);
    assert(i / sw < sh) by (nonlinear_arith)
        requires
            i == sw * (i / sw) + (i % sw),
            0 <= i % sw < sw,
            i < sw * sh,
            i / sw >= 0,
            sw >= 1,
    ;
    assert((i / sw) * sw == sw * (i / sw)) by (nonlinear_arith);
}

/// Gamma-compensated luminance of every sample.
pub fn luminance_grid(samples: &Vec<Rgb>) -> (r: Vec<u8>)
    ensures
        r@.len() == samples@.len(),
        forall|i: int|
            0 <= i < samples@.len() ==> #[trigger] r@[i] as int == spec_gamma(
                spec_luminance(samples@[i])),
{
    let mut r: Vec<u8> = Vec::new();
    let mut i: usize = 0;
    let n = samples.len();
    while i < n
        invariant
            n == samples@.len(),
            i <= n,
            r@.len() == i,
            forall|j: int|
                0 <= j < i ==> #[trigger] r@[j] as int == spec_gamma(
                    spec_luminance(samples@[j])),
        decreases n - i,
    {
        let l = luminance(samples[i]);
        r.push(gamma_correct(l));
        i += 1;
    }
    r
}

/// Render one frame onto a glyph grid of the planned geometry.
#[verifier::rlimit(100)]
pub fn render_frame(frame: &PixelFrame, config: &RenderConfig, geom: &Geometry) -> (r: GlyphGrid)
    requires
        frame.wf(),
        config.wf(),
        geom.wf(),
        config.braille ==> geom.block_w == 2 && geom.block_h == 4,
        !config.braille ==> geom.block_w == 1 && geom.block_h == 1,
        255 * (frame.width * frame.height) <= u64::MAX,
        geom.sample_width() * geom.sample_height() <= usize::MAX,
    ensures
        r.wf(),
        r.cols == geom.target_cols,
        r.rows == geom.target_rows,
        r.cells@.len() == geom.target_cols * geom.target_rows,
        forall|cx: int, cy: int|
            0 <= cx < geom.target_cols && 0 <= cy < geom.target_rows
                ==> #[trigger] r.cells@[cy * geom.target_cols + cx] == spec_rendered_cell(
                    frame.pixels@,
                    frame.width as int,
                    frame.height as int,
                    *geom,
                    config.sharpen as int,
                    config.edge_detect,
                    config.braille,
                    config.grayscale,
                    config.ramp@,
                    cx,
                    cy,
                ),
{
    let ghost px = frame.pixels@;
    let ghost fw = frame.width as int;
    let ghost fh = frame.height as int;
    let cols: usize = geom.target_cols as usize;
    let rows: usize = geom.target_rows as usize;
    proof {
        assert(geom.sample_width() >= 1 && geom.sample_height() >= 1
            && geom.target_cols * geom.block_w == geom.sample_width()
            && geom.sample_width() * geom.sample_height() >= geom.target_cols as int
                * geom.target_rows as int) by (nonlinear_arith)
            requires
                geom.target_cols >= 1,
                geom.target_rows >= 1,
                geom.block_w >= 1,
                geom.block_h >= 1,
                geom.sample_width() == geom.target_cols * geom.block_w,
                geom.sample_height() == geom.target_rows * geom.block_h,
        ;
    }
    proof {
        assert(geom.sample_width() <= usize::MAX && geom.sample_height() <= usize::MAX)
            by (nonlinear_arith)
            requires
                geom.sample_width() >= 1,
                geom.sample_height() >= 1,
                geom.sample_width() * geom.sample_height() <= usize::MAX,
        ;
    }
    let sw: usize = (geom.target_cols as u64 * geom.block_w as u64) as usize;
    let sh: usize = (geom.target_rows as u64 * geom.block_h as u64) as usize;
    let samples = resample(frame, geom);
    proof {
        assert(sw as int == geom.sample_width());
        assert(sh as int == geom.sample_height());
        assert(samples@.len() == sw as int * sh as int);
    }
    proof {
        assert forall|i: int| 0 <= i < samples@.len()
            implies #[trigger] samples@[i] == spec_cell_mean(px, fw, fh, sw as int, sh as int,
                i % (sw as int), i / (sw as int)) by {
            lemma_flat_index(sw as int, sh as int, i);
            let cy = i / (sw as int);
            let cx = i % (sw as int);
            assert(samples@[cy * geom.sample_width() + cx] == spec_cell_mean(px, fw, fh,
                geom.sample_width(), geom.sample_height(), cx, cy));
        }
    }
    let lum = luminance_grid(&samples);
    let ghost base = spec_base_grid(px, fw, fh, sw as int, sh as int);
    proof {
        assert forall|i: int| 0 <= i < lum@.len() implies #[trigger] lum@[i] == base[i] by {
            assert(samples@[i] == spec_cell_mean(px, fw, fh, sw as int, sh as int,
                i % (sw as int), i / (sw as int)));
        }
        assert(lum@ =~= base);
    }
    let sharp = sharpen(&lum, sw, sh, config.sharpen);
    let ghost sharp_spec = Seq::new(
        (sw as int * sh as int) as nat,
        |i: int| spec_sharpen_at(base, sw as int, sh as int, config.sharpen as int,
            i % (sw as int), i / (sw as int)) as u8,
    );
    proof {
        assert forall|i: int| 0 <= i < sharp@.len()
            implies #[trigger] sharp@[i] == sharp_spec[i] by {
            lemma_flat_index(sw as int, sh as int, i);
            let cy = i / (sw as int);
            let cx = i % (sw as int);
            assert(sharp@[cy * (sw as int) + cx] as int == spec_sharpen_at(lum@, sw as int,
                sh as int, config.sharpen as int, cx, cy));
        }
        assert(sharp@ =~= sharp_spec);
    }
    let intensity = if config.edge_detect {
        let e = sobel(&sharp, sw, sh);
        proof {
            assert forall|i: int| 0 <= i < e@.len()
                implies #[trigger] e@[i] == spec_enhanced_grid(px, fw, fh, sw as int, sh as int,
                    config.sharpen as int, config.edge_detect)[i] by {
                lemma_flat_index(sw as int, sh as int, i);
                let cy = i / (sw as int);
                let cx = i % (sw as int);
                assert(e@[cy * (sw as int) + cx] as int == spec_sobel_at(sharp@, sw as int,
                    sh as int, cx, cy));
            }
            assert(e@ =~= spec_enhanced_grid(px, fw, fh, sw as int, sh as int,
                config.sharpen as int, config.edge_detect));
        }
        e
    } else {
        proof {
            assert(sharp@ =~= spec_enhanced_grid(px, fw, fh, sw as int, sh as int,
                config.sharpen as int, config.edge_detect));
        }
        sharp
    };
    let ghost enh = spec_enhanced_grid(px, fw, fh, sw as int, sh as int, config.sharpen as int,
        config.edge_detect);
    let mut cells: Vec<GlyphCell> = Vec::new();
    let mut cy: usize = 0;
    while cy < rows
        invariant
            frame.wf(),
            config.wf(),
            geom.wf(),
            px == frame.pixels@,
            fw == frame.width as int,
            fh == frame.height as int,
            cols == geom.target_cols,
            rows == geom.target_rows,
            sw as int == geom.sample_width(),
            sh as int == geom.sample_height(),
            sw >= 1,
            sh >= 1,
            cols >= 1,
            rows >= 1,
            config.braille ==> geom.block_w == 2 && geom.block_h == 4,
            !config.braille ==> geom.block_w == 1 && geom.block_h == 1,
            intensity@.len() == sw * sh,
            sw * sh <= usize::MAX,
            intensity@ == enh,
            enh == spec_enhanced_grid(px, fw, fh, sw as int, sh as int, config.sharpen as int,
                config.edge_detect),
            samples@.len() == sw * sh,
            forall|i: int|
                0 <= i < samples@.len() ==> #[trigger] samples@[i] == spec_cell_mean(px, fw, fh,
                    sw as int, sh as int, i % (sw as int), i / (sw as int)),
            cy <= rows,
            cells@.len() == cy * cols,
            forall|px2: int, py2: int|
                0 <= px2 < cols && 0 <= py2 < cy
                    ==> #[trigger] cells@[py2 * cols + px2] == spec_rendered_cell(px, fw, fh,
                        *geom, config.sharpen as int, config.edge_detect, config.braille,
                        config.grayscale, config.ramp@, px2, py2),
        decreases rows - cy,
    {
        let mut cx: usize = 0;
        proof {
            vstd::arithmetic::mul::lemma_mul_inequality(cy as int + 1, rows as int, cols as int);
            assert((cy + 1) * cols == cy * cols + cols) by (nonlinear_arith);
            assert(rows as int * cols as int == cols as int * rows as int) by (nonlinear_arith);
        }
        while cx < cols
            invariant
                frame.wf(),
                config.wf(),
                geom.wf(),
                px == frame.pixels@,
                fw == frame.width as int,
                fh == frame.height as int,
                cols == geom.target_cols,
                rows == geom.target_rows,
                sw as int == geom.sample_width(),
                sh as int == geom.sample_height(),
                sw >= 1,
                sh >= 1,
                cols >= 1,
                rows >= 1,
                config.braille ==> geom.block_w == 2 && geom.block_h == 4,
                !config.braille ==> geom.block_w == 1 && geom.block_h == 1,
                intensity@.len() == sw * sh,
                sw * sh <= usize::MAX,
                intensity@ == enh,
                enh == spec_enhanced_grid(px, fw, fh, sw as int, sh as int,
                    config.sharpen as int, config.edge_detect),
                samples@.len() == sw * sh,
                forall|i: int|
                    0 <= i < samples@.len() ==> #[trigger] samples@[i] == spec_cell_mean(px, fw,
                        fh, sw as int, sh as int, i % (sw as int), i / (sw as int)),
                cy < rows,
                cx <= cols,
                cy * cols + cols <= cols * rows,
                cells@.len() == cy * cols + cx,
                forall|px2: int, py2: int|
                    0 <= px2 < cols && 0 <= py2 < cy
                        ==> #[trigger] cells@[py2 * cols + px2] == spec_rendered_cell(px, fw, fh,
                            *geom, config.sharpen as int, config.edge_detect, config.braille,
                            config.grayscale, config.ramp@, px2, py2),
                forall|px2: int|
                    0 <= px2 < cx
                        ==> #[trigger] cells@[cy * cols + px2] == spec_rendered_cell(px, fw, fh,
                            *geom, config.sharpen as int, config.edge_detect, config.braille,
                            config.grayscale, config.ramp@, px2, cy as int),
            decreases cols - cx,
        {
            let cell: GlyphCell = if config.braille {
                proof {
                    assert(sw as int == 2 * cols as int && sh as int == 4 * rows as int)
                        by (nonlinear_arith)
                        requires
                            sw as int == geom.sample_width(),
                            sh as int == geom.sample_height(),
                            geom.sample_width() == geom.target_cols * geom.block_w,
                            geom.sample_height() == geom.target_rows * geom.block_h,
                            geom.block_w == 2,
                            geom.block_h == 4,
                            cols == geom.target_cols,
                            rows == geom.target_rows,
                    ;
                    lemma_row_major_index_in_bounds(sw as int, sh as int, 2 * cx as int,
                        4 * cy as int);
                }
                let bits = braille_bits(&intensity, sw, sh, cx, cy);
                let color_sample = samples[(4 * cy) * sw + 2 * cx];
                let glyph = braille_encode(bits);
                let c = GlyphCell {
                    glyph,
                    color: if config.grayscale {
                        CellColor::Mono
                    } else {
                        CellColor::Colored {
                            r: color_sample.r,
                            g: color_sample.g,
                            b: color_sample.b,
                        }
                    },
                };
                proof {
                    let i = (4 * cy as int) * sw + 2 * cx as int;
                    vstd::arithmetic::div_mod::lemma_fundamental_div_mod_converse(
                        i, sw as int, 4 * cy as int, 2 * cx as int);
                    assert(samples@[i] == spec_cell_mean(px, fw, fh, sw as int, sh as int,
                        2 * cx as int, 4 * cy as int));
                }
                c
            } else {
                proof {
                    assert(sw == cols && sh == rows);
                    lemma_row_major_index_in_bounds(sw as int, sh as int, cx as int, cy as int);
                    let i = cy as int * sw as int + cx as int;
                    vstd::arithmetic::div_mod::lemma_fundamental_div_mod_converse(
                        i, sw as int, cy as int, cx as int);
                }
                render_cell(intensity[cy * sw + cx], samples[cy * sw + cx], config.grayscale,
                    &config.ramp)
            };
            cells.push(cell);
            proof {
                assert forall|qx: int, qy: int|
                    0 <= qx < cols && 0 <= qy < cy
                        implies #[trigger] (qy * cols + qx) < cy * cols + cx by {
                    lemma_row_major_index_in_bounds(cols as int, cy as int, qx, qy);
                    vstd::arithmetic::mul::lemma_mul_is_commutative(cols as int, cy as int);
                }
            }
            cx += 1;
        }
        cy += 1;
    }
    proof {
        assert(rows as int * cols as int == cols as int * rows as int) by (nonlinear_arith);
    }
    let grid = GlyphGrid { cols, rows, cells };
    grid
}

} // verus!
