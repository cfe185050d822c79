use ascii_media::compositor::{diff, full_writes, Compositor, GlyphGrid};
use ascii_media::config::{ConfigError, RenderConfig};
use ascii_media::enhance::{gamma_correct, isqrt, luminance, sharpen, sobel};
use ascii_media::geometry::{plan, preset_cols, Geometry};
use ascii_media::glyph::{
    braille_bits, braille_decode, braille_encode, map_intensity, render_cell, CellColor,
    GlyphCell,
};
use ascii_media::pixel::{
    effective_delay, ends_with_ext, media_kind, plan_load, DecodeError, FrameSequence,
    MediaKind, PixelFrame, Rgb,
};
use ascii_media::playback::{advance, frame_delays, playback_schedule, skip_target, PlaybackState};
use ascii_media::render::render_frame;
use ascii_media::geometry::{check_terminal, RenderError};

fn gray(v: u8) -> Rgb {
    Rgb { r: v, g: v, b: v }
}

fn solid_frame(w: usize, h: usize, v: u8, duration: u32) -> PixelFrame {
    let pixels = vec![gray(v); w * h];
    PixelFrame::new(w, h, pixels, duration).unwrap()
}

fn default_ramp() -> Vec<u32> {
    " .:-=+*#%@".chars().map(|c| c as u32).collect()
}

fn make_config(ramp: Vec<u32>, grayscale: bool, sharpen: u32, edge: bool, braille: bool) -> RenderConfig {
    RenderConfig::new(ramp, grayscale, 1, sharpen, edge, braille, 0, false, false, None).unwrap()
}

#[test]
fn plan_matches_source_aspect() {
    // 100x50 source on an 80x40 terminal: 80 columns, and rows so that
    // cols / (2 * rows) tracks 100 / 50 = 2, i.e. 20 rows.
    let g = plan(100, 50, 80, 40, 1, 0, false);
    assert_eq!(g.target_cols, 80);
    assert_eq!(g.target_rows, 20);
    assert_eq!(g.block_w, 1);
    assert_eq!(g.block_h, 1);
    // Implied aspect 80 / (2*20) = 2.0 differs from 2.0 by 0 percent.
    let lhs = 100i64 * (g.target_cols as i64) * 50;
    let rhs = 100i64 * 2 * (g.target_rows as i64) * 100;
    assert!((lhs - rhs).abs() * 100 <= 3 * rhs);
}

#[test]
fn plan_clamps_to_terminal_and_one() {
    let g = plan(10, 10, 0, 0, 1, 0, false);
    assert_eq!(g.target_cols, 1);
    assert_eq!(g.target_rows, 1);
    let g2 = plan(1, 10000, 80, 24, 1, 0, false);
    assert!(g2.target_rows <= 24);
    assert!(g2.target_cols >= 1);
}

#[test]
fn plan_braille_block_is_2_by_4() {
    let g = plan(100, 50, 80, 40, 1, 0, true);
    assert_eq!(g.block_w, 2);
    assert_eq!(g.block_h, 4);
}

#[test]
fn plan_preset_selects_column_table() {
    assert_eq!(preset_cols(1), 40);
    assert_eq!(preset_cols(6), 160);
    let g = plan(100, 50, 200, 100, 1, 3, false);
    assert_eq!(g.target_cols, 80);
}

#[test]
fn resample_grid_has_planned_dimensions() {
    // The output length always equals the planned sample grid size.
    let f = solid_frame(4, 4, 200, 0);
    let geom = Geometry { target_cols: 2, target_rows: 2, block_w: 1, block_h: 1 };
    let grid = ascii_media::resample::resample(&f, &geom);
    assert_eq!(grid.len(), 4);
}

#[test]
fn resample_box_mean_is_exact() {
    let pixels = vec![gray(10), gray(20), gray(30), gray(40)];
    let f = PixelFrame::new(2, 2, pixels, 0).unwrap();
    let geom = Geometry { target_cols: 1, target_rows: 1, block_w: 1, block_h: 1 };
    let grid = ascii_media::resample::resample(&f, &geom);
    assert_eq!(grid.len(), 1);
    assert_eq!(grid[0], gray(25));
}

#[test]
fn luminance_uses_bt601_weights() {
    assert_eq!(luminance(Rgb { r: 255, g: 255, b: 255 }), 255);
    assert_eq!(luminance(Rgb { r: 0, g: 0, b: 0 }), 0);
    // (299*100 + 587*50 + 114*200) / 1000 = 82050 / 1000 = 82
    assert_eq!(luminance(Rgb { r: 100, g: 50, b: 200 }), 82);
}

#[test]
fn isqrt_exact_values() {
    assert_eq!(isqrt(0), 0);
    assert_eq!(isqrt(15), 3);
    assert_eq!(isqrt(16), 4);
    assert_eq!(isqrt(65025), 255);
    assert_eq!(isqrt(u64::MAX), 0xFFFF_FFFF);
}

#[test]
fn gamma_brightens_dark_end() {
    assert_eq!(gamma_correct(0), 0);
    assert_eq!(gamma_correct(255), 255);
    // isqrt(255 * 64) = isqrt(16320) = 127
    assert_eq!(gamma_correct(64), 127);
}

#[test]
fn sharpen_zero_is_identity() {
    // Strength 0 must be bit-identical to the input.
    let lum = vec![0u8, 13, 255, 80, 81, 79, 200, 5, 66];
    let out = sharpen(&lum, 3, 3, 0);
    assert_eq!(out, lum);
}

#[test]
fn sharpen_amplifies_contrast() {
    let lum = vec![0u8, 255, 0];
    let out = sharpen(&lum, 3, 1, 100);
    // Middle: blur (0+255+0)/3 = 85, 255 + 1.0*(255-85) clamps to 255.
    // Left: blur (0+255)/2 = 127, 0 - 1.0*127 clamps to 0.
    assert_eq!(out, vec![0u8, 255, 0]);
}

#[test]
fn sobel_uniform_region_is_zero() {
    // A uniformly lit region has zero edge magnitude.
    let lum = vec![77u8; 9];
    let out = sobel(&lum, 3, 3);
    assert_eq!(out, vec![0u8; 9]);
}

#[test]
fn sobel_invariant_under_brightness_offset() {
    // Adding a constant to every sample leaves the output as is.
    let a: Vec<u8> = vec![10, 60, 10, 60, 10, 60, 10, 60, 10, 60, 10, 60, 10, 60, 10, 60];
    let b: Vec<u8> = a.iter().map(|v| v + 40).collect();
    assert_eq!(sobel(&a, 4, 4), sobel(&b, 4, 4));
}

#[test]
fn sobel_detects_vertical_edge() {
    let lum = vec![0u8, 100, 255, 0, 100, 255, 0, 100, 255];
    let out = sobel(&lum, 3, 3);
    // Center: gx = 4*255 = 1020, gy = 0; magnitude caps at 255.
    assert_eq!(out[4], 255);
    assert_eq!(out[0], 0); // border stays zero
}

#[test]
fn map_intensity_buckets_linearly() {
    let ramp = default_ramp();
    assert_eq!(map_intensity(0, &ramp), ' ' as u32);
    assert_eq!(map_intensity(255, &ramp), '@' as u32);
    // floor(128 * 9 / 255) = floor(4.51..) = 4 -> '='
    assert_eq!(map_intensity(128, &ramp), '=' as u32);
}

#[test]
fn braille_checkerboard_pattern() {
    // A 2x4 checkerboard block maps to its fixed codepoint.
    // Row-major 2-wide block, alternating bright/dark per sample:
    // (0,0)=255 (1,0)=0 / (0,1)=0 (1,1)=255 / (0,2)=255 (1,2)=0 / (0,3)=0 (1,3)=255
    let lum = vec![255u8, 0, 0, 255, 255, 0, 0, 255];
    let bits = braille_bits(&lum, 2, 4, 0, 0);
    // Mean is 127; dots 1 (0,0), 3 (0,2), 5 (1,1), 8 (1,3) are set.
    assert_eq!(bits, 1 + 4 + 16 + 128);
    assert_eq!(braille_encode(bits), 0x2895);
    assert_eq!(braille_decode(braille_encode(bits)), bits);
}

#[test]
fn braille_round_trip_all_patterns() {
    for b in 0..=255u8 {
        let cp = braille_encode(b);
        assert!(cp >= 0x2800 && cp < 0x2900);
        assert_eq!(braille_decode(cp), b);
    }
}

#[test]
fn white_frame_maps_to_densest_glyph() {
    // A 4x4 pure-white frame on a 2x2 grid under the default
    // ramp renders four '@' cells.
    let f = solid_frame(4, 4, 255, 0);
    let geom = Geometry { target_cols: 2, target_rows: 2, block_w: 1, block_h: 1 };
    let cfg = make_config(default_ramp(), true, 0, false, false);
    let grid = render_frame(&f, &cfg, &geom);
    assert_eq!(grid.cols, 2);
    assert_eq!(grid.rows, 2);
    assert_eq!(grid.cells.len(), 4);
    for cell in &grid.cells {
        assert_eq!(cell.glyph, '@' as u32);
        assert_eq!(cell.color, CellColor::Mono);
    }
}

#[test]
fn color_mode_attaches_resampled_rgb() {
    let pixels = vec![Rgb { r: 200, g: 100, b: 50 }; 4];
    let f = PixelFrame::new(2, 2, pixels, 0).unwrap();
    let geom = Geometry { target_cols: 1, target_rows: 1, block_w: 1, block_h: 1 };
    let cfg = make_config(default_ramp(), false, 0, false, false);
    let grid = render_frame(&f, &cfg, &geom);
    assert_eq!(grid.cells.len(), 1);
    assert_eq!(grid.cells[0].color, CellColor::Colored { r: 200, g: 100, b: 50 });
}

#[test]
fn render_cell_grayscale_has_no_color() {
    let ramp = default_ramp();
    let c = render_cell(255, Rgb { r: 1, g: 2, b: 3 }, true, &ramp);
    assert_eq!(c, GlyphCell { glyph: '@' as u32, color: CellColor::Mono });
}

#[test]
fn diff_rewrites_exactly_the_changed_cells() {
    // Frames differing in exactly K cells rewrite exactly K.
    let sp = GlyphCell { glyph: ' ' as u32, color: CellColor::Mono };
    let at = GlyphCell { glyph: '@' as u32, color: CellColor::Mono };
    let prev = vec![sp, sp, sp, sp];
    let cur = vec![sp, at, sp, at];
    let ws = diff(&prev, &cur);
    assert_eq!(ws.len(), 2);
    assert_eq!(ws[0].index, 1);
    assert_eq!(ws[0].cell, at);
    assert_eq!(ws[1].index, 3);
    assert_eq!(ws[1].cell, at);
    // Applying the writes reproduces the new frame exactly.
    let mut replay = prev.clone();
    for w in &ws {
        replay[w.index] = w.cell;
    }
    assert_eq!(replay, cur);
}

#[test]
fn diff_of_equal_buffers_is_empty() {
    let sp = GlyphCell { glyph: ' ' as u32, color: CellColor::Mono };
    let prev = vec![sp; 6];
    let ws = diff(&prev, &prev.clone());
    assert_eq!(ws.len(), 0);
}

#[test]
fn compositor_first_render_writes_every_cell() {
    let sp = GlyphCell { glyph: ' ' as u32, color: CellColor::Mono };
    let grid = GlyphGrid::new(2, 2, vec![sp; 4]).unwrap();
    let mut comp = Compositor::new();
    let ws = comp.render(grid);
    assert_eq!(ws.len(), 4);
    for (k, w) in ws.iter().enumerate() {
        assert_eq!(w.index, k);
    }
}

#[test]
fn compositor_diffs_then_full_redraw_on_resize() {
    let sp = GlyphCell { glyph: ' ' as u32, color: CellColor::Mono };
    let at = GlyphCell { glyph: '@' as u32, color: CellColor::Mono };
    let mut comp = Compositor::new();
    let first = GlyphGrid::new(2, 2, vec![sp; 4]).unwrap();
    comp.render(first);
    let second = GlyphGrid::new(2, 2, vec![sp, at, sp, sp]).unwrap();
    let ws = comp.render(second);
    assert_eq!(ws.len(), 1);
    assert_eq!(ws[0].index, 1);
    // A dimension change forces a full redraw, not a partial diff.
    let resized = GlyphGrid::new(1, 3, vec![at; 3]).unwrap();
    let ws2 = comp.render(resized);
    assert_eq!(ws2.len(), 3);
}

#[test]
fn full_writes_covers_every_index() {
    let at = GlyphCell { glyph: '@' as u32, color: CellColor::Mono };
    let ws = full_writes(&vec![at; 5]);
    assert_eq!(ws.len(), 5);
    assert_eq!(ws[4].index, 4);
}

#[test]
fn three_frames_loop_twice_renders_six_in_order() {
    // 3 frames, loop count 2, frame-skip disabled: exactly 6
    // renders, in source order, each held for its own configured duration.
    let frames = vec![
        solid_frame(1, 1, 10, 100),
        solid_frame(1, 1, 20, 0),
        solid_frame(1, 1, 30, 50),
    ];
    let seq = FrameSequence::new(frames, 2).unwrap();
    let order = playback_schedule(seq.frames.len(), seq.loop_count);
    assert_eq!(order, vec![0, 1, 2, 0, 1, 2]);
    let delays = frame_delays(&seq);
    // The zero delay is held at the 10 ms minimum.
    assert_eq!(delays, vec![100, 10, 50]);
    let held: Vec<u32> = order.iter().map(|&i| delays[i]).collect();
    assert_eq!(held, vec![100, 10, 50, 100, 10, 50]);
}

#[test]
fn skip_target_bounded_catch_up() {
    let durs = vec![100u32, 100, 100];
    // Still inside the first frame: no skip.
    assert_eq!(skip_target(&durs, 50, 0), 0);
    // Past the second frame's start but not the third's.
    assert_eq!(skip_target(&durs, 150, 0), 1);
    // Far behind: skips only to the last frame, never past it.
    assert_eq!(skip_target(&durs, 100000, 0), 2);
}

#[test]
fn effective_delay_substitutes_minimum() {
    assert_eq!(effective_delay(0), 10);
    assert_eq!(effective_delay(5), 5);
    assert_eq!(effective_delay(1000), 1000);
}

#[test]
fn mkv_is_rejected_before_any_decode() {
    // A .mkv path fails with NotYetImplemented, from the path
    // alone -- no pixel data is ever consulted.
    let r = plan_load(&b"movie.mkv".to_vec());
    assert_eq!(r, Err(DecodeError::NotYetImplemented));
}

#[test]
fn video_extensions_not_yet_implemented() {
    for name in ["a.mp4", "b.avi", "c.webm", "D.MKV", "loud.MP4"] {
        let r = plan_load(&name.as_bytes().to_vec());
        assert_eq!(r, Err(DecodeError::NotYetImplemented), "{}", name);
    }
}

#[test]
fn image_and_animation_extensions_recognized() {
    assert_eq!(plan_load(&b"pic.jpg".to_vec()), Ok(MediaKind::StillImage));
    assert_eq!(plan_load(&b"pic.JPEG".to_vec()), Ok(MediaKind::StillImage));
    assert_eq!(plan_load(&b"pic.png".to_vec()), Ok(MediaKind::StillImage));
    assert_eq!(plan_load(&b"pic.bmp".to_vec()), Ok(MediaKind::StillImage));
    assert_eq!(plan_load(&b"anim.gif".to_vec()), Ok(MediaKind::Animation));
    assert_eq!(media_kind(&b"anim.GIF".to_vec()), Some(MediaKind::Animation));
}

#[test]
fn unknown_extension_is_unsupported() {
    assert_eq!(plan_load(&b"notes.txt".to_vec()), Err(DecodeError::UnsupportedFormat));
    assert_eq!(plan_load(&b"noextension".to_vec()), Err(DecodeError::UnsupportedFormat));
}

#[test]
fn extension_match_is_case_insensitive_suffix() {
    assert!(ends_with_ext(&b"A.GiF".to_vec(), &b".gif".to_vec()));
    assert!(!ends_with_ext(&b"gif".to_vec(), &b".gif".to_vec()));
    assert!(!ends_with_ext(&b"a.gifx".to_vec(), &b".gif".to_vec()));
}

#[test]
fn config_rejects_out_of_range_values() {
    let ramp = default_ramp();
    let bad_sharpen =
        RenderConfig::new(ramp.clone(), false, 1, 201, false, false, 0, false, false, None);
    assert!(matches!(bad_sharpen, Err(ConfigError::OutOfRange)));
    let bad_preset =
        RenderConfig::new(ramp.clone(), false, 1, 0, false, false, 7, false, false, None);
    assert!(matches!(bad_preset, Err(ConfigError::OutOfRange)));
    let bad_width =
        RenderConfig::new(ramp.clone(), false, 0, 0, false, false, 0, false, false, None);
    assert!(matches!(bad_width, Err(ConfigError::OutOfRange)));
    let empty_ramp = RenderConfig::new(Vec::new(), false, 1, 0, false, false, 0, false, false, None);
    assert!(matches!(empty_ramp, Err(ConfigError::OutOfRange)));
    let ok = RenderConfig::new(ramp, true, 2, 200, true, true, 6, true, true, Some(30000));
    assert!(ok.is_ok());
}

#[test]
fn frame_constructor_checks_buffer_size() {
    assert!(PixelFrame::new(2, 2, vec![gray(0); 3], 0).is_none());
    assert!(PixelFrame::new(0, 2, vec![], 0).is_none());
    assert!(PixelFrame::new(2, 2, vec![gray(0); 4], 0).is_some());
    assert!(FrameSequence::new(vec![], 1).is_none());
}

#[test]
fn grid_constructor_checks_buffer_size() {
    let sp = GlyphCell { glyph: ' ' as u32, color: CellColor::Mono };
    assert!(GlyphGrid::new(2, 2, vec![sp; 3]).is_none());
    assert!(GlyphGrid::new(2, 2, vec![sp; 4]).is_some());
}

#[test]
fn braille_render_uses_braille_block() {
    // An 8x8 white frame on a 4x2-sampled braille cell grid of 2x1 cells
    // stays inside the braille codepoint block.
    let f = solid_frame(8, 8, 255, 0);
    let geom = Geometry { target_cols: 2, target_rows: 1, block_w: 2, block_h: 4 };
    let cfg = make_config(default_ramp(), true, 0, false, true);
    let grid = render_frame(&f, &cfg, &geom);
    assert_eq!(grid.cells.len(), 2);
    for cell in &grid.cells {
        assert!(cell.glyph >= 0x2800 && cell.glyph < 0x2900);
    }
}

#[test]
fn terminal_with_no_area_is_rejected() {
    assert_eq!(check_terminal(0, 24), Err(RenderError::TerminalTooSmall));
    assert_eq!(check_terminal(80, 0), Err(RenderError::TerminalTooSmall));
    assert_eq!(check_terminal(80, 24), Ok(()));
}

#[test]
fn advance_honors_loop_count() {
    // Two frames, two passes: 0,1 / 0,1 then stop.
    let s0 = PlaybackState { pass: 0, idx: 0 };
    let s1 = advance(s0, 2, 2).unwrap();
    assert_eq!(s1, PlaybackState { pass: 0, idx: 1 });
    let s2 = advance(s1, 2, 2).unwrap();
    assert_eq!(s2, PlaybackState { pass: 1, idx: 0 });
    let s3 = advance(s2, 2, 2).unwrap();
    assert_eq!(s3, PlaybackState { pass: 1, idx: 1 });
    assert_eq!(advance(s3, 2, 2), None);
}

#[test]
fn advance_loops_forever_when_loop_count_is_zero() {
    let last = PlaybackState { pass: 0, idx: 2 };
    // End of the pass wraps to the start instead of stopping.
    assert_eq!(advance(last, 3, 0), Some(PlaybackState { pass: 0, idx: 0 }));
}
