//! Validated rendering configuration.
//!
//! The configuration is built once by the argument-handling layer and never
//! mutated by the pipeline. Fractional options are carried as integers: the
//! sharpen strength in hundredths (`0..=200` for `0.0..=2.0`), the optional
//! target frame rate in millihertz. The glyph ramp is a non-empty list of
//! Unicode scalar values ordered sparse to dense.

use vstd::prelude::*;

verus! {

/// Why a configuration was rejected.
#[derive(Clone, Copy, PartialEq, Eq, Structural, Debug)]
pub enum ConfigError {
    /// A value lies outside its documented range.
    OutOfRange,
}

/// A validated rendering configuration.
pub struct RenderConfig {
    /// The glyph ramp, sparse to dense, as Unicode scalar values.
    pub ramp: Vec<u32>,
    /// Emit no color, only glyphs.
    pub grayscale: bool,
    /// Horizontal sample-count multiplier for non-square fonts (at least 1).
    pub width_mod: u32,
    /// Unsharp-mask strength in hundredths, `0..=200`.
    pub sharpen: u32,
    /// Drive glyph density by Sobel edge magnitude instead of luminance.
    pub edge_detect: bool,
    /// Quantize 2x4 sub-cell blocks into braille glyphs.
    pub braille: bool,
    /// Dimension preset `1..=6`, or 0 to derive from the terminal size.
    pub preset: u32,
    /// Play animated sources instead of showing their first frame.
    pub animate: bool,
    /// Repeat the sequence regardless of its own loop count.
    pub loop_playback: bool,
    /// Target frame rate override in millihertz, if any.
    pub target_fps_mhz: Option<u32>,
}

/// The documented ranges of the configurable values.
pub open spec fn spec_config_valid(
    ramp_len: int,
    width_mod: u32,
    sharpen: u32,
    preset: u32,
) -> bool {
    &&& ramp_len >= 1
    &&& ramp_len * 255 <= u64::MAX
    &&& width_mod >= 1
    &&& sharpen <= 200
    &&& preset <= 6
}

impl RenderConfig {
    /// The configuration's values lie in their documented ranges.
    pub open spec fn wf(self) -> bool {
        spec_config_valid(self.ramp@.len() as int, self.width_mod, self.sharpen, self.preset)
    }

    /// Validate and build a configuration. Rejects an empty ramp, a zero
    /// width modulation, a sharpen strength above 2.0 (200 hundredths), and
    /// a preset outside 0 (auto) through 6.
    pub fn new(
        ramp: Vec<u32>,
        grayscale: bool,
        width_mod: u32,
        sharpen: u32,
        edge_detect: bool,
        braille: bool,
        preset: u32,
        animate: bool,
        loop_playback: bool,
        target_fps_mhz: Option<u32>,
    ) -> (r: Result<RenderConfig, ConfigError>)
        ensures
            r is Ok <==> spec_config_valid(ramp@.len() as int, width_mod, sharpen, preset),
            r matches Ok(c) ==> {
                &&& c.wf()
                &&& c.ramp@ == ramp@
                &&& c.grayscale == grayscale
                &&& c.width_mod == width_mod
                &&& c.sharpen == sharpen
                &&& c.edge_detect == edge_detect
                &&& c.braille == braille
                &&& c.preset == preset
                &&& c.animate == animate
                &&& c.loop_playback == loop_playback
                &&& c.target_fps_mhz == target_fps_mhz
            },
            r is Err ==> r == Result::<RenderConfig, ConfigError>::Err(ConfigError::OutOfRange),
    {
        let len: u64 = ramp.len() as u64;
        if len >= 1 && len <= u64::MAX / 255 && width_mod >= 1 && sharpen <= 200
            && preset <= 6
        {
            assert(ramp@.len() * 255 <= u64::MAX);
            Ok(RenderConfig {
                ramp,
                grayscale,
                width_mod,
                sharpen,
                edge_detect,
                braille,
                preset,
                animate,
                loop_playback,
                target_fps_mhz,
            })
        } else {
            Err(ConfigError::OutOfRange)
        }
    }
}

} // verus!
