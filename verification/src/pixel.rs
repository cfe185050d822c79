//! Pixel frames, frame sequences, and the decode-side error taxonomy.
//!
//! A `PixelFrame` is a row-major RGB buffer with positive dimensions and a
//! display duration in milliseconds. A `FrameSequence` is a non-empty ordered
//! list of frames plus a loop count (`0` plays forever). Media paths are
//! classified by extension before any decode is attempted: video containers
//! are rejected as not yet implemented, unknown extensions as unsupported.

use vstd::prelude::*;

verus! {

/// One 24-bit color sample.
#[derive(Clone, Copy, PartialEq, Eq, Structural, Debug)]
pub struct Rgb {
    pub r: u8,
    pub g: u8,
    pub b: u8,
}

/// Why a media path or payload could not be decoded.
#[derive(Clone, Copy, PartialEq, Eq, Structural, Debug)]
pub enum DecodeError {
    /// The extension or signature names no recognized raster format.
    UnsupportedFormat,
    /// The payload does not carry a well-formed image of its format.
    Corrupt,
    /// A recognized video container; video decoding is not implemented.
    NotYetImplemented,
}

/// What kind of media a path points at, judged by its extension.
#[derive(Clone, Copy, PartialEq, Eq, Structural, Debug)]
pub enum MediaKind {
    /// A single-frame raster image.
    StillImage,
    /// A multi-frame animation.
    Animation,
    /// A video container.
    Video,
}

/// The delay substituted for a zero per-frame delay, so that an animation
/// whose metadata specifies zero does not play at unbounded speed.
pub const MIN_FRAME_DELAY_MS: u32 = 10;

/// One decoded frame: a row-major RGB buffer of `width * height` samples and
/// a display duration in milliseconds (zero means hold until replaced).
pub struct PixelFrame {
    pub width: usize,
    pub height: usize,
    pub pixels: Vec<Rgb>,
    pub duration_ms: u32,
}

impl PixelFrame {
    /// A frame is well formed when both dimensions are positive and the
    /// buffer holds exactly one sample per pixel.
    pub open spec fn wf(self) -> bool {
        &&& self.width > 0
        &&& self.height > 0
        &&& self.pixels@.len() == self.width * self.height
    }

    /// The sample at column `x`, row `y` of a row-major buffer.
    pub open spec fn spec_at(self, x: int, y: int) -> Rgb {
        self.pixels@[y * self.width + x]
    }

    /// Build a frame from a row-major buffer.
    pub fn new(width: usize, height: usize, pixels: Vec<Rgb>, duration_ms: u32)
        -> (r: Option<PixelFrame>)
        ensures
            r is Some <==> (width > 0 && height > 0 && pixels@.len() == width * height),
            r matches Some(f) ==> {
                &&& f.wf()
                &&& f.width == width
                &&& f.height == height
                &&& f.pixels@ == pixels@
                &&& f.duration_ms == duration_ms
            },
    {
        // Binding the length keeps its usize bound available to the overflow case.
        let len = pixels.len();
        if width > 0 && height > 0 {
            match width.checked_mul(height) {
                Some(n) => {
                    if pixels.len() == n {
                        Some(PixelFrame { width, height, pixels, duration_ms })
                    } else {
                        None
                    }
                },
                None => None,
            }
        } else {
            None
        }
    }

    /// Read the sample at column `x`, row `y`.
    pub fn at(&self, x: usize, y: usize) -> (r: Rgb)
        requires
            self.wf(),
            x < self.width,
            y < self.height,
        ensures
            r == self.spec_at(x as int, y as int),
    {
        // Binding the length keeps its usize bound available for the index.
        let n = self.pixels.len();
        proof {
            lemma_row_major_index_in_bounds(
                self.width as int,
                self.height as int,
                x as int,
                y as int,
            );
        }
        assert(y * self.width + x < n);
        self.pixels[y * self.width + x]
    }
}

/// A row-major index `y * width + x` stays below `width * height` whenever
/// the coordinates are in bounds.
pub proof fn lemma_row_major_index_in_bounds(width: int, height: int, x: int, y: int)
    requires
        0 <= x < width,
        0 <= y < height,
    ensures
        0 <= y * width + x < width * height,
{
    assert(y * width + x < width * height) by (nonlinear_arith)
        requires
            0 <= x < width,
            0 <= y < height,
    ;
    assert(y * width + x >= 0) by (nonlinear_arith)
        requires
            0 <= x,
            0 <= y,
            width > 0,
    ;
}

/// The per-frame delay actually used for playback: the source's own delay,
/// or `MIN_FRAME_DELAY_MS` where the source specifies zero.
pub open spec fn spec_effective_delay(d: u32) -> u32 {
    if d == 0 {
        MIN_FRAME_DELAY_MS
    } else {
        d
    }
}

/// Substitute the minimum delay for a zero per-frame delay.
pub fn effective_delay(d: u32) -> (r: u32)
    ensures
        r == spec_effective_delay(d),
        r > 0,
{
    if d == 0 {
        MIN_FRAME_DELAY_MS
    } else {
        d
    }
}

/// ASCII lowercasing of a single byte.
pub open spec fn to_lower_byte(b: u8) -> u8 {
    if 65 <= b && b <= 90 {
        (b + 32) as u8
    } else {
        b
    }
}

/// ASCII lowercasing of a byte string.
pub open spec fn lower_seq(s: Seq<u8>) -> Seq<u8> {
    s.map_values(|b: u8| to_lower_byte(b))
}

/// Lowercase one ASCII byte.
pub fn lower_byte(b: u8) -> (r: u8)
    ensures
        r == to_lower_byte(b),
{
    if 65 <= b && b <= 90 {
        b + 32
    } else {
        b
    }
}

/// Whether `path`, compared case-insensitively, ends in the (lowercase)
/// extension `ext`.
pub open spec fn has_ext(path: Seq<u8>, ext: Seq<u8>) -> bool {
    &&& path.len() >= ext.len()
    &&& lower_seq(path).skip(path.len() - ext.len()) == ext
}

/// Case-insensitive extension test; `ext` is given in lowercase, with its dot.
pub fn ends_with_ext(path: &Vec<u8>, ext: &Vec<u8>) -> (r: bool)
    ensures
        r == has_ext(path@, ext@),
{
    if path.len() < ext.len() {
        return false;
    }
    let start = path.len() - ext.len();
    let mut k: usize = 0;
    while k < ext.len()
        invariant
            start == path@.len() - ext@.len(),
            path@.len() >= ext@.len(),
            path@.len() <= usize::MAX,
            k <= ext@.len(),
            forall|j: int|
                0 <= j < k ==> to_lower_byte(path@[start + j]) == ext@[j],
        decreases ext@.len() - k,
    {
        if lower_byte(path[start + k]) != ext[k] {
            assert(lower_seq(path@).skip(start as int)[k as int] != ext@[k as int]);
            return false;
        }
        k += 1;
    }
    assert(lower_seq(path@).skip(start as int) =~= ext@);
    true
}

/// The media kind that a path's extension names, or `None` for an
/// unrecognized extension.
pub open spec fn spec_media_kind(path: Seq<u8>) -> Option<MediaKind> {
    if has_ext(path, seq![46, 109, 112, 52])
        || has_ext(path, seq![46, 97, 118, 105])
        || has_ext(path, seq![46, 109, 107, 118])
        || has_ext(path, seq![46, 119, 101, 98, 109]) {
        Some(MediaKind::Video)
    } else if has_ext(path, seq![46, 103, 105, 102]) {
        Some(MediaKind::Animation)
    } else if has_ext(path, seq![46, 106, 112, 103])
        || has_ext(path, seq![46, 106, 112, 101, 103])
        || has_ext(path, seq![46, 112, 110, 103])
        || has_ext(path, seq![46, 98, 109, 112]) {
        Some(MediaKind::StillImage)
    } else {
        None
    }
}

/// Classify a media path by its extension, case-insensitively.
pub fn media_kind(path: &Vec<u8>) -> (r: Option<MediaKind>)
    ensures
        r == spec_media_kind(path@),
{
    let mp4 = vec![46, 109, 112, 52];
    let avi = vec![46, 97, 118, 105];
    let mkv = vec![46, 109, 107, 118];
    let webm = vec![46, 119, 101, 98, 109];
    let gif = vec![46, 103, 105, 102];
    let jpg = vec![46, 106, 112, 103];
    let jpeg = vec![46, 106, 112, 101, 103];
    let png = vec![46, 112, 110, 103];
    let bmp = vec![46, 98, 109, 112];
    if ends_with_ext(path, &mp4) || ends_with_ext(path, &avi) || ends_with_ext(path, &mkv)
        || ends_with_ext(path, &webm) {
        Some(MediaKind::Video)
    } else if ends_with_ext(path, &gif) {
        Some(MediaKind::Animation)
    } else if ends_with_ext(path, &jpg) || ends_with_ext(path, &jpeg)
        || ends_with_ext(path, &png) || ends_with_ext(path, &bmp) {
        Some(MediaKind::StillImage)
    } else {
        None
    }
}

/// Decide whether a path may be decoded at all, before touching its pixels.
///
/// Video containers are recognized but rejected: their decoding is not yet
/// implemented. Unrecognized extensions are unsupported.
pub fn plan_load(path: &Vec<u8>) -> (r: Result<MediaKind, DecodeError>)
    ensures
        spec_media_kind(path@) == Some(MediaKind::Video)
            ==> r == Result::<MediaKind, DecodeError>::Err(DecodeError::NotYetImplemented),
        spec_media_kind(path@) is None
            ==> r == Result::<MediaKind, DecodeError>::Err(DecodeError::UnsupportedFormat),
        spec_media_kind(path@) == Some(MediaKind::StillImage)
            ==> r == Result::<MediaKind, DecodeError>::Ok(MediaKind::StillImage),
        spec_media_kind(path@) == Some(MediaKind::Animation)
            ==> r == Result::<MediaKind, DecodeError>::Ok(MediaKind::Animation),
    {
    match media_kind(path) {
        Some(MediaKind::Video) => Err(DecodeError::NotYetImplemented),
        Some(MediaKind::Animation) => Ok(MediaKind::Animation),
        Some(MediaKind::StillImage) => Ok(MediaKind::StillImage),
        None => Err(DecodeError::UnsupportedFormat),
    }
}

/// An ordered, non-empty list of frames plus a loop count: `0` repeats
/// forever, `n > 0` plays the whole list `n` times then stops.
pub struct FrameSequence {
    pub frames: Vec<PixelFrame>,
    pub loop_count: u32,
}

impl FrameSequence {
    /// A sequence is well formed when it holds at least one frame and every
    /// frame is itself well formed.
    pub open spec fn wf(self) -> bool {
        &&& self.frames@.len() > 0
        &&& forall|i: int|
            0 <= i < self.frames@.len() ==> (#[trigger] self.frames@[i]).wf()
    }

    /// Wrap decoded frames into a sequence.
    pub fn new(frames: Vec<PixelFrame>, loop_count: u32) -> (r: Option<FrameSequence>)
        requires
            forall|i: int| 0 <= i < frames@.len() ==> (#[trigger] frames@[i]).wf(),
        ensures
            r is Some <==> frames@.len() > 0,
            r matches Some(s) ==> {
                &&& s.wf()
                &&& s.frames@ == frames@
                &&& s.loop_count == loop_count
            },
    {
        if frames.len() > 0 {
            Some(FrameSequence { frames, loop_count })
        } else {
            None
        }
    }

    /// A sequence of one frame, as produced for a still image.
    pub fn single(frame: PixelFrame) -> (r: FrameSequence)
        requires
            frame.wf(),
        ensures
            r.wf(),
            r.frames@ == seq![frame],
            r.loop_count == 1,
    {
        let mut frames: Vec<PixelFrame> = Vec::new();
        frames.push(frame);
        FrameSequence { frames, loop_count: 1 }
    }
}

} // verus!
