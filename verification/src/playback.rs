//! The playback planner: frame ordering, pacing, and bounded frame-skip.
//!
//! The planner is pure: it decides which frame to show and when, and the
//! caller performs the waiting and drawing. With frame-skip disabled and a
//! finite loop count the whole schedule is known up front: every frame of
//! every pass, in order. When playback falls behind, `skip_target` picks the
//! latest frame whose start time has been reached — never one past the end,
//! and never a frame before the current one.

use vstd::prelude::*;
use vstd::arithmetic::div_mod::lemma_mod_multiples_vanish;
use vstd::arithmetic::div_mod::lemma_small_mod;
use vstd::arithmetic::mul::lemma_mul_inequality;
use crate::pixel::FrameSequence;
use crate::pixel::spec_effective_delay;
use crate::pixel::effective_delay;

verus! {

/// The frame order for a finite playback without frame-skip: each of
/// `loop_count` passes plays all `n_frames` frames in source order.
pub fn playback_schedule(n_frames: usize, loop_count: u32) -> (r: Vec<usize>)
    requires
        n_frames >= 1,
        loop_count >= 1,
        n_frames * loop_count <= usize::MAX,
    ensures
        r@.len() == n_frames * loop_count,
        forall|k: int| 0 <= k < r@.len() ==> #[trigger] r@[k] as int == k % (n_frames as int),
{
    let mut r: Vec<usize> = Vec::new();
    let mut pass: u32 = 0;
    while pass < loop_count
        invariant
            n_frames >= 1,
            loop_count >= 1,
            n_frames * loop_count <= usize::MAX,
            pass <= loop_count,
            r@.len() == n_frames * pass,
            forall|k: int| 0 <= k < r@.len() ==> #[trigger] r@[k] as int == k % (n_frames as int),
        decreases loop_count - pass,
    {
        proof {
            lemma_mul_inequality(pass as int + 1, loop_count as int, n_frames as int);
            assert((pass + 1) * n_frames == pass * n_frames + n_frames) by (nonlinear_arith);
            assert(n_frames as int * (pass + 1) == (pass + 1) * n_frames) by (nonlinear_arith);
            assert(n_frames as int * pass == pass * n_frames) by (nonlinear_arith);
            assert(loop_count as int * n_frames == n_frames as int * loop_count)
                by (nonlinear_arith);
        }
        let mut idx: usize = 0;
        while idx < n_frames
            invariant
                n_frames >= 1,
                idx <= n_frames,
                pass < loop_count,
                pass as int * n_frames + n_frames <= n_frames * loop_count,
                n_frames * loop_count <= usize::MAX,
                r@.len() == pass as int * n_frames + idx,
                forall|k: int|
                    0 <= k < r@.len() ==> #[trigger] r@[k] as int == k % (n_frames as int),
            decreases n_frames - idx,
        {
            r.push(idx);
            proof {
                lemma_mod_multiples_vanish(pass as int, idx as int, n_frames as int);
                lemma_small_mod(idx as nat, n_frames as nat);
                assert(n_frames as int * pass == pass as int * n_frames) by (nonlinear_arith);
            }
            idx += 1;
        }
        pass += 1;
        proof {
            assert(n_frames as int * pass == (pass - 1) * n_frames + n_frames)
                by (nonlinear_arith);
        }
    }
    proof {
        assert(n_frames as int * loop_count == n_frames * loop_count) by (nonlinear_arith);
    }
    r
}

/// The effective delay of every frame of a sequence, in order.
pub fn frame_delays(seq: &FrameSequence) -> (r: Vec<u32>)
    requires
        seq.wf(),
    ensures
        r@.len() == seq.frames@.len(),
        forall|i: int|
            0 <= i < r@.len() ==> #[trigger] r@[i] == spec_effective_delay(
                seq.frames@[i].duration_ms),
        forall|i: int| 0 <= i < r@.len() ==> #[trigger] r@[i] > 0,
{
    let mut r: Vec<u32> = Vec::new();
    let mut i: usize = 0;
    let n = seq.frames.len();
    while i < n
        invariant
            seq.wf(),
            n == seq.frames@.len(),
            i <= n,
            r@.len() == i,
            forall|j: int|
                0 <= j < i ==> #[trigger] r@[j] == spec_effective_delay(
                    seq.frames@[j].duration_ms),
            forall|j: int| 0 <= j < i ==> #[trigger] r@[j] > 0,
        decreases n - i,
    {
        let d = effective_delay(seq.frames[i].duration_ms);
        r.push(d);
        i += 1;
    }
    r
}

/// Where a playback stands: which pass of the loop, and which frame in it.
#[derive(Clone, Copy, PartialEq, Eq, Structural, Debug)]
pub struct PlaybackState {
    pub pass: u32,
    pub idx: usize,
}

/// Advance playback by one frame. Within a pass the next frame follows; at
/// the end of a pass the sequence restarts while passes remain. A loop
/// count of zero never stops; otherwise playback ends (`None`) after the
/// final pass, leaving the last frame displayed.
pub fn advance(st: PlaybackState, n_frames: usize, loop_count: u32) -> (r: Option<PlaybackState>)
    requires
        n_frames >= 1,
        st.idx < n_frames,
        loop_count > 0 ==> st.pass < loop_count,
    ensures
        st.idx + 1 < n_frames ==> r == Some(
            PlaybackState { pass: st.pass, idx: (st.idx + 1) as usize },
        ),
        st.idx + 1 == n_frames && loop_count == 0 ==> r == Some(
            PlaybackState { pass: st.pass, idx: 0 },
        ),
        st.idx + 1 == n_frames && loop_count > 0 && st.pass + 1 < loop_count ==> r == Some(
            PlaybackState { pass: (st.pass + 1) as u32, idx: 0 },
        ),
        st.idx + 1 == n_frames && loop_count > 0 && st.pass + 1 >= loop_count
            ==> r is None,
        r matches Some(next) ==> next.idx < n_frames,
        r matches Some(next) ==> (loop_count > 0 ==> next.pass < loop_count),
{
    if st.idx + 1 < n_frames {
        Some(PlaybackState { pass: st.pass, idx: st.idx + 1 })
    } else if loop_count == 0 {
        Some(PlaybackState { pass: st.pass, idx: 0 })
    } else if st.pass + 1 < loop_count {
        Some(PlaybackState { pass: st.pass + 1, idx: 0 })
    } else {
        None
    }
}

/// The start time of frame `i` within one pass: the sum of the delays of
/// the frames before it.
pub open spec fn cum_start(durs: Seq<u32>, i: int) -> int
    decreases i,
{
    if i <= 0 {
        0
    } else {
        cum_start(durs, i - 1) + durs[i - 1]
    }
}

/// Cumulative start times are non-negative and grow by at most the largest
/// delay per frame.
pub proof fn lemma_cum_start_bounds(durs: Seq<u32>, i: int)
    requires
        0 <= i <= durs.len(),
    ensures
        0 <= cum_start(durs, i) <= i * (u32::MAX as int),
    decreases i,
{
    if i > 0 {
        lemma_cum_start_bounds(durs, i - 1);
        assert((i - 1) * (u32::MAX as int) + u32::MAX == i * (u32::MAX as int))
            by (nonlinear_arith);
    }
}

/// Bounded catch-up: the frame to jump to when `now_ms` (time into the
/// current pass) has passed the current frame's deadline. Returns the
/// latest frame whose start time has been reached, never before `cur` and
/// never past the last frame.
pub fn skip_target(durs: &Vec<u32>, now_ms: u64, cur: usize) -> (r: usize)
    requires
        durs@.len() >= 1,
        cur < durs@.len(),
        durs@.len() * (u32::MAX as int) <= u64::MAX,
    ensures
        cur <= r < durs@.len(),
        r > cur ==> cum_start(durs@, r as int) <= now_ms,
        r + 1 < durs@.len() ==> now_ms < cum_start(durs@, r as int + 1),
{
    let n = durs.len();
    let mut acc: u64 = 0;
    let mut k: usize = 0;
    while k < cur + 1
        invariant
            n == durs@.len(),
            cur < n,
            k <= cur + 1,
            n * (u32::MAX as int) <= u64::MAX,
            acc == cum_start(durs@, k as int),
        decreases cur + 1 - k,
    {
        proof {
            lemma_cum_start_bounds(durs@, k as int);
            lemma_mul_inequality(k as int, n as int, u32::MAX as int);
            assert(k as int * (u32::MAX as int) <= n as int * (u32::MAX as int))
                by (nonlinear_arith)
                requires
                    0 <= k as int <= n as int,
            ;
        }
        acc = acc + durs[k] as u64;
        k += 1;
    }
    let mut r: usize = cur;
    while r + 1 < n && acc <= now_ms
        invariant
            n == durs@.len(),
            cur <= r < n,
            n * (u32::MAX as int) <= u64::MAX,
            acc == cum_start(durs@, r as int + 1),
            r > cur ==> cum_start(durs@, r as int) <= now_ms,
        decreases n - r,
    {
        proof {
            lemma_cum_start_bounds(durs@, r as int + 1);
            lemma_mul_inequality(r as int + 1, n as int, u32::MAX as int);
            assert((r as int + 1) * (u32::MAX as int) <= n as int * (u32::MAX as int))
                by (nonlinear_arith)
                requires
                    0 <= r as int + 1 <= n as int,
            ;
        }
        r += 1;
        acc = acc + durs[r] as u64;
    }
    r
}

} // verus!
