use vstd::prelude::*;
use crate::prefs::YRoi;

verus! {

/// Samples drawn by the closed-circle waveform.
pub const WAVE_5_SIZE: usize = 314;

/// Samples blended across the seam of the closed-circle waveform.
pub const WAVE_5_BLEND_RANGE: usize = 50;

/// Rows left out of the warp band at the top and at the bottom.
pub const YCUT: u32 = 90;

/// Interleaved samples the audio source must deliver per callback for an
/// image `fxw` wide.
pub fn buffer_size(fxw: u32) -> (r: usize)
    requires
        2 * fxw <= usize::MAX,
    ensures
        r == (if 2 * fxw >= (WAVE_5_SIZE + WAVE_5_BLEND_RANGE) * 2 + 20 {
            2 * fxw
        } else {
            ((WAVE_5_SIZE + WAVE_5_BLEND_RANGE) * 2 + 20) as int
        }),
{
    let a = (fxw as usize) * 2;
    let b = (WAVE_5_SIZE + WAVE_5_BLEND_RANGE) * 2 + 20;
    if a >= b { a } else { b }
}

impl YRoi {
    /// The warp band of an image `fxh` rows high: `YCUT` rows are left out
    /// at each end.
    pub fn for_height(fxh: u32) -> (r: YRoi)
        requires
            2 * YCUT <= fxh,
        ensures
            r.min == YCUT,
            r.max == fxh - YCUT,
            2 <= r.min <= r.max <= fxh - 3,
    {
        YRoi { min: YCUT, max: fxh - YCUT }
    }
}

/// Counts rendered frames between two measurements of the frame rate.
#[derive(Debug, Clone, Copy, Default)]
pub struct Fps {
    frames: u32,
}

impl Fps {
    pub closed spec fn spec_frames(&self) -> nat {
        self.frames as nat
    }

    pub fn new() -> (r: Fps)
        ensures
            r.spec_frames() == 0,
    {
        Fps { frames: 0 }
    }

    /// Counts one frame (the count stops at `u32::MAX`).
    pub fn step(&mut self)
        ensures
            final(self).spec_frames() == if old(self).spec_frames() < u32::MAX {
                old(self).spec_frames() + 1
            } else {
                old(self).spec_frames()
            },
    {
        self.frames = self.frames.saturating_add(1);
    }

    /// The frames counted since the last call; the count starts again at zero.
    pub fn take(&mut self) -> (r: u32)
        ensures
            r == old(self).spec_frames(),
            final(self).spec_frames() == 0,
    {
        let n = self.frames;
        self.frames = 0;
        n
    }
}

/// Moves `buf[k..]` to the front; the last `k` entries keep their values.
pub fn shift_left<T: Copy>(buf: &mut [T], k: usize)
    requires
        k <= old(buf)@.len(),
    ensures
        final(buf)@.len() == old(buf)@.len(),
        forall|i: int| 0 <= i < old(buf)@.len() - k ==> #[trigger] final(buf)@[i] == old(buf)@[i + k],
        forall|i: int| old(buf)@.len() - k <= i < old(buf)@.len() ==> #[trigger] final(buf)@[i] == old(buf)@[i],
{
    let n = buf.len();
    let mut i: usize = k;
    while i < n
        invariant
            k <= i <= n,
            n == old(buf)@.len(),
            buf@.len() == n,
            forall|x: int| 0 <= x < i - k ==> #[trigger] buf@[x] == old(buf)@[x + k],
            forall|x: int| i - k <= x < n ==> #[trigger] buf@[x] == old(buf)@[x],
        decreases n - i,
    {
        let v = buf[i];
        buf[i - k] = v;
        i = i + 1;
    }
}

/// First trigger candidate: `Some(i)` for the smallest even `i` in
/// `[8, fxw / 2)` with `matches(i)`, `None` if there is none.
pub fn find_trigger<F: Fn(usize) -> bool>(fxw: u32, matches: F) -> (r: Option<usize>)
    requires
        forall|i: usize| call_requires(matches, (i,)),
    ensures
        r is Some ==> {
            let t = r->Some_0;
            &&& 8 <= t < fxw / 2
            &&& t % 2 == 0
            &&& call_ensures(matches, (t,), true)
        },
        forall|i: usize|
            8 <= i < (if r is Some { r->Some_0 as int } else { (fxw / 2) as int }) && i % 2 == 0 ==> !call_ensures(
                matches,
                (i,),
                true,
            ) || call_ensures(matches, (i,), false),
{
    let half = (fxw / 2) as usize;
    let mut i: usize = 8;
    while i < half
        invariant
            8 <= i,
            i % 2 == 0,
            half == fxw / 2,
            forall|i: usize| call_requires(matches, (i,)),
            forall|j: usize| 8 <= j < i && j % 2 == 0 ==> !call_ensures(matches, (j,), true) || call_ensures(
                matches,
                (j,),
                false,
            ),
        decreases half + 2 - i,
    {
        if matches(i) {
            return Some(i);
        }
        i = i + 2;
    }
    None
}

} // verus!
