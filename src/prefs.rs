use vstd::prelude::*;
use crate::minstd::{lcg_step, Minstd};

verus! {

/// Identifier of a visual mode.
#[derive(Debug, Clone, Copy, PartialEq, Eq, Structural, Hash)]
pub struct ModeId(pub u32);

/// Identifier of a waveform overlay.
#[derive(Debug, Clone, Copy, PartialEq, Eq, Structural, Hash)]
pub struct WaveformId(pub u32);

/// Number of waveform overlays, numbered from 1.
pub const NUM_WAVES: u32 = 7;

/// Rejection-sampling attempts before falling back to waveform 1.
pub const WAVEFORM_TRIES: u32 = 64;

/// Vertical band `[min, max)` of rows in which the warp feedback operates.
#[derive(Debug, Clone, Copy, PartialEq, Eq, Structural)]
pub struct YRoi {
    pub min: u32,
    pub max: u32,
}

impl YRoi {
    /// Whether row `y` lies in the band `[min, max)`.
    pub fn contains(&self, y: u32) -> (r: bool)
        ensures
            r == (self.min <= y && y < self.max),
    {
        self.min <= y && y < self.max
    }
}

/// Sum of the weights.
pub open spec fn total_weight(ws: Seq<(ModeId, u32)>) -> nat
    decreases ws.len(),
{
    if ws.len() == 0 {
        0
    } else {
        ws[0].1 as nat + total_weight(ws.drop_first())
    }
}

/// The mode whose slot in the cumulative weights holds `x`: the first entry
/// `k` with `x < w[0] + ... + w[k]`.
pub open spec fn weighted_choice(ws: Seq<(ModeId, u32)>, x: nat) -> ModeId
    decreases ws.len(),
{
    if ws.len() == 0 {
        ModeId(1)
    } else if x < ws[0].1 {
        ws[0].0
    } else {
        weighted_choice(ws.drop_first(), (x - ws[0].1) as nat)
    }
}

/// Every suffix weighs no more than the whole.
pub proof fn lemma_suffix_weight(ws: Seq<(ModeId, u32)>, i: int)
    requires
        0 <= i <= ws.len(),
    ensures
        total_weight(ws.subrange(i, ws.len() as int)) <= total_weight(ws),
    decreases i,
{
    if i == 0 {
        assert(ws.subrange(0, ws.len() as int) =~= ws);
    } else {
        lemma_suffix_weight(ws, i - 1);
        assert(ws.subrange(i - 1, ws.len() as int).drop_first() =~= ws.subrange(i, ws.len() as int));
    }
}

/// A choice below the total lands on an entry of positive weight.
pub proof fn lemma_choice_has_weight(ws: Seq<(ModeId, u32)>, x: nat)
    requires
        x < total_weight(ws),
    ensures
        exists|k: int| 0 <= k < ws.len() && ws[k].0 == weighted_choice(ws, x) && ws[k].1 > 0,
    decreases ws.len(),
{
    if x < ws[0].1 {
        assert(ws[0].0 == weighted_choice(ws, x) && ws[0].1 > 0);
    } else {
        lemma_choice_has_weight(ws.drop_first(), (x - ws[0].1) as nat);
        let k = choose|k: int|
            0 <= k < ws.drop_first().len() && ws.drop_first()[k].0 == weighted_choice(
                ws.drop_first(),
                (x - ws[0].1) as nat,
            ) && ws.drop_first()[k].1 > 0;
        assert(ws[k + 1] == ws.drop_first()[k]);
    }
}

/// The mode that `ModePrefs::pick` returns from generator state `u`.
pub open spec fn mode_pick_spec(priority: Option<ModeId>, ws: Seq<(ModeId, u32)>, u: nat) -> ModeId {
    if priority is Some {
        priority->Some_0
    } else if total_weight(ws) == 0 {
        ModeId(1)
    } else {
        weighted_choice(ws, lcg_step(u) % total_weight(ws))
    }
}

/// The generator state after `ModePrefs::pick` from state `u`.
pub open spec fn mode_pick_state(priority: Option<ModeId>, ws: Seq<(ModeId, u32)>, u: nat) -> nat {
    if priority is Some || total_weight(ws) == 0 {
        u
    } else {
        lcg_step(u)
    }
}

/// User preferences for mode selection.
#[derive(Debug, Clone)]
pub struct ModePrefs {
    /// If set always pick this mode
    priority: Option<ModeId>,
    /// Weights to select modes (also indicates valid modes). Weights are 0 to 5 stars.
    weights: Vec<(ModeId, u32)>,
}

impl ModePrefs {
    pub closed spec fn spec_priority(&self) -> Option<ModeId> {
        self.priority
    }

    pub closed spec fn spec_weights(&self) -> Seq<(ModeId, u32)> {
        self.weights@
    }

    /// Each listed mode with the default weight of 3 stars, and no priority.
    pub fn new(modes: &[u32]) -> (r: Self)
        ensures
            r.spec_priority() is None,
            r.spec_weights().len() == modes@.len(),
            forall|k: int| 0 <= k < modes@.len() ==> #[trigger] r.spec_weights()[k] == (ModeId(modes@[k]), 3u32),
    {
        let mut weights: Vec<(ModeId, u32)> = Vec::with_capacity(modes.len());
        let mut k: usize = 0;
        while k < modes.len()
            invariant
                k <= modes@.len(),
                weights@.len() == k,
                forall|x: int| 0 <= x < k ==> #[trigger] weights@[x] == (ModeId(modes@[x]), 3u32),
            decreases modes@.len() - k,
        {
            weights.push((ModeId(modes[k]), 3));
            k = k + 1;
        }
        ModePrefs { priority: None, weights }
    }

    /// The priority mode if one is set; otherwise a mode drawn with probability
    /// proportional to its weight (one draw from `rng`); mode 1 when all
    /// weights are zero.
    pub fn pick(&self, rng: &mut Minstd) -> (r: ModeId)
        requires
            total_weight(self.spec_weights()) <= u32::MAX,
        ensures
            self.spec_priority() is Some ==> r == self.spec_priority()->Some_0 && final(rng).state()
                == old(rng).state(),
            self.spec_priority() is None && total_weight(self.spec_weights()) == 0 ==> r == ModeId(1)
                && final(rng).state() == old(rng).state(),
            r == mode_pick_spec(self.spec_priority(), self.spec_weights(), old(rng).state()),
            final(rng).state() == mode_pick_state(self.spec_priority(), self.spec_weights(), old(rng).state()),
            self.spec_priority() is None && total_weight(self.spec_weights()) > 0 ==> {
                &&& final(rng).state() == lcg_step(old(rng).state())
                &&& r == weighted_choice(
                    self.spec_weights(),
                    lcg_step(old(rng).state()) % total_weight(self.spec_weights()),
                )
            },
    {
        if let Some(m) = self.priority {
            return m;
        }
        let ws = &self.weights;
        let len = ws.len();
        let mut total: u64 = 0;
        let mut i: usize = len;
        while i > 0
            invariant
                len == ws@.len(),
                i <= len,
                total == total_weight(ws@.subrange(i as int, len as int)),
                total_weight(ws@) <= u32::MAX,
            decreases i,
        {
            proof {
                lemma_suffix_weight(ws@, i - 1);
                assert(ws@.subrange(i - 1, len as int).drop_first() =~= ws@.subrange(i as int, len as int));
            }
            total = total + ws[i - 1].1 as u64;
            i = i - 1;
        }
        assert(ws@.subrange(0, len as int) =~= ws@);
        if total == 0 {
            return ModeId(1);
        }
        let mut rnd = rng.next_idx(total as u32);
        let ghost x0 = rnd as nat;
        let mut k: usize = 0;
        while k < len
            invariant
                self.priority is None,
                ws@ == self.spec_weights(),
                total == total_weight(ws@),
                total > 0,
                x0 == lcg_step(old(rng).state()) % total_weight(ws@),
                rng.state() == lcg_step(old(rng).state()),
                len == ws@.len(),
                k <= len,
                rnd < total_weight(ws@.subrange(k as int, len as int)),
                weighted_choice(ws@.subrange(k as int, len as int), rnd as nat) == weighted_choice(ws@, x0),
            decreases len - k,
        {
            let w = ws[k].1;
            assert(ws@.subrange(k as int, len as int).drop_first() =~= ws@.subrange(k + 1, len as int));
            if rnd < w {
                return ws[k].0;
            }
            rnd = rnd - w;
            k = k + 1;
        }
        // the loop invariant makes this point unreachable
        ModeId(1)
    }

    pub fn weights(&self) -> (r: &[(ModeId, u32)])
        ensures
            r@ == self.spec_weights(),
    {
        self.weights.as_slice()
    }

    pub fn weights_mut(&mut self) -> (r: &mut [(ModeId, u32)])
        ensures
            r@ == old(self).spec_weights(),
            final(r)@ == final(self).spec_weights(),
            final(self).spec_priority() == old(self).spec_priority(),
    {
        self.weights.as_mut_slice()
    }

    pub fn priority(&self) -> (r: Option<ModeId>)
        ensures
            r == self.spec_priority(),
    {
        self.priority
    }

    pub fn set_priority(&mut self, priority: Option<ModeId>)
        ensures
            final(self).spec_priority() == priority,
            final(self).spec_weights() == old(self).spec_weights(),
    {
        self.priority = priority;
    }
}

/// Waveforms that clash with a mode's motion.
pub open spec fn waveform_excluded(mode: u32, w: u32) -> bool {
    ||| (mode == 6 && w == 5)
    ||| (mode == 12 && (w == 4 || w == 6))
    ||| (mode == 14 && (w == 3 || w == 4))
    ||| ((mode == 8 || mode == 23 || mode == 24) && w == 6)
}

/// The waveform drawn from a generator in state `u`: `1..=NUM_WAVES`, each
/// value from three of the twenty residues except the last, which has two.
pub open spec fn waveform_draw(u: nat) -> u32 {
    (lcg_step(u) % 20 / 3 + 1) as u32
}

/// Rejection sampling of a waveform for `mode` from state `u` with `tries`
/// attempts left: the waveform and the generator state after it. When every
/// attempt clashes, waveform 1 (which never clashes) with no further draw.
pub open spec fn waveform_search(mode: u32, u: nat, tries: nat) -> (u32, nat)
    decreases tries,
{
    if tries == 0 {
        (1u32, u)
    } else if !waveform_excluded(mode, waveform_draw(u)) {
        (waveform_draw(u), lcg_step(u))
    } else {
        waveform_search(mode, lcg_step(u), (tries - 1) as nat)
    }
}

/// Draws a waveform in `1..=NUM_WAVES` that does not clash with `mode`: the
/// first draw that does not clash, within `WAVEFORM_TRIES` draws.
pub fn pick_compatible_waveform(mode: ModeId, rand: &mut Minstd) -> (r: u32)
    ensures
        (r, final(rand).state()) == waveform_search(mode.0, old(rand).state(), WAVEFORM_TRIES as nat),
        1 <= r <= NUM_WAVES,
        !waveform_excluded(mode.0, r),
{
    let mut tries: u32 = 0;
    while tries < WAVEFORM_TRIES
        invariant
            tries <= WAVEFORM_TRIES,
            waveform_search(mode.0, rand.state(), (WAVEFORM_TRIES - tries) as nat) == waveform_search(
                mode.0,
                old(rand).state(),
                WAVEFORM_TRIES as nat,
            ),
        decreases WAVEFORM_TRIES - tries,
    {
        let ghost u = rand.state();
        let waveform = rand.next_idx(NUM_WAVES * 3 - 1) / 3 + 1;
        assert(waveform == waveform_draw(u));
        let m = mode.0;
        let excluded = (m == 6 && waveform == 5) || (m == 12 && (waveform == 4 || waveform == 6))
            || (m == 14 && (waveform == 3 || waveform == 4)) || ((m == 8 || m == 23 || m == 24)
            && waveform == 6);
        if !excluded {
            return waveform;
        }
        tries = tries + 1;
    }
    1
}

/// User preferences for waveform selection.
#[derive(Debug, Clone, Default)]
pub struct WaveformPrefs {
    /// If set always pick this waveform
    priority: Option<WaveformId>,
}

impl WaveformPrefs {
    pub closed spec fn spec_priority(&self) -> Option<WaveformId> {
        self.priority
    }

    pub fn priority(&self) -> (r: Option<WaveformId>)
        ensures
            r == self.spec_priority(),
    {
        self.priority
    }

    pub fn set_priority(&mut self, priority: Option<WaveformId>)
        ensures
            final(self).spec_priority() == priority,
    {
        self.priority = priority;
    }

    /// The priority waveform if set (with no draw), else a random one
    /// compatible with `mode`.
    pub fn pick(&self, mode: ModeId, rng: &mut Minstd) -> (r: WaveformId)
        ensures
            self.spec_priority() is Some ==> r == self.spec_priority()->Some_0 && final(rng).state()
                == old(rng).state(),
            self.spec_priority() is None ==> (r.0, final(rng).state()) == waveform_search(
                mode.0,
                old(rng).state(),
                WAVEFORM_TRIES as nat,
            ),
            self.spec_priority() is None ==> 1 <= r.0 <= NUM_WAVES && !waveform_excluded(mode.0, r.0),
    {
        if let Some(wid) = self.priority {
            return wid;
        }
        WaveformId(pick_compatible_waveform(mode, rng))
    }
}

} // verus!
