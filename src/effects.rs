use vstd::prelude::*;
use crate::minstd::{lcg_iter, lcg_step, Minstd};

verus! {

/// Number of effect kinds.
pub const NUM_EFFECTS: usize = 8;

/// Rounds of random top-up before the deterministic pass.
pub const FILL_ROUNDS: u32 = 64;

/// Random picks tried when trimming before the deterministic pass.
pub const TRIM_ROUNDS: u32 = 256;

/// Frequencies at or above this value pin an effect on.
pub const PINNED_FREQ: u32 = 1000;

/// The drawing effects a mode can combine.
#[derive(Debug, Clone, Copy, PartialEq, Eq, Structural)]
pub enum EffectKind {
    Chasers,
    Bar,
    Dots,
    Solar,
    Grid,
    Nuclide,
    Shade,
    Spectral,
}

/// Slot of `Bar` in an effect vector.
pub const BAR: usize = 1;

/// Slot of `Grid` in an effect vector.
pub const GRID: usize = 4;

impl EffectKind {
    pub open spec fn spec_index(self) -> int {
        match self {
            EffectKind::Chasers => 0,
            EffectKind::Bar => 1,
            EffectKind::Dots => 2,
            EffectKind::Solar => 3,
            EffectKind::Grid => 4,
            EffectKind::Nuclide => 5,
            EffectKind::Shade => 6,
            EffectKind::Spectral => 7,
        }
    }

    /// Slot of this kind in an effect vector.
    pub fn index(&self) -> (r: usize)
        ensures
            r == self.spec_index(),
            r < NUM_EFFECTS,
    {
        match self {
            EffectKind::Chasers => 0,
            EffectKind::Bar => 1,
            EffectKind::Dots => 2,
            EffectKind::Solar => 3,
            EffectKind::Grid => 4,
            EffectKind::Nuclide => 5,
            EffectKind::Shade => 6,
            EffectKind::Spectral => 7,
        }
    }
}

/// Number of `true` entries.
pub open spec fn count_true(s: Seq<bool>) -> nat
    decreases s.len(),
{
    if s.len() == 0 {
        0
    } else {
        count_true(s.drop_last()) + if s.last() { 1nat } else { 0nat }
    }
}

/// Setting or clearing one entry changes the count by at most one, as expected.
pub proof fn lemma_count_update(s: Seq<bool>, i: int, b: bool)
    requires
        0 <= i < s.len(),
    ensures
        count_true(s.update(i, b)) + (if s[i] { 1int } else { 0int }) == count_true(s) + (if b {
            1int
        } else {
            0int
        }),
    decreases s.len(),
{
    if i == s.len() - 1 {
        assert(s.update(i, b).drop_last() =~= s.drop_last());
    } else {
        lemma_count_update(s.drop_last(), i, b);
        assert(s.update(i, b).drop_last() =~= s.drop_last().update(i, b));
    }
}

/// If every entry set in `s` is set in `t`, `s` has no more entries set.
pub proof fn lemma_count_mono(s: Seq<bool>, t: Seq<bool>)
    requires
        s.len() == t.len(),
        forall|i: int| 0 <= i < s.len() && #[trigger] s[i] ==> t[i],
    ensures
        count_true(s) <= count_true(t),
    decreases s.len(),
{
    if s.len() > 0 {
        lemma_count_mono(s.drop_last(), t.drop_last());
    }
}

/// The count never exceeds the length.
pub proof fn lemma_count_le_len(s: Seq<bool>)
    ensures
        count_true(s) <= s.len(),
    decreases s.len(),
{
    if s.len() > 0 {
        lemma_count_le_len(s.drop_last());
    }
}

/// Per-effect selection frequencies, in thousandths.
#[derive(Debug, Clone, Copy)]
pub struct EffectFreq(pub [u32; 8]);

/// A set of effects, one flag per `EffectKind`.
#[derive(Debug, Clone, Copy)]
pub struct Effects(pub [bool; 8]);

impl Effects {
    pub open spec fn flags(self) -> Seq<bool> {
        self.0@
    }

    pub open spec fn spec_count(self) -> nat {
        count_true(self.0@)
    }

    /// Number of effects in the set.
    pub fn count(&self) -> (r: usize)
        ensures
            r == self.spec_count(),
    {
        count_flags(&self.0)
    }

    /// Whether effect `kind` is in the set.
    pub fn has(&self, kind: EffectKind) -> (r: bool)
        ensures
            r == self.0@[kind.spec_index()],
    {
        self.0[kind.index()]
    }
}

/// Number of set flags.
fn count_flags(a: &[bool; 8]) -> (r: usize)
    ensures
        r == count_true(a@),
{
    let mut n: usize = 0;
    let mut i: usize = 0;
    while i < NUM_EFFECTS
        invariant
            i <= NUM_EFFECTS,
            a@.len() == NUM_EFFECTS,
            n == count_true(a@.subrange(0, i as int)),
            n <= i,
        decreases NUM_EFFECTS - i,
    {
        assert(a@.subrange(0, i + 1).drop_last() =~= a@.subrange(0, i as int));
        if a[i] {
            n = n + 1;
        }
        i = i + 1;
    }
    assert(a@.subrange(0, 8) =~= a@);
    n
}

/// Initial picks: effect `i` is on when the `i + 1`-th draw from `u`, modulo
/// 1000, is below `0.7 * freq[i]`.
pub open spec fn initial_picks(f: EffectFreq, u: nat) -> Seq<bool> {
    Seq::new(8, |i: int| lcg_iter(u, (i + 1) as nat) % 1000 < f.freq(i) * 7 / 10)
}

/// One top-up round from slot `k`: the first unpicked effect whose draw falls
/// below its frequency is added; one draw per unpicked effect looked at.
pub open spec fn fill_scan(f: EffectFreq, bits: Seq<bool>, k: nat, u: nat) -> (Seq<bool>, nat)
    decreases 8 - k,
{
    if k >= 8 {
        (bits, u)
    } else if !bits[k as int] {
        if lcg_step(u) % 1000 < f.freq(k as int) {
            (bits.update(k as int, true), lcg_step(u))
        } else {
            fill_scan(f, bits, k + 1, lcg_step(u))
        }
    } else {
        fill_scan(f, bits, k + 1, u)
    }
}

/// Top-up rounds while fewer than `min` effects are picked, at most `left`.
pub open spec fn fill_rounds(f: EffectFreq, bits: Seq<bool>, min: nat, left: nat, u: nat) -> (Seq<bool>, nat)
    decreases left,
{
    if left == 0 || count_true(bits) >= min {
        (bits, u)
    } else {
        let r = fill_scan(f, bits, 0, u);
        fill_rounds(f, r.0, min, (left - 1) as nat, r.1)
    }
}

/// Deterministic top-up from slot `k`: live effects in slot order while
/// fewer than `min` are picked.
pub open spec fn fill_det(f: EffectFreq, bits: Seq<bool>, min: nat, k: nat) -> Seq<bool>
    decreases 8 - k,
{
    if k >= 8 {
        bits
    } else {
        let b = if count_true(bits) < min && !bits[k as int] && f.freq(k as int) > 0 {
            bits.update(k as int, true)
        } else {
            bits
        };
        fill_det(f, b, min, k + 1)
    }
}

/// Pinned effects from slot `k` on.
pub open spec fn pin_all(f: EffectFreq, bits: Seq<bool>, k: nat) -> Seq<bool>
    decreases 8 - k,
{
    if k >= 8 {
        bits
    } else {
        let b = if f.freq(k as int) >= PINNED_FREQ && !bits[k as int] {
            bits.update(k as int, true)
        } else {
            bits
        };
        pin_all(f, b, k + 1)
    }
}

/// Random trimming while more than `max` effects are picked, at most `left`
/// draws: the drawn slot is dropped if it is picked and not pinned.
pub open spec fn trim_rounds(f: EffectFreq, bits: Seq<bool>, max: nat, left: nat, u: nat) -> (Seq<bool>, nat)
    decreases left,
{
    if left == 0 || count_true(bits) <= max {
        (bits, u)
    } else {
        let j = (lcg_step(u) % 8) as int;
        let b = if bits[j] && f.freq(j) < PINNED_FREQ {
            bits.update(j, false)
        } else {
            bits
        };
        trim_rounds(f, b, max, (left - 1) as nat, lcg_step(u))
    }
}

/// Deterministic trimming from slot `k`: unpinned effects in slot order while
/// more than `max` are picked.
pub open spec fn trim_det(f: EffectFreq, bits: Seq<bool>, max: nat, k: nat) -> Seq<bool>
    decreases 8 - k,
{
    if k >= 8 {
        bits
    } else {
        let b = if count_true(bits) > max && bits[k as int] && f.freq(k as int) < PINNED_FREQ {
            bits.update(k as int, false)
        } else {
            bits
        };
        trim_det(f, b, max, k + 1)
    }
}

/// `Grid` hides `Bar`.
pub open spec fn grid_hides_bar(bits: Seq<bool>) -> Seq<bool> {
    if bits[GRID as int] {
        bits.update(BAR as int, false)
    } else {
        bits
    }
}

/// The effect set that `sample` draws from generator state `u`, and the
/// state after it.
pub open spec fn sample_spec(f: EffectFreq, min: nat, max: nat, u: nat) -> (Seq<bool>, nat) {
    let b0 = initial_picks(f, u);
    let u0 = lcg_iter(u, 8);
    let filled = fill_rounds(f, b0, min, FILL_ROUNDS as nat, u0);
    let b1 = pin_all(f, fill_det(f, filled.0, min, 0), 0);
    let trimmed = trim_rounds(f, b1, max, TRIM_ROUNDS as nat, filled.1);
    (grid_hides_bar(trim_det(f, trimmed.0, max, 0)), trimmed.1)
}

impl EffectFreq {
    pub open spec fn freq(self, i: int) -> u32 {
        self.0@[i]
    }

    /// Effect `i` is always on.
    pub open spec fn pinned(self, i: int) -> bool {
        self.freq(i) >= PINNED_FREQ
    }

    /// Effect `i` can be selected at all.
    pub open spec fn live(self, i: int) -> bool {
        self.freq(i) > 0
    }

    pub open spec fn pinned_flags(self) -> Seq<bool> {
        Seq::new(8, |i: int| self.pinned(i))
    }

    pub open spec fn live_flags(self) -> Seq<bool> {
        Seq::new(8, |i: int| self.live(i))
    }

    /// What every outcome of `sample` satisfies.
    pub open spec fn sample_ok(self, min: nat, max: nat, r: Effects) -> bool {
        let c = r.spec_count();
        &&& forall|i: int| 0 <= i < 8 && #[trigger] r.0@[i] ==> self.live(i)
        &&& forall|i: int|
            0 <= i < 8 && self.pinned(i) && !(i == BAR && r.0@[GRID as int]) ==> #[trigger] r.0@[i]
        &&& r.0@[GRID as int] ==> !r.0@[BAR as int]
        &&& (c <= max || forall|i: int| 0 <= i < 8 && #[trigger] r.0@[i] ==> self.pinned(i))
        &&& (min <= max && min <= count_true(self.live_flags())) ==> min <= c + (if r.0@[GRID as int] && self.live(BAR as int) {
            1nat
        } else {
            0nat
        })
    }

    /// Draws a random effect set with between `min` and `max` members.
    ///
    /// Each effect is first picked with probability `0.7 * freq`; while fewer
    /// than `min` are picked, unpicked ones are added with probability `freq`
    /// (after a bounded number of rounds the first live ones are added);
    /// pinned effects (`freq >= 1000`) are forced on; while more than `max`
    /// are picked, random unpinned ones are dropped (then the first ones);
    /// finally `Grid` excludes `Bar`.
    pub fn sample(&self, range: (usize, usize), rand: &mut Minstd) -> (r: Effects)
        ensures
            self.sample_ok(range.0 as nat, range.1 as nat, r),
            (r.0@, final(rand).state()) == sample_spec(*self, range.0 as nat, range.1 as nat, old(rand).state()),
    {
        let (min, max) = range;
        let ghost u = rand.state();
        let mut effect: [bool; 8] = [false; 8];
        let mut i: usize = 0;
        while i < NUM_EFFECTS
            invariant
                i <= NUM_EFFECTS,
                forall|j: int| 0 <= j < 8 && #[trigger] effect@[j] ==> self.live(j),
                rand.state() == lcg_iter(u, i as nat),
                forall|j: int| 0 <= j < i ==> #[trigger] effect@[j] == initial_picks(*self, u)[j],
            decreases NUM_EFFECTS - i,
        {
            let thresh = (self.0[i] as u64 * 7) / 10;
            effect[i] = (rand.next_idx(1000) as u64) < thresh;
            i = i + 1;
        }
        assert(effect@ =~= initial_picks(*self, u));
        let mut n = count_flags(&effect);
        let ghost filled = fill_rounds(*self, effect@, min as nat, FILL_ROUNDS as nat, rand.state());

        // top up to `min`
        let mut rounds: u32 = 0;
        while n < min && rounds < FILL_ROUNDS
            invariant
                rounds <= FILL_ROUNDS,
                n == count_true(effect@),
                forall|j: int| 0 <= j < 8 && #[trigger] effect@[j] ==> self.live(j),
                fill_rounds(*self, effect@, min as nat, (FILL_ROUNDS - rounds) as nat, rand.state()) == filled,
            decreases FILL_ROUNDS - rounds,
        {
            let ghost b0 = effect@;
            let ghost u0 = rand.state();
            let mut k: usize = 0;
            let mut added = false;
            while k < NUM_EFFECTS && !added
                invariant
                    k <= NUM_EFFECTS,
                    n == count_true(effect@),
                    forall|j: int| 0 <= j < 8 && #[trigger] effect@[j] ==> self.live(j),
                    added ==> (effect@, rand.state()) == fill_scan(*self, b0, 0, u0),
                    !added ==> fill_scan(*self, effect@, k as nat, rand.state()) == fill_scan(*self, b0, 0, u0),
                decreases NUM_EFFECTS - k,
            {
                if !effect[k] {
                    if rand.next_idx(1000) < self.0[k] {
                        proof {
                            lemma_count_update(effect@, k as int, true);
                            lemma_count_le_len(effect@);
                        }
                        effect[k] = true;
                        n = n + 1;
                        added = true;
                    }
                }
                k = k + 1;
            }
            rounds = rounds + 1;
        }
        assert((effect@, rand.state()) == filled);
        let ghost b_filled = effect@;
        let mut k: usize = 0;
        while k < NUM_EFFECTS
            invariant
                k <= NUM_EFFECTS,
                n == count_true(effect@),
                forall|j: int| 0 <= j < 8 && #[trigger] effect@[j] ==> self.live(j),
                n >= min || forall|j: int| 0 <= j < k && self.live(j) ==> #[trigger] effect@[j],
                fill_det(*self, effect@, min as nat, k as nat) == fill_det(*self, b_filled, min as nat, 0),
            decreases NUM_EFFECTS - k,
        {
            if n < min && !effect[k] && self.0[k] > 0 {
                proof {
                    lemma_count_update(effect@, k as int, true);
                    lemma_count_le_len(effect@);
                }
                effect[k] = true;
                n = n + 1;
            }
            k = k + 1;
        }
        proof {
            if n < min {
                lemma_count_mono(self.live_flags(), effect@);
            }
        }
        let ghost b_det = effect@;

        // pinned effects are always on
        let mut k: usize = 0;
        while k < NUM_EFFECTS
            invariant
                k <= NUM_EFFECTS,
                n == count_true(effect@),
                forall|j: int| 0 <= j < 8 && #[trigger] effect@[j] ==> self.live(j),
                forall|j: int| 0 <= j < k && self.pinned(j) ==> #[trigger] effect@[j],
                (min <= count_true(self.live_flags())) ==> min <= n,
                pin_all(*self, effect@, k as nat) == pin_all(*self, b_det, 0),
            decreases NUM_EFFECTS - k,
        {
            if self.0[k] >= PINNED_FREQ && !effect[k] {
                proof {
                    lemma_count_update(effect@, k as int, true);
                    lemma_count_le_len(effect@);
                }
                effect[k] = true;
                n = n + 1;
            }
            k = k + 1;
        }
        let ghost trimmed = trim_rounds(*self, effect@, max as nat, TRIM_ROUNDS as nat, rand.state());

        // trim down to `max`
        let mut rounds: u32 = 0;
        while n > max && rounds < TRIM_ROUNDS
            invariant
                rounds <= TRIM_ROUNDS,
                n == count_true(effect@),
                forall|j: int| 0 <= j < 8 && #[trigger] effect@[j] ==> self.live(j),
                forall|j: int| 0 <= j < 8 && self.pinned(j) ==> #[trigger] effect@[j],
                (min <= max && min <= count_true(self.live_flags())) ==> min <= n,
                trim_rounds(*self, effect@, max as nat, (TRIM_ROUNDS - rounds) as nat, rand.state()) == trimmed,
            decreases TRIM_ROUNDS - rounds,
        {
            let j = rand.next_idx(NUM_EFFECTS as u32) as usize;
            if effect[j] && self.0[j] < PINNED_FREQ {
                proof {
                    lemma_count_update(effect@, j as int, false);
                }
                effect[j] = false;
                n = n - 1;
            }
            rounds = rounds + 1;
        }
        assert((effect@, rand.state()) == trimmed);
        let ghost b_trim = effect@;
        let mut k: usize = 0;
        while k < NUM_EFFECTS
            invariant
                k <= NUM_EFFECTS,
                n == count_true(effect@),
                forall|j: int| 0 <= j < 8 && #[trigger] effect@[j] ==> self.live(j),
                forall|j: int| 0 <= j < 8 && self.pinned(j) ==> #[trigger] effect@[j],
                (min <= max && min <= count_true(self.live_flags())) ==> min <= n,
                n <= max || forall|j: int| 0 <= j < k && #[trigger] effect@[j] ==> self.pinned(j),
                trim_det(*self, effect@, max as nat, k as nat) == trim_det(*self, b_trim, max as nat, 0),
            decreases NUM_EFFECTS - k,
        {
            if n > max && effect[k] && self.0[k] < PINNED_FREQ {
                proof {
                    lemma_count_update(effect@, k as int, false);
                }
                effect[k] = false;
                n = n - 1;
            }
            k = k + 1;
        }

        // a grid hides the bar
        if effect[GRID] {
            proof {
                lemma_count_update(effect@, BAR as int, false);
                lemma_count_mono(effect@.update(BAR as int, false), effect@);
                if !self.live(BAR as int) {
                    assert(!effect@[BAR as int]);
                }
            }
            effect[BAR] = false;
        }
        Effects(effect)
    }

    /// The frequencies after the library-wide bias.
    pub open spec fn biased_spec(self) -> EffectFreq {
        EffectFreq(
            [
                min_nat(if self.freq(0) >= 50 { (self.freq(0) - 50) as nat } else { 0 }, 900) as u32,
                min_nat(self.freq(1) as nat + 220, 900) as u32,
                min_nat(self.freq(2) as nat + 220, 900) as u32,
                self.freq(3),
                min_nat(self.freq(4) as nat + 8, 1000) as u32,
                min_nat(self.freq(5) as nat * 13 / 10, 900) as u32,
                min_nat(self.freq(6) as nat + 150, 900) as u32,
                self.freq(7),
            ],
        )
    }

    /// The frequencies after the library-wide bias: Nuclide ×1.3, Chasers −50
    /// (both within `[0, 900]`), Dots and Bar +220, Shade +150 (capped at 900),
    /// Grid +8 (capped at 1000).
    pub fn biased(&self) -> (r: EffectFreq)
        ensures
            r == self.biased_spec(),
            r.freq(5) == min_nat(self.freq(5) as nat * 13 / 10, 900),
            r.freq(0) == min_nat(if self.freq(0) >= 50 { (self.freq(0) - 50) as nat } else { 0 }, 900),
            r.freq(2) == min_nat(self.freq(2) as nat + 220, 900),
            r.freq(1) == min_nat(self.freq(1) as nat + 220, 900),
            r.freq(6) == min_nat(self.freq(6) as nat + 150, 900),
            r.freq(4) == min_nat(self.freq(4) as nat + 8, 1000),
            r.freq(3) == self.freq(3),
            r.freq(7) == self.freq(7),
    {
        let f = self.0;
        EffectFreq(
            [
                cap_u64(f[0].saturating_sub(50) as u64, 900),
                cap_u64(f[1] as u64 + 220, 900),
                cap_u64(f[2] as u64 + 220, 900),
                f[3],
                cap_u64(f[4] as u64 + 8, 1000),
                cap_u64(f[5] as u64 * 13 / 10, 900),
                cap_u64(f[6] as u64 + 150, 900),
                f[7],
            ],
        )
    }
}

pub open spec fn min_nat(a: nat, b: nat) -> nat {
    if a <= b { a } else { b }
}

/// `min(v, cap)` as a `u32`.
fn cap_u64(v: u64, cap: u32) -> (r: u32)
    ensures
        r == min_nat(v as nat, cap as nat),
{
    if v <= cap as u64 { v as u32 } else { cap }
}

} // verus!
