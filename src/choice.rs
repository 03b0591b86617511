use vstd::prelude::*;
use crate::effects::Effects;
use crate::fx::{Vec2K, Vec2i32};
use crate::library::{blueprint_matches, raw_blueprint, ModeBlueprint, ModeBlueprintLibrary};
use crate::effects::sample_spec;
use crate::minstd::{lcg_step, Minstd};
use crate::prefs::{
    lemma_choice_has_weight, mode_pick_spec, mode_pick_state, total_weight, waveform_excluded,
    waveform_search, ModeId, ModePrefs, WAVEFORM_TRIES,
    WaveformId, WaveformPrefs, NUM_WAVES,
};

verus! {

/// The discrete part of a new warp: mode, effects, waveform and centre.
#[derive(Debug, Clone, Copy)]
pub struct WarpChoice {
    pub mode: ModeId,
    pub blueprint: ModeBlueprint,
    pub effects: Effects,
    pub waveform: WaveformId,
    pub center: Vec2i32,
}

/// `c` is the choice drawn from generator state `u`, and `v` the state after
/// it: mode, then effects, then the centre's column and row offsets, then
/// the waveform.
pub open spec fn choice_matches(
    fxw: u32,
    fxh: u32,
    modes: &ModePrefs,
    waves: &WaveformPrefs,
    u: nat,
    c: WarpChoice,
    v: nat,
) -> bool {
    let u1 = mode_pick_state(modes.spec_priority(), modes.spec_weights(), u);
    let e = sample_spec(
        c.blueprint.effect_freq,
        c.blueprint.effect_count[0] as nat,
        c.blueprint.effect_count[1] as nat,
        u1,
    );
    let ux = lcg_step(e.1);
    let uy = lcg_step(ux);
    &&& c.mode == mode_pick_spec(modes.spec_priority(), modes.spec_weights(), u)
    &&& blueprint_matches(c.mode.0, c.blueprint)
    &&& c.effects.0@ == e.0
    &&& c.center.x == (fxw / 2 - 1) + (ux % 60) as int - 30
    &&& c.center.y == (fxh / 2 - 1) + (uy % 30) as int - 15
    &&& waves.spec_priority() is Some ==> c.waveform == waves.spec_priority()->Some_0 && v == uy
    &&& waves.spec_priority() is None ==> (c.waveform.0, v) == waveform_search(c.mode.0, uy, WAVEFORM_TRIES as nat)
}

/// Two draws from the same generator state give the same choice and leave
/// the generator in the same state.
pub proof fn lemma_choice_deterministic(
    fxw: u32,
    fxh: u32,
    modes: &ModePrefs,
    waves: &WaveformPrefs,
    u: nat,
    c1: WarpChoice,
    v1: nat,
    c2: WarpChoice,
    v2: nat,
)
    requires
        choice_matches(fxw, fxh, modes, waves, u, c1, v1),
        choice_matches(fxw, fxh, modes, waves, u, c2, v2),
    ensures
        c1.mode == c2.mode,
        c1.blueprint.effect_freq == c2.blueprint.effect_freq,
        c1.effects.0@ == c2.effects.0@,
        c1.center == c2.center,
        c1.waveform == c2.waveform,
        v1 == v2,
{
}

/// Every mode listed in the weights has a blueprint.
pub open spec fn weights_populated(ws: Seq<(ModeId, u32)>) -> bool {
    forall|k: int| 0 <= k < ws.len() ==> raw_blueprint((#[trigger] ws[k]).0.0) is Some
}

/// Draws the discrete part of the next warp for an image `fxw` wide and
/// `fxh` high: the mode (from the preferences), its effects (from its
/// blueprint), a centre within 30 columns and 15 rows of the image centre,
/// and a compatible waveform, in that order from `rng`. `None` when the mode
/// drawn has no blueprint.
pub fn choose_warp(
    fxw: u32,
    fxh: u32,
    modes: &ModePrefs,
    waves: &WaveformPrefs,
    library: &ModeBlueprintLibrary,
    rng: &mut Minstd,
) -> (r: Option<WarpChoice>)
    requires
        2 <= fxw,
        2 <= fxh,
        fxw / 2 + 30 <= i32::MAX,
        fxh / 2 + 15 <= i32::MAX,
        library.wf(),
        total_weight(modes.spec_weights()) <= u32::MAX,
    ensures
        r is Some ==> {
            let c = r->Some_0;
            &&& blueprint_matches(c.mode.0, c.blueprint)
            &&& c.blueprint.effect_freq.sample_ok(
                c.blueprint.effect_count[0] as nat,
                c.blueprint.effect_count[1] as nat,
                c.effects,
            )
            &&& (fxw / 2 - 1) - 30 <= c.center.x < (fxw / 2 - 1) + 30
            &&& (fxh / 2 - 1) - 15 <= c.center.y < (fxh / 2 - 1) + 15
            &&& waves.spec_priority() is Some ==> c.waveform == waves.spec_priority()->Some_0
            &&& waves.spec_priority() is None ==> 1 <= c.waveform.0 <= NUM_WAVES && !waveform_excluded(
                c.mode.0,
                c.waveform.0,
            )
            &&& modes.spec_priority() is Some ==> c.mode == modes.spec_priority()->Some_0
        },
        r is None ==> final(rng).state() == mode_pick_state(
            modes.spec_priority(),
            modes.spec_weights(),
            old(rng).state(),
        ),
        r is Some ==> choice_matches(fxw, fxh, modes, waves, old(rng).state(), r->Some_0, final(rng).state()),
        modes.spec_priority() is Some ==> (r is Some <==> raw_blueprint(
            modes.spec_priority()->Some_0.0,
        ) is Some),
        modes.spec_priority() is None && weights_populated(modes.spec_weights()) ==> r is Some,
{
    let ghost s0 = rng.state();
    let mode = modes.pick(rng);
    proof {
        if modes.spec_priority() is None && total_weight(modes.spec_weights()) > 0 {
            lemma_choice_has_weight(
                modes.spec_weights(),
                crate::minstd::lcg_step(s0) % total_weight(modes.spec_weights()),
            );
        }
    }
    let bp = match library.get(mode) {
        Some(b) => *b,
        None => {
            return None;
        },
    };
    let effects = bp.effect_freq.sample((bp.effect_count[0] as usize, bp.effect_count[1] as usize), rng);
    let gxc = (fxw / 2 - 1) as i64 + rng.next_idx(60) as i64 - 30;
    let gyc = (fxh / 2 - 1) as i64 + rng.next_idx(30) as i64 - 15;
    let waveform = waves.pick(mode, rng);
    Some(
        WarpChoice {
            mode,
            blueprint: bp,
            effects,
            waveform,
            center: Vec2K::new(gxc as i32, gyc as i32),
        },
    )
}

} // verus!
