use vstd::prelude::*;
use crate::effects::EffectFreq;
use crate::prefs::ModeId;
use std::collections::HashMap;

verus! {

/// Tuning of one mode: which effects it mixes and how.
#[derive(Debug, Clone, Copy)]
pub struct ModeBlueprint {
    pub effect_freq: EffectFreq,
    pub solar_max: u32,
    /// Brightness kept at the centre each frame, in thousandths; below 999 the
    /// centre is dimmed.
    pub center_dwindle_milli: u32,
    /// Inclusive bounds on the number of effects.
    pub effect_count: [u32; 2],
    pub motion_dampened: bool,
}

/// The blueprint table before the library-wide frequency bias.
pub open spec fn raw_blueprint(m: u32) -> Option<(Seq<u32>, u32, u32, u32, u32, bool)> {
    if m == 1 {
        Some((seq![220u32, 150, 10, 680, 4, 170, 400, 0], 800u32, 1000u32, 1u32, 2u32, true))
    } else if m == 2 {
        Some((seq![750u32, 500, 750, 750, 0, 0, 0, 0], 35u32, 1000u32, 1u32, 5u32, true))
    } else if m == 3 {
        Some((seq![100u32, 100, 100, 500, 10, 0, 300, 0], 60u32, 990u32, 1u32, 2u32, false))
    } else if m == 4 {
        Some((seq![500u32, 100, 100, 100, 30, 0, 0, 0], 34u32, 980u32, 1u32, 2u32, true))
    } else if m == 5 {
        Some((seq![100u32, 350, 100, 500, 15, 180, 500, 0], 60u32, 990u32, 1u32, 2u32, true))
    } else if m == 7 {
        Some((seq![50u32, 200, 0, 300, 0, 600, 350, 0], 65u32, 985u32, 1u32, 2u32, true))
    } else if m == 8 {
        Some((seq![150u32, 150, 150, 150, 25, 0, 0, 0], 60u32, 960u32, 1u32, 2u32, true))
    } else if m == 9 {
        Some((seq![450u32, 200, 50, 200, 0, 100, 200, 0], 50u32, 985u32, 1u32, 2u32, true))
    } else {
        None
    }
}

/// `b` is row `m` of the table, with its frequencies biased.
pub open spec fn blueprint_matches(m: u32, b: ModeBlueprint) -> bool {
    raw_blueprint(m) is Some && {
        let (f, solar, dwindle, lo, hi, damp) = raw_blueprint(m)->Some_0;
        &&& b.effect_freq == EffectFreq([f[0], f[1], f[2], f[3], f[4], f[5], f[6], f[7]]).biased_spec()
        &&& b.solar_max == solar
        &&& b.center_dwindle_milli == dwindle
        &&& b.effect_count == [lo, hi]
        &&& b.motion_dampened == damp
    }
}

fn blueprint(freq: [u32; 8], solar_max: u32, dwindle: u32, count: [u32; 2], damp: bool) -> (r: ModeBlueprint)
    ensures
        r.effect_freq == EffectFreq(freq).biased_spec(),
        r.solar_max == solar_max,
        r.center_dwindle_milli == dwindle,
        r.effect_count == count,
        r.motion_dampened == damp,
{
    ModeBlueprint {
        effect_freq: EffectFreq(freq).biased(),
        solar_max,
        center_dwindle_milli: dwindle,
        effect_count: count,
        motion_dampened: damp,
    }
}

/// The blueprint of every populated mode, keyed by mode number. Immutable
/// once built.
#[derive(Debug, Clone)]
pub struct ModeBlueprintLibrary {
    modes: HashMap<u32, ModeBlueprint>,
}

impl ModeBlueprintLibrary {
    /// The blueprints by mode number.
    pub closed spec fn entries(&self) -> Map<u32, ModeBlueprint> {
        self.modes@
    }

    /// Exactly the populated modes are present, each with its row of the
    /// table, biased.
    pub open spec fn wf(&self) -> bool {
        forall|m: u32|
            (#[trigger] self.entries().contains_key(m) <==> raw_blueprint(m) is Some) && (
            self.entries().contains_key(m) ==> blueprint_matches(m, self.entries()[m]))
    }

    pub fn new() -> (r: Self)
        ensures
            r.wf(),
    {
        broadcast use vstd::std_specs::hash::group_hash_axioms;

        let mut modes: HashMap<u32, ModeBlueprint> = HashMap::new();
        modes.insert(1, blueprint([220, 150, 10, 680, 4, 170, 400, 0], 800, 1000, [1, 2], true));
        modes.insert(2, blueprint([750, 500, 750, 750, 0, 0, 0, 0], 35, 1000, [1, 5], true));
        modes.insert(3, blueprint([100, 100, 100, 500, 10, 0, 300, 0], 60, 990, [1, 2], false));
        modes.insert(4, blueprint([500, 100, 100, 100, 30, 0, 0, 0], 34, 980, [1, 2], true));
        modes.insert(5, blueprint([100, 350, 100, 500, 15, 180, 500, 0], 60, 990, [1, 2], true));
        modes.insert(7, blueprint([50, 200, 0, 300, 0, 600, 350, 0], 65, 985, [1, 2], true));
        modes.insert(8, blueprint([150, 150, 150, 150, 25, 0, 0, 0], 60, 960, [1, 2], true));
        modes.insert(9, blueprint([450, 200, 50, 200, 0, 100, 200, 0], 50, 985, [1, 2], true));
        ModeBlueprintLibrary { modes }
    }

    /// The blueprint of `mode`, if the mode has one.
    pub fn get(&self, mode: ModeId) -> (r: Option<&ModeBlueprint>)
        requires
            self.wf(),
        ensures
            r is Some <==> raw_blueprint(mode.0) is Some,
            r is Some ==> blueprint_matches(mode.0, *r->Some_0),
    {
        broadcast use vstd::std_specs::hash::group_hash_axioms;

        let r = self.modes.get(&mode.0);
        proof {
            assert(self.entries().contains_key(mode.0) <==> raw_blueprint(mode.0) is Some);
        }
        r
    }
}

} // verus!
