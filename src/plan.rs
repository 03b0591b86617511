use vstd::prelude::*;
use crate::effects::Effects;
use crate::minstd::{lcg_step, Minstd};
use crate::prefs::ModeId;

verus! {

/// One step of a frame's composite, in the order it is applied.
#[derive(Debug, Clone, Copy, PartialEq, Eq, Structural)]
pub enum FxStep {
    /// Solar burst of 500 particles on the first frame of a mode-1 warp.
    SolarBurst,
    ShadeBobs,
    TwoChasers,
    SnackBar,
    OneDottyChaser,
    Nuclide,
    Grid,
    SolarParticles,
    /// Dim the centre: a cross, or (in mode 12) a vertical line.
    DiminishCenter { cross: bool },
    /// Remap the framebuffer through the warp map and swap buffers.
    Warp,
    BeatDots,
    Waveform,
}

/// The composite of one frame: optional steps in their fixed order, then the
/// warp, the beat dots and the waveform.
pub open spec fn plan_spec(fx: Effects, mode: ModeId, burst: bool, dwindle_milli: u32) -> Seq<FxStep> {
    let s0: Seq<FxStep> = if burst { seq![FxStep::SolarBurst] } else { seq![] };
    let s1 = if fx.0@[6] { s0.push(FxStep::ShadeBobs) } else { s0 };
    let s2 = if fx.0@[0] { s1.push(FxStep::TwoChasers) } else { s1 };
    let s3 = if fx.0@[1] { s2.push(FxStep::SnackBar) } else { s2 };
    let s4 = if fx.0@[2] { s3.push(FxStep::OneDottyChaser) } else { s3 };
    let s5 = if fx.0@[5] { s4.push(FxStep::Nuclide) } else { s4 };
    let s6 = if fx.0@[4] { s5.push(FxStep::Grid) } else { s5 };
    let s7 = if fx.0@[3] { s6.push(FxStep::SolarParticles) } else { s6 };
    let s8 = if dwindle_milli < 999 {
        s7.push(FxStep::DiminishCenter { cross: mode.0 != 12 })
    } else {
        s7
    };
    s8.push(FxStep::Warp).push(FxStep::BeatDots).push(FxStep::Waveform)
}

/// Plans the composite of one frame of a warp with effects `fx`. On the first
/// frame of a mode-1 warp (`first_frame`) a coin is drawn from `rand` to
/// decide the solar burst; otherwise `rand` is not touched.
pub fn frame_plan(fx: &Effects, mode: ModeId, first_frame: bool, dwindle_milli: u32, rand: &mut Minstd) -> (r: Vec<FxStep>)
    ensures
        first_frame && mode.0 == 1 ==> {
            &&& final(rand).state() == lcg_step(old(rand).state())
            &&& r@ == plan_spec(*fx, mode, lcg_step(old(rand).state()) % 2 == 1, dwindle_milli)
        },
        !(first_frame && mode.0 == 1) ==> {
            &&& final(rand).state() == old(rand).state()
            &&& r@ == plan_spec(*fx, mode, false, dwindle_milli)
        },
{
    let mut steps: Vec<FxStep> = Vec::new();
    if first_frame && mode.0 == 1 && rand.next_bool() {
        steps.push(FxStep::SolarBurst);
    }
    if fx.0[6] {
        steps.push(FxStep::ShadeBobs);
    }
    if fx.0[0] {
        steps.push(FxStep::TwoChasers);
    }
    if fx.0[1] {
        steps.push(FxStep::SnackBar);
    }
    if fx.0[2] {
        steps.push(FxStep::OneDottyChaser);
    }
    if fx.0[5] {
        steps.push(FxStep::Nuclide);
    }
    if fx.0[4] {
        steps.push(FxStep::Grid);
    }
    if fx.0[3] {
        steps.push(FxStep::SolarParticles);
    }
    if dwindle_milli < 999 {
        steps.push(FxStep::DiminishCenter { cross: mode.0 != 12 });
    }
    steps.push(FxStep::Warp);
    steps.push(FxStep::BeatDots);
    steps.push(FxStep::Waveform);
    proof {
        let burst = first_frame && mode.0 == 1 && lcg_step(old(rand).state()) % 2 == 1;
        assert(steps@ =~= plan_spec(*fx, mode, burst, dwindle_milli));
    }
    steps
}

} // verus!
