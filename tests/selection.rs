use deiss::{
    choose_warp, pick_compatible_waveform, EffectFreq, EffectKind, Effects, Minstd, ModeBlueprintLibrary,
    ModeId, ModePrefs, WaveformId, WaveformPrefs,
};

#[test]
fn effects_count_and_lookup() {
    let e = Effects([true, false, true, false, true, false, false, true]);
    assert_eq!(e.count(), 4);
    assert!(e.has(EffectKind::Grid));
    assert!(!e.has(EffectKind::Bar));
    assert_eq!(EffectKind::Spectral.index(), 7);
}

#[test]
fn effect_bit_exclusion_scenario() {
    let freq = EffectFreq([0, 500, 0, 0, 1000, 0, 0, 0]);
    let mut rng = Minstd::default();
    for _ in 0..10_000 {
        let e = freq.sample((1, 2), &mut rng);
        assert!(e.has(EffectKind::Grid));
        assert!(!e.has(EffectKind::Bar));
        let n = e.count();
        assert!(n >= 1 && n <= 2);
    }
}

#[test]
fn effect_count_within_bounds() {
    let freq = EffectFreq([220, 150, 10, 680, 4, 170, 400, 0]).biased();
    let mut rng = Minstd::default();
    for _ in 0..2000 {
        let e = freq.sample((1, 2), &mut rng);
        let n = e.count();
        assert!(n >= 1 && n <= 2, "count {}", n);
        assert!(!(e.has(EffectKind::Grid) && e.has(EffectKind::Bar)));
        assert!(!e.has(EffectKind::Spectral));
    }
}

#[test]
fn zero_frequencies_never_selected() {
    let freq = EffectFreq([0, 0, 0, 0, 0, 0, 0, 0]);
    let mut rng = Minstd::default();
    let e = freq.sample((0, 3), &mut rng);
    assert_eq!(e.count(), 0);
}

#[test]
fn pinned_effects_always_on() {
    let freq = EffectFreq([1000, 0, 1000, 0, 0, 1000, 0, 0]);
    let mut rng = Minstd::default();
    let e = freq.sample((0, 1), &mut rng);
    assert!(e.has(EffectKind::Chasers) && e.has(EffectKind::Dots) && e.has(EffectKind::Nuclide));
    assert_eq!(e.count(), 3);
}

#[test]
fn bias_values() {
    let f = EffectFreq([220, 150, 10, 680, 4, 170, 400, 0]).biased();
    assert_eq!(f.0, [170, 370, 230, 680, 12, 221, 550, 0]);
    let g = EffectFreq([10, 900, 900, 5, 999, 800, 900, 9]).biased();
    assert_eq!(g.0, [0, 900, 900, 5, 1000, 900, 900, 9]);
}

#[test]
fn library_holds_populated_modes() {
    let lib = ModeBlueprintLibrary::new();
    let m1 = lib.get(ModeId(1)).unwrap();
    assert_eq!(m1.solar_max, 800);
    assert_eq!(m1.effect_count, [1, 2]);
    assert_eq!(m1.center_dwindle_milli, 1000);
    assert_eq!(m1.effect_freq.0, [170, 370, 230, 680, 12, 221, 550, 0]);
    assert!(m1.motion_dampened);
    let m3 = lib.get(ModeId(3)).unwrap();
    assert!(!m3.motion_dampened);
    assert_eq!(m3.center_dwindle_milli, 990);
    assert!(lib.get(ModeId(6)).is_none());
    assert!(lib.get(ModeId(12)).is_none());
}

#[test]
fn mode_prefs_defaults_and_priority() {
    let mut p = ModePrefs::new(&[1, 2, 3]);
    assert_eq!(p.weights(), &[(ModeId(1), 3), (ModeId(2), 3), (ModeId(3), 3)]);
    assert_eq!(p.priority(), None);
    p.set_priority(Some(ModeId(7)));
    let mut rng = Minstd::default();
    assert_eq!(p.pick(&mut rng), ModeId(7));
    assert_eq!(rng.next(), 48271);
}

#[test]
fn mode_pick_weighted() {
    let mut p = ModePrefs::new(&[1, 2, 3]);
    p.weights_mut()[0].1 = 0;
    p.weights_mut()[2].1 = 0;
    let mut rng = Minstd::default();
    for _ in 0..500 {
        assert_eq!(p.pick(&mut rng), ModeId(2));
    }
    let q = ModePrefs::new(&[4, 5]);
    let mut rng = Minstd::default();
    // 48271 % 6 == 1 falls in the first slot
    assert_eq!(q.pick(&mut rng), ModeId(4));
    // 182605794 % 6 == 0
    assert_eq!(q.pick(&mut rng), ModeId(4));
    // 1291394886 % 6 == 0, 1914720637 % 6 == 1, 2078669041 % 6 == 1
    let mut seen5 = false;
    for _ in 0..100 {
        if q.pick(&mut rng) == ModeId(5) {
            seen5 = true;
        }
    }
    assert!(seen5);
}

#[test]
fn mode_pick_all_zero_gives_mode_one() {
    let mut p = ModePrefs::new(&[4, 5]);
    p.weights_mut()[0].1 = 0;
    p.weights_mut()[1].1 = 0;
    let mut rng = Minstd::default();
    assert_eq!(p.pick(&mut rng), ModeId(1));
}

#[test]
fn waveform_exclusions() {
    let mut rng = Minstd::default();
    for _ in 0..2000 {
        let w = pick_compatible_waveform(ModeId(12), &mut rng);
        assert!(w >= 1 && w <= 7 && w != 4 && w != 6);
        let w = pick_compatible_waveform(ModeId(6), &mut rng);
        assert!(w >= 1 && w <= 7 && w != 5);
        let w = pick_compatible_waveform(ModeId(14), &mut rng);
        assert!(w != 3 && w != 4);
        let w = pick_compatible_waveform(ModeId(8), &mut rng);
        assert!(w != 6);
    }
}

#[test]
fn waveform_prefs_priority() {
    let mut p = WaveformPrefs::default();
    assert_eq!(p.priority(), None);
    p.set_priority(Some(WaveformId(3)));
    let mut rng = Minstd::default();
    assert_eq!(p.pick(ModeId(14), &mut rng), WaveformId(3));
    p.set_priority(None);
    let w = p.pick(ModeId(1), &mut rng);
    assert!(w.0 >= 1 && w.0 <= 7);
}

#[test]
fn deterministic_mode_pick_scenario() {
    let lib = ModeBlueprintLibrary::new();
    let modes = ModePrefs::new(&[1, 2, 3, 4, 5, 7, 8, 9]);
    let waves = WaveformPrefs::default();
    let mut a = Minstd::default();
    let mut b = Minstd::default();
    let ca = choose_warp(640, 480, &modes, &waves, &lib, &mut a).unwrap();
    let cb = choose_warp(640, 480, &modes, &waves, &lib, &mut b).unwrap();
    assert_eq!(ca.mode, cb.mode);
    assert_eq!(ca.waveform, cb.waveform);
    assert_eq!(ca.effects.0, cb.effects.0);
    assert!([1, 2, 3, 4, 5, 7, 8, 9].contains(&ca.mode.0));
    assert!(ca.center.x >= 319 - 30 && ca.center.x < 319 + 30);
    assert!(ca.center.y >= 239 - 15 && ca.center.y < 239 + 15);
    assert!(ca.waveform.0 >= 1 && ca.waveform.0 <= 7);
    let n = ca.effects.count() as u32;
    assert!(n <= ca.blueprint.effect_count[1]);
}

#[test]
fn choose_warp_without_blueprint() {
    let lib = ModeBlueprintLibrary::new();
    let mut modes = ModePrefs::new(&[1]);
    modes.set_priority(Some(ModeId(6)));
    let mut rng = Minstd::default();
    assert!(choose_warp(640, 480, &modes, &WaveformPrefs::default(), &lib, &mut rng).is_none());
}

#[test]
fn waveform_draws_follow_the_generator() {
    // 48271 % 20 == 11 gives waveform 4; 182605794 % 20 == 14 gives waveform 5
    let mut rng = Minstd::default();
    assert_eq!(pick_compatible_waveform(ModeId(1), &mut rng), 4);
    assert_eq!(rng.next(), 182605794);
    let mut rng = Minstd::default();
    assert_eq!(pick_compatible_waveform(ModeId(12), &mut rng), 5);
    assert_eq!(rng.next(), 1291394886);
}

#[test]
fn waveform_priority_draws_nothing() {
    let mut p = WaveformPrefs::default();
    p.set_priority(Some(WaveformId(2)));
    let mut rng = Minstd::default();
    assert_eq!(p.pick(ModeId(6), &mut rng), WaveformId(2));
    assert_eq!(rng.next(), 48271);
}
