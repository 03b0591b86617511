use deiss::{
    frame_plan, Bob, DiminishCenter, Effect, Effects, FxStep, Minstd, ModeId, Rgba, RgbaImage,
    RingBuffer, Shape2, ShadeBobs, Vec2K, YRoi,
};

#[test]
fn plan_follows_composite_order() {
    let fx = Effects([true, true, true, true, true, true, true, false]);
    let mut rng = Minstd::default();
    // first draw 48271 is odd: the burst happens on a mode-1 first frame
    let plan = frame_plan(&fx, ModeId(1), true, 985, &mut rng);
    assert_eq!(
        plan,
        vec![
            FxStep::SolarBurst,
            FxStep::ShadeBobs,
            FxStep::TwoChasers,
            FxStep::SnackBar,
            FxStep::OneDottyChaser,
            FxStep::Nuclide,
            FxStep::Grid,
            FxStep::SolarParticles,
            FxStep::DiminishCenter { cross: true },
            FxStep::Warp,
            FxStep::BeatDots,
            FxStep::Waveform,
        ]
    );
    assert_eq!(rng.next(), 182605794);
}

#[test]
fn plan_minimal_frame() {
    let fx = Effects([false; 8]);
    let mut rng = Minstd::default();
    let plan = frame_plan(&fx, ModeId(12), true, 1000, &mut rng);
    assert_eq!(plan, vec![FxStep::Warp, FxStep::BeatDots, FxStep::Waveform]);
    assert_eq!(rng.next(), 48271);
    let plan = frame_plan(&fx, ModeId(12), false, 915, &mut rng);
    assert_eq!(plan[0], FxStep::DiminishCenter { cross: false });
}

#[test]
fn pixel_ops() {
    let p = Rgba([200, 100, 7, 255]);
    assert_eq!(p.dimmed(990).0, [198, 99, 6, 255]);
    assert_eq!(p.dimmed(1000).0, [200, 100, 7, 255]);
    assert_eq!(p.faded_toward_white().0, [222, 162, 107, 255]);
    let mut q = Rgba([222, 223, 0, 9]);
    q.bump(0);
    q.bump(1);
    assert_eq!(q.0, [238, 223, 0, 9]);
}

#[test]
fn diminish_cross() {
    let shape = Shape2::from((9, 9));
    let mut img = RgbaImage::from_value(shape, Rgba([100, 100, 100, 255]));
    let d = DiminishCenter {
        y_roi: YRoi { min: 2, max: 7 },
        center: Vec2K::new(4, 3),
        center_mode: true,
        center_dwindle_milli: 500,
    };
    let mut rng = Minstd::default();
    d.render(&mut img, &mut rng);
    let dimmed = [(3, 4), (3, 3), (3, 5), (2, 4), (4, 4)];
    for i in 0..9u32 {
        for j in 0..9u32 {
            let expect = if dimmed.contains(&(i, j)) { 50 } else { 100 };
            assert_eq!(img.get((i, j)).0, [expect, expect, expect, 255], "({}, {})", i, j);
        }
    }
}

#[test]
fn diminish_line() {
    let shape = Shape2::from((10, 6));
    let mut img = RgbaImage::from_value(shape, Rgba([200, 200, 200, 255]));
    let d = DiminishCenter {
        y_roi: YRoi { min: 2, max: 8 },
        center: Vec2K::new(0, 5),
        center_mode: false,
        center_dwindle_milli: 915,
    };
    d.draw(&mut img);
    for i in 0..10u32 {
        for j in 0..6u32 {
            let expect = if i >= 2 && i < 8 && j <= 1 { 183 } else { 200 };
            assert_eq!(img.get((i, j)).0[0], expect, "({}, {})", i, j);
        }
    }
}

#[test]
fn shade_bobs_light_selected_channels() {
    let shape = Shape2::from((40, 40));
    let mut img = RgbaImage::black(shape);
    let bobs = ShadeBobs { bobs: vec![Bob { start: Vec2K::new(20, 20), lit: [true, false, true] }] };
    let mut rng = Minstd::default();
    bobs.render(&mut img, &mut rng);
    let mut red = 0;
    for p in img.as_slice() {
        assert_eq!(p.0[1], 0);
        assert_eq!(p.0[0], p.0[2]);
        assert_eq!(p.0[3], 255);
        red += p.0[0] as u32;
    }
    assert_eq!(red, 4 * (5 + 4 * 3));
}

#[test]
fn ring_buffer_order() {
    let mut r = RingBuffer::new(3, 0u32);
    assert_eq!(r.len(), 3);
    assert_eq!(r.push(1), 0);
    assert_eq!(r.push(2), 0);
    assert_eq!(r.current(), 2);
    assert!(!r.at_lap_start());
    assert_eq!(r.push(3), 0);
    assert!(r.at_lap_start());
    assert_eq!(r.push(4), 1);
    assert_eq!(r.to_vec_ordered(), vec![2, 3, 4]);
}

#[test]
fn shade_bobs_draw_two_numbers_per_step() {
    let shape = Shape2::from((30, 30));
    let mut img = RgbaImage::black(shape);
    let bobs = ShadeBobs {
        bobs: vec![
            Bob { start: Vec2K::new(-50, -50), lit: [false, false, false] },
            Bob { start: Vec2K::new(15, 15), lit: [false, true, false] },
        ],
    };
    let mut rng = Minstd::default();
    bobs.draw(&mut img, &mut rng);
    let mut reference = Minstd::default();
    for _ in 0..16 {
        reference.next();
    }
    assert_eq!(rng.next(), reference.next());
}

#[test]
fn small_layout_uses_small_dots() {
    let mut rng = deiss::Minstd::default();
    let s = deiss::dot_ring_size(320, &mut rng);
    // 48271 % 6 == 1
    assert_eq!((s.radius, s.r_base, s.r_cap), (23, 2, 7));
    let mut rng = deiss::Minstd::default();
    let s = deiss::dot_ring_size(640, &mut rng);
    // 48271 % 8 == 7
    assert_eq!((s.radius, s.r_base, s.r_cap), (41, 3, 10));
}
