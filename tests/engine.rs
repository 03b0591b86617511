use deiss::{
    buffer_size, find_trigger, isqrt, sample_disk, shift_left, Chaser, Chasers, Effect, Fps, Grid,
    HubAction, Minstd, Rgba, RgbaImage, Shape2, SolarParticles, Vec2K, WarpMapHub, YRoi,
};

#[test]
fn dwell_scenario() {
    let mut hub: WarpMapHub<u32, &str> = WarpMapHub::new(1);
    assert_eq!(hub.step(0), HubAction::Wait);
    assert_eq!(hub.step(1), HubAction::Dispatch);
    hub.start(1, 1);
    assert_eq!(hub.step(500), HubAction::Poll);
    assert!(hub.fetch().is_none());
    hub.finish("map-1");
    assert_eq!(hub.fetch(), Some((1, "map-1")));
    assert!(hub.fetch().is_none());
    assert_eq!(hub.step(1000), HubAction::Wait);
    assert_eq!(hub.step(2500), HubAction::Wait);
    assert_eq!(hub.step(3100), HubAction::Dispatch);
    hub.start(2, 3100);
    hub.finish("map-2");
    assert_eq!(hub.step(6000), HubAction::Wait);
    assert_eq!(hub.step(6099), HubAction::Wait);
    assert_eq!(hub.step(6100), HubAction::Dispatch);
}

#[test]
fn hub_replaces_unfetched_pair() {
    let mut hub: WarpMapHub<u32, u32> = WarpMapHub::new(0);
    hub.start(1, 10);
    hub.finish(100);
    hub.start(2, 5000);
    hub.finish(200);
    assert_eq!(hub.fetch(), Some((2, 200)));
}

#[test]
fn fps_counts_frames() {
    let mut f = Fps::new();
    f.step();
    f.step();
    f.step();
    assert_eq!(f.take(), 3);
    assert_eq!(f.take(), 0);
}

#[test]
fn buffer_sizes() {
    assert_eq!(buffer_size(640), 1280);
    assert_eq!(buffer_size(320), 748);
}

#[test]
fn roi_for_height() {
    let roi = YRoi::for_height(480);
    assert_eq!((roi.min, roi.max), (90, 390));
    assert!(roi.contains(90) && roi.contains(389) && !roi.contains(89) && !roi.contains(390));
}

#[test]
fn audio_buffer_right_shift_scenario() {
    let fxw = 640u32;
    let k = 12usize;
    let half = (fxw / 2) as usize;
    let mut wave: Vec<f32> = (0..1400).map(|i| if i >= half + k { 1000.0 } else { 0.0 }).collect();
    let before = wave.clone();
    let trigger = find_trigger(fxw, |i| wave[i + half] > 500.0 && wave[i + half - 8] <= 500.0);
    assert_eq!(trigger, Some(k));
    shift_left(&mut wave, k);
    for i in 0..wave.len() - k {
        assert_eq!(wave[i], before[i + k]);
    }
    assert_eq!(wave[half - 1], 0.0);
    assert_eq!(wave[half], 1000.0);
}

#[test]
fn find_trigger_none() {
    assert_eq!(find_trigger(640, |_| false), None);
    assert_eq!(find_trigger(640, |i| i >= 9), Some(10));
}

#[test]
fn isqrt_values() {
    assert_eq!(isqrt(0), 0);
    assert_eq!(isqrt(1), 1);
    assert_eq!(isqrt(24), 4);
    assert_eq!(isqrt(25), 5);
    assert_eq!(isqrt(1224), 34);
    assert_eq!(isqrt(u32::MAX), 65535);
}

#[test]
fn disk_samples_inside() {
    let mut rng = Minstd::default();
    for _ in 0..1000 {
        let (p, c) = sample_disk(35, &mut rng);
        let d2 = p.x * p.x + p.y * p.y;
        assert!(d2 < 35 * 35);
        assert!((c * c) as i32 <= d2 && ((c + 1) * (c + 1)) as i32 > d2);
    }
}

#[test]
fn grid_raises_nodes() {
    let shape = Shape2::from((20, 12));
    let mut img = RgbaImage::black(shape);
    let g = Grid { y_roi: YRoi { min: 2, max: 18 }, x_inc: 4, y_inc: 3, fat_pixels: false, val: 70 };
    let mut rng = Minstd::default();
    g.render(&mut img, &mut rng);
    for i in 0..20u32 {
        for j in 0..12u32 {
            let node = i >= 4 && i < 16 && (i - 4) % 3 == 0 && j % 4 == 0;
            let expect = if node { [70, 70, 70, 255] } else { [0, 0, 0, 255] };
            assert_eq!(img.get((i, j)).0, expect, "({}, {})", i, j);
        }
    }
}

#[test]
fn solar_particles_only_brighten() {
    let shape = Shape2::from((120, 160));
    let mut img = RgbaImage::black(shape);
    let before = img.clone();
    let fx = SolarParticles { center: Vec2K::new(80, 60), count: 500 };
    let mut rng = Minstd::default();
    fx.render(&mut img, &mut rng);
    let mut lit = 0;
    for (a, b) in before.as_slice().iter().zip(img.as_slice()) {
        for c in 0..3 {
            assert!(b.0[c] >= a.0[c]);
        }
        assert_eq!(b.0[3], 255);
        if b.0[0] > 0 {
            lit += 1;
        }
    }
    assert!(lit > 0);
}

#[test]
fn chasers_ring_and_draw() {
    let mut ring = Chasers::default();
    let red = Rgba([255, 0, 0, 255]);
    ring.push(Chaser::new((5, 5), red));
    let mut img = RgbaImage::black(Shape2::from((10, 10)));
    ring.draw(&mut img);
    assert_eq!(img.get((5, 5)).0, red.0);
    assert_eq!(img.get((5, 6)).0, red.0);
    assert_eq!(img.get((6, 5)).0, red.0);
    assert_eq!(img.get((6, 6)).0, red.0);
    assert_eq!(img.get((5, 7)).0, [0, 0, 0, 255]);
    let mut img2 = RgbaImage::black(Shape2::from((10, 10)));
    ring.draw(&mut img2);
    assert_eq!(img2.get((5, 7)).0, red.0);
    assert_eq!(img2.get((5, 5)).0, [0, 0, 0, 255]);
}

#[test]
fn disk_samples_at_largest_radius() {
    let mut rng = Minstd::default();
    for _ in 0..200 {
        let (p, c) = sample_disk(46340, &mut rng);
        let d2 = (p.x as i64) * (p.x as i64) + (p.y as i64) * (p.y as i64);
        assert!(d2 < 46340i64 * 46340);
        assert!((c as i64) * (c as i64) <= d2 && ((c as i64) + 1) * ((c as i64) + 1) > d2);
    }
}

#[test]
fn later_chasers_paint_over_earlier() {
    let mut ring = Chasers::default();
    let red = Rgba([255, 0, 0, 255]);
    let blue = Rgba([0, 0, 255, 255]);
    ring.push(Chaser::new((4, 4), red));
    ring.push(Chaser::new((4, 5), blue));
    let mut img = RgbaImage::black(Shape2::from((10, 10)));
    ring.draw(&mut img);
    assert_eq!(img.get((4, 4)).0, red.0);
    assert_eq!(img.get((4, 5)).0, blue.0);
    assert_eq!(img.get((5, 6)).0, blue.0);
    assert_eq!(img.get((3, 4)).0, [0, 0, 0, 255]);
}

#[test]
fn fat_grid_pixels() {
    let shape = Shape2::from((20, 12));
    let mut img = RgbaImage::black(shape);
    let g = Grid { y_roi: YRoi { min: 2, max: 18 }, x_inc: 4, y_inc: 3, fat_pixels: true, val: 90 };
    g.draw(&mut img);
    for (i, j) in [(4u32, 0u32), (4, 1), (5, 0), (5, 1), (13, 8), (14, 9)] {
        assert_eq!(img.get((i, j)).0, [90, 90, 90, 255], "({}, {})", i, j);
    }
    assert_eq!(img.get((6, 0)).0, [0, 0, 0, 255]);
    assert_eq!(img.get((4, 2)).0, [0, 0, 0, 255]);
}
