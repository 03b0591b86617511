use deiss::{
    bilin_w, dot_u8, process_map, warp_map_from_samples, warp_pixel, Image, Rgba, RgbaImage, Shape2,
    WarpPixel, YRoi,
};

#[test]
fn dot_u8_truncates_after_shift() {
    assert_eq!(dot_u8([255, 0, 0, 0], [252, 0, 0, 0]), 251);
    assert_eq!(dot_u8([100, 100, 100, 100], [64, 64, 64, 64]), 100);
    assert_eq!(dot_u8([1, 1, 1, 1], [63, 63, 63, 63]), 0);
    assert_eq!(dot_u8([255, 255, 255, 255], [255, 255, 255, 255]), 255);
}

#[test]
fn bilin_mixes_neighbourhood() {
    let src = vec![
        Rgba([100, 0, 0, 255]),
        Rgba([200, 0, 0, 255]),
        Rgba([0, 100, 0, 255]),
        Rgba([0, 200, 40, 255]),
    ];
    let r = bilin_w(&src[..], 0, 2, [128, 128, 0, 0]);
    assert_eq!(r.0, [150, 0, 0, 255]);
    let r = bilin_w(&src[..], 0, 2, [64, 64, 64, 64]);
    assert_eq!(r.0, [75, 75, 10, 255]);
}

#[test]
fn warp_pixel_clamps_rows() {
    let shape = Shape2::from((10, 8));
    let p = warp_pixel(shape, 3, 0, [1, 2, 3, 4]);
    assert_eq!(p.index, 2 * 8 + 3);
    assert_eq!(p.weights, [1, 2, 3, 4]);
    let p = warp_pixel(shape, 3, 9, [0; 4]);
    assert_eq!(p.index, 7 * 8 + 3);
    let p = warp_pixel(shape, 100, 5, [0; 4]);
    assert_eq!(p.index, 5 * 8 + 7);
    assert!(p.index + 8 + 1 < 80);
}

fn identity_map(shape: Shape2, w: u8) -> Image<WarpPixel> {
    let mut samples = Vec::new();
    for i in 0..shape.rows() {
        for j in 0..shape.cols() {
            samples.push((j, i, [w, 0, 0, 0]));
        }
    }
    warp_map_from_samples(shape, &samples)
}

#[test]
fn identity_remap_dims_roi_only() {
    let shape = Shape2::from((12, 6));
    let src = Image::from_fn(shape, |(i, j)| Rgba([(i * 20) as u8, (j * 40) as u8, 200, 255]));
    let mut dst = RgbaImage::black(shape);
    let map = identity_map(shape, 252);
    let roi = YRoi { min: 3, max: 9 };
    process_map(roi, map.as_slice(), &src, &mut dst);
    for i in 0..12u32 {
        for j in 0..6u32 {
            let got = *dst.get((i, j));
            if i >= 3 && i < 9 {
                let s = *src.get((i, j));
                for c in 0..3 {
                    assert_eq!(got.0[c] as u32, s.0[c] as u32 * 252 / 256);
                }
                assert_eq!(got.0[3], 255);
            } else {
                assert_eq!(got.0, [0, 0, 0, 255]);
            }
        }
    }
}

#[test]
fn warp_convergence_scenario() {
    let shape = Shape2::from((480, 640));
    let map = identity_map(shape, (1.0f32 * 252.5) as u8);
    let roi = YRoi::for_height(480);
    let mut img = Image::from_fn(shape, |(i, j)| Rgba([255, ((i + j) % 256) as u8, 128, 255]));
    let mut next = img.clone();
    for _ in 0..100 {
        process_map(roi, map.as_slice(), &img, &mut next);
        std::mem::swap(&mut img, &mut next);
    }
    let bound = 255.0f64 * (252.5f64 / 256.0).powi(100);
    for i in roi.min..roi.max {
        for j in 0..640u32 {
            let p = img.get((i, j));
            for c in 0..3 {
                assert!((p.0[c] as f64) <= bound, "{} > {}", p.0[c], bound);
            }
            assert_eq!(p.0[3], 255);
        }
    }
}

#[test]
fn warp_map_entries_stay_in_bounds() {
    let shape = Shape2::from((20, 16));
    let mut samples = Vec::new();
    for k in 0..320u32 {
        samples.push((k * 7 % 40, k * 13 % 50, [10, 20, 30, 40]));
    }
    let map = warp_map_from_samples(shape, &samples);
    for px in map.as_slice() {
        let row = px.index / 16;
        assert!(row >= 2 && row <= 17);
        assert!(px.index + 16 + 1 < 320);
    }
}
