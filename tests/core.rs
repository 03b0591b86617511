use deiss::{saturate_rgb, Image, Minstd, Rgba, RgbaImage, Shape2};

#[test]
fn minstd_sequence_from_seed_one() {
    let mut r = Minstd::default();
    assert_eq!(r.next(), 48271);
    assert_eq!(r.next(), 182605794);
    assert_eq!(r.next(), 1291394886);
}

#[test]
fn minstd_idx_and_bool() {
    let mut r = Minstd::default();
    assert_eq!(r.next_idx(1000), 271);
    assert_eq!(r.next_idx(1000), 794);
    let mut b = Minstd::default();
    assert!(b.next_bool());
    assert!(!b.next_bool());
    assert!(!b.next_bool());
    assert!(b.next_bool());
}

#[test]
fn minstd_is_deterministic() {
    let mut a = Minstd::default();
    let mut b = Minstd::default();
    for _ in 0..1000 {
        assert_eq!(a.next(), b.next());
    }
}

#[test]
fn shape_accessors() {
    let s = Shape2::from((480, 640));
    assert_eq!(s.rows(), 480);
    assert_eq!(s.cols(), 640);
    assert_eq!(s.len(), 480 * 640);
    assert_eq!(s.offset((2, 3)), 2 * 640 + 3);
}

#[test]
fn image_from_fn_is_row_major() {
    let img = Image::from_fn(Shape2::from((3, 4)), |(i, j)| i * 10 + j);
    assert_eq!(img.as_slice(), &[0, 1, 2, 3, 10, 11, 12, 13, 20, 21, 22, 23]);
    assert_eq!(*img.get((2, 1)), 21);
    assert_eq!(img.offset((1, 2)), 6);
    assert_eq!(img.rows(), 3);
    assert_eq!(img.cols(), 4);
}

#[test]
fn image_from_value_and_apply() {
    let mut img = Image::from_value(Shape2::from((2, 2)), 5u32);
    img.apply(|v| v * 3);
    assert_eq!(img.as_slice(), &[15, 15, 15, 15]);
    img.set((1, 0), 7);
    assert_eq!(img.as_slice(), &[15, 15, 7, 15]);
    img.as_slice_mut()[0] = 1;
    assert_eq!(img.as_slice()[0], 1);
}

#[test]
fn image_from_vec_keeps_buffer() {
    let img = Image::from_vec(Shape2::from((1, 3)), vec![4u8, 5, 6]);
    assert_eq!(img.as_slice(), &[4, 5, 6]);
    assert_eq!(img.shape(), Shape2(1, 3));
}

#[test]
fn black_image_bytes() {
    let img = RgbaImage::black(Shape2::from((2, 3)));
    let bytes = img.as_bytes();
    assert_eq!(bytes.len(), 24);
    for px in bytes.chunks(4) {
        assert_eq!(px, &[0, 0, 0, 255]);
    }
}

#[test]
fn rgba_saturating_add_keeps_alpha() {
    let mut p = Rgba([250, 10, 0, 255]);
    p.sat_add_u3([10, 20, 0]);
    assert_eq!(p.0, [255, 30, 0, 255]);
    let mut q = Rgba([1, 2, 3, 77]);
    q.sat_add_u3([255, 255, 255]);
    assert_eq!(q.0, [255, 255, 255, 77]);
}

#[test]
fn saturate_rgb_raises_to_floor() {
    let mut p = Rgba([10, 100, 60, 255]);
    saturate_rgb(&mut p, 60);
    assert_eq!(p.0, [60, 100, 60, 255]);
    assert_eq!(Rgba::white().0, [255, 255, 255, 255]);
    assert_eq!(Rgba::black().0, [0, 0, 0, 255]);
}
