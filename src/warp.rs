use vstd::prelude::*;
use crate::image::Image;
use crate::prefs::YRoi;
use crate::rgba::{all_opaque, Rgba, RgbaImage};
use crate::shape::Shape2;

verus! {

/// One output pixel's bilinear source: `index` is the linear offset of the
/// top-left pixel of a 2×2 neighbourhood, `weights` its four weights in 1/256.
#[derive(Debug, Clone, Copy, Default)]
pub struct WarpPixel {
    pub weights: [u8; 4],
    pub index: u32,
}

/// A baked warp: one `WarpPixel` per destination pixel.
pub type WarpMap = Image<WarpPixel>;

/// `v` clamped into `[lo, hi]`.
pub open spec fn clamp_int(v: int, lo: int, hi: int) -> int {
    if v < lo { lo } else if v > hi { hi } else { v }
}

/// Source offset for the sample point with integer part `(ix, iy)`: the row
/// is kept two rows clear of the top and bottom edges.
pub open spec fn warp_index(shape: Shape2, ix: int, iy: int) -> int {
    clamp_int(iy, 2, shape.0 - 3) * shape.1 + clamp_int(ix, 0, shape.1 - 1)
}

/// The whole 2×2 neighbourhood of `px` lies inside an image of `shape`, and
/// its top row is in `[2, rows - 3]`.
pub open spec fn valid_pixel(px: WarpPixel, shape: Shape2) -> bool {
    &&& px.index + shape.1 + 1 < shape.size()
    &&& 2 * shape.1 <= px.index < (shape.0 - 2) * shape.1
}

/// Every entry of the map is a valid source neighbourhood.
pub open spec fn valid_map(fx: Seq<WarpPixel>, shape: Shape2) -> bool {
    forall|k: int| 0 <= k < fx.len() ==> valid_pixel(#[trigger] fx[k], shape)
}

/// Shapes the warp can run on: at least five rows and one column, with the
/// pixel count addressable by a `u32` index.
pub open spec fn warp_shape(shape: Shape2) -> bool {
    &&& shape.0 >= 5
    &&& shape.1 >= 1
    &&& shape.size() <= u32::MAX
}

/// Builds the warp entry for a sample point whose integer part is `(ix, iy)`.
pub fn warp_pixel(shape: Shape2, ix: u32, iy: u32, weights: [u8; 4]) -> (r: WarpPixel)
    requires
        warp_shape(shape),
    ensures
        r.index == warp_index(shape, ix as int, iy as int),
        r.weights == weights,
        valid_pixel(r, shape),
{
    let rows = shape.rows();
    let cols = shape.cols();
    let y = if iy < 2 { 2 } else if iy > rows - 3 { rows - 3 } else { iy };
    let x = if ix > cols - 1 { cols - 1 } else { ix };
    proof {
        crate::shape::lemma_offset_in_bounds(rows as int, cols as int, y as int, x as int);
        crate::shape::lemma_offset_in_bounds((rows - 2) as int, cols as int, y as int, x as int);
        assert(2 * cols <= y * cols) by (nonlinear_arith)
            requires
                2 <= y,
        ;
        assert(cols * (y + 3) <= rows * cols) by (nonlinear_arith)
            requires
                y + 3 <= rows,
        ;
        assert(y * cols + x + cols + 1 <= cols * (y + 2)) by (nonlinear_arith)
            requires
                x + 1 <= cols,
        ;
        assert(cols * (y + 2) < rows * cols) by (nonlinear_arith)
            requires
                cols * (y + 3) <= rows * cols,
                cols >= 1,
        ;
        assert(y * cols + x < (rows - 2) * cols) by (nonlinear_arith)
            requires
                y + 3 <= rows,
                x < cols,
        ;
    }
    WarpPixel { weights, index: y * cols + x }
}

/// Assembles a warp map from per-pixel sample points: entry `k` of `samples`
/// holds the integer part `(ix, iy)` of the source position of destination
/// pixel `k` and its four weights.
pub fn warp_map_from_samples(shape: Shape2, samples: &[(u32, u32, [u8; 4])]) -> (r: WarpMap)
    requires
        warp_shape(shape),
        samples@.len() == shape.size(),
    ensures
        r.wf(),
        r.spec_shape() == shape,
        valid_map(r@, shape),
        forall|k: int|
            0 <= k < r@.len() ==> (#[trigger] r@[k]).index == warp_index(
                shape,
                samples@[k].0 as int,
                samples@[k].1 as int,
            ) && r@[k].weights == samples@[k].2,
{
    let n = samples.len();
    let mut buffer: Vec<WarpPixel> = Vec::with_capacity(n);
    let mut k: usize = 0;
    while k < n
        invariant
            warp_shape(shape),
            n == samples@.len(),
            k <= n,
            buffer@.len() == k,
            forall|x: int|
                0 <= x < k ==> valid_pixel(#[trigger] buffer@[x], shape) && buffer@[x].index == warp_index(
                    shape,
                    samples@[x].0 as int,
                    samples@[x].1 as int,
                ) && buffer@[x].weights == samples@[x].2,
        decreases n - k,
    {
        let (ix, iy, w) = samples[k];
        buffer.push(warp_pixel(shape, ix, iy, w));
        k = k + 1;
    }
    Image::from_vec(shape, buffer)
}

/// Channel `c` of a 2×2 weighted sum from `src` at offset `i`, shifted down
/// by eight bits and saturated at 255.
pub open spec fn mix(src: Seq<Rgba>, i: int, cols: int, w: [u8; 4], c: int) -> u8 {
    let s = src[i].ch(c) * w[0] + src[i + 1].ch(c) * w[1] + src[i + cols].ch(c) * w[2] + src[i + cols
        + 1].ch(c) * w[3];
    if s / 256 > 255 { 255u8 } else { (s / 256) as u8 }
}

/// The pixel that the remap writes for entry `px`.
pub open spec fn bilin(src: Seq<Rgba>, px: WarpPixel, cols: int) -> Rgba {
    Rgba(
        [
            mix(src, px.index as int, cols, px.weights, 0),
            mix(src, px.index as int, cols, px.weights, 1),
            mix(src, px.index as int, cols, px.weights, 2),
            255u8,
        ],
    )
}

/// `(a · b) >> 8`, saturated at 255.
pub fn dot_u8(a: [u8; 4], b: [u8; 4]) -> (r: u8)
    ensures
        r == (if (a[0] * b[0] + a[1] * b[1] + a[2] * b[2] + a[3] * b[3]) / 256 > 255 {
            255
        } else {
            (a[0] * b[0] + a[1] * b[1] + a[2] * b[2] + a[3] * b[3]) / 256
        }),
{
    assert(a[0] * b[0] <= 255 * 255 && a[1] * b[1] <= 255 * 255 && a[2] * b[2] <= 255 * 255 && a[3]
        * b[3] <= 255 * 255) by (nonlinear_arith);
    let s: u32 = (a[0] as u32) * (b[0] as u32) + (a[1] as u32) * (b[1] as u32) + (a[2] as u32) * (
    b[2] as u32) + (a[3] as u32) * (b[3] as u32);
    let q = s >> 8;
    assert(q == s / 256) by (bit_vector)
        requires
            q == s >> 8,
    ;
    if q > 255 { 255 } else { q as u8 }
}

/// Bilinear sample of the 2×2 neighbourhood at offset `i`; alpha is 255.
pub fn bilin_w(src: &[Rgba], i: usize, cols: usize, weights: [u8; 4]) -> (r: Rgba)
    requires
        i + cols + 1 < src@.len(),
    ensures
        r == Rgba(
            [
                mix(src@, i as int, cols as int, weights, 0),
                mix(src@, i as int, cols as int, weights, 1),
                mix(src@, i as int, cols as int, weights, 2),
                255u8,
            ],
        ),
{
    let p1 = src[i];
    let p2 = src[i + 1];
    let p3 = src[i + cols];
    let p4 = src[i + cols + 1];
    Rgba(
        [
            dot_u8([p1.0[0], p2.0[0], p3.0[0], p4.0[0]], weights),
            dot_u8([p1.0[1], p2.0[1], p3.0[1], p4.0[1]], weights),
            dot_u8([p1.0[2], p2.0[2], p3.0[2], p4.0[2]], weights),
            255,
        ],
    )
}

/// Remaps the rows `[roi.min, roi.max)` of `src` through `fx` into `dst`;
/// rows outside the band keep their contents.
pub fn process_map(roi: YRoi, fx: &[WarpPixel], src: &RgbaImage, dst: &mut RgbaImage)
    requires
        src.wf(),
        old(dst).wf(),
        old(dst).spec_shape() == src.spec_shape(),
        fx@.len() == src@.len(),
        valid_map(fx@, src.spec_shape()),
        roi.min <= roi.max <= src.spec_shape().0,
    ensures
        final(dst).wf(),
        final(dst).spec_shape() == old(dst).spec_shape(),
        forall|k: int|
            0 <= k < old(dst)@.len() ==> #[trigger] final(dst)@[k] == if roi.min * src.spec_shape().1 <= k
                < roi.max * src.spec_shape().1 {
                bilin(src@, fx@[k], src.spec_shape().1 as int)
            } else {
                old(dst)@[k]
            },
        all_opaque(old(dst)@) ==> all_opaque(final(dst)@),
{
    let shape = src.shape();
    let cols = shape.cols() as usize;
    let pixels = src.as_slice();
    proof {
        assert(roi.max * shape.1 <= shape.0 * shape.1) by (nonlinear_arith)
            requires
                roi.max <= shape.0,
        ;
        assert(roi.min * shape.1 <= roi.max * shape.1) by (nonlinear_arith)
            requires
                roi.min <= roi.max,
        ;
    }
    let idx0 = (roi.min as usize) * cols;
    let idx1 = (roi.max as usize) * cols;
    let mut idx = idx0;
    while idx < idx1
        invariant
            dst.wf(),
            dst.spec_shape() == shape,
            shape == src.spec_shape(),
            pixels@ == src@,
            cols == shape.1,
            fx@.len() == src@.len(),
            dst@.len() == src@.len(),
            valid_map(fx@, shape),
            idx0 == roi.min * shape.1,
            idx1 == roi.max * shape.1,
            idx1 <= dst@.len(),
            idx0 <= idx <= idx1,
            forall|k: int|
                0 <= k < dst@.len() ==> #[trigger] dst@[k] == if idx0 <= k < idx {
                    bilin(src@, fx@[k], cols as int)
                } else {
                    old(dst)@[k]
                },
        decreases idx1 - idx,
    {
        let px = fx[idx];
        assert(valid_pixel(fx@[idx as int], shape));
        let v = bilin_w(pixels, px.index as usize, cols, px.weights);
        dst.set_at(idx, v);
        idx = idx + 1;
    }
    proof {
        if all_opaque(old(dst)@) {
            assert forall|k: int| 0 <= k < dst@.len() implies (#[trigger] dst@[k]).ch(3) == 255 by {
                if idx0 <= k < idx1 {
                } else {
                    assert(old(dst)@[k].ch(3) == 255);
                }
            }
        }
    }
}

/// With a single weight `w` on the top-left source pixel, the remap scales
/// that pixel's channels by `w / 256`, rounding down.
pub proof fn lemma_single_weight(src: Seq<Rgba>, px: WarpPixel, cols: int, c: int)
    requires
        0 <= c < 3,
        px.weights[1] == 0 && px.weights[2] == 0 && px.weights[3] == 0,
        0 <= px.index,
        px.index + cols + 1 < src.len(),
        cols >= 0,
    ensures
        bilin(src, px, cols).ch(c) == src[px.index as int].ch(c) * px.weights[0] / 256,
{
    let a = src[px.index as int].ch(c) as int;
    let w = px.weights[0] as int;
    assert(a * w <= 255 * 255) by (nonlinear_arith)
        requires
            0 <= a <= 255,
            0 <= w <= 255,
    ;
    if c == 0 {} else if c == 1 {} else {}
}

/// One remap pass never brightens beyond the weight sum: if the four source
/// channels are at most `m`, the output channel is at most `m · Σw / 256`.
pub proof fn lemma_mix_contracts(src: Seq<Rgba>, i: int, cols: int, w: [u8; 4], c: int, m: int)
    requires
        0 <= i,
        cols >= 0,
        i + cols + 1 < src.len(),
        src[i].ch(c) <= m,
        src[i + 1].ch(c) <= m,
        src[i + cols].ch(c) <= m,
        src[i + cols + 1].ch(c) <= m,
    ensures
        mix(src, i, cols, w, c) * 256 <= m * (w[0] + w[1] + w[2] + w[3]),
{
    let a0 = src[i].ch(c) as int;
    let a1 = src[i + 1].ch(c) as int;
    let a2 = src[i + cols].ch(c) as int;
    let a3 = src[i + cols + 1].ch(c) as int;
    let w0 = w[0] as int;
    let w1 = w[1] as int;
    let w2 = w[2] as int;
    let w3 = w[3] as int;
    assert(a0 * w0 + a1 * w1 + a2 * w2 + a3 * w3 <= m * (w0 + w1 + w2 + w3)) by (nonlinear_arith)
        requires
            0 <= a0 <= m,
            0 <= a1 <= m,
            0 <= a2 <= m,
            0 <= a3 <= m,
            0 <= w0,
            0 <= w1,
            0 <= w2,
            0 <= w3,
    ;
}

} // verus!
