use vstd::prelude::*;
use crate::image::Image;
use crate::shape::Shape2;

verus! {

/// One pixel: red, green, blue and alpha channels.
#[derive(Debug, Clone, Copy)]
pub struct Rgba(pub [u8; 4]);

/// `a + b`, saturated at 255.
pub open spec fn sat_add(a: u8, b: u8) -> u8 {
    if a + b > 255 { 255u8 } else { (a + b) as u8 }
}

/// `p` with `d[c]` added to each color channel `c`, saturating; alpha kept.
pub open spec fn sat3(p: Rgba, d: [u8; 3]) -> Rgba {
    Rgba([sat_add(p.0[0], d[0]), sat_add(p.0[1], d[1]), sat_add(p.0[2], d[2]), p.0[3]])
}

/// `img` with `d` added (saturating) to the color channels of pixel `k`.
pub open spec fn add_px(img: Seq<Rgba>, k: int, d: [u8; 3]) -> Seq<Rgba> {
    img.update(k, sat3(img[k], d))
}

/// The larger of two channel values.
pub open spec fn max_u8(a: u8, b: u8) -> u8 {
    if a >= b { a } else { b }
}

impl Rgba {
    /// Opaque black.
    pub fn black() -> (r: Rgba)
        ensures
            r == Rgba([0, 0, 0, 255]),
    {
        Rgba([0, 0, 0, 255])
    }

    /// Opaque white.
    pub fn white() -> (r: Rgba)
        ensures
            r == Rgba([255, 255, 255, 255]),
    {
        Rgba([255, 255, 255, 255])
    }

    /// Channel `c` of the pixel.
    pub open spec fn ch(self, c: int) -> u8 {
        self.0[c]
    }

    /// Adds `delta[c]` to each color channel `c`, saturating at 255; alpha is kept.
    pub fn sat_add_u3(&mut self, delta: [u8; 3])
        ensures
            *final(self) == sat3(*old(self), delta),
            forall|c: int| 0 <= c < 3 ==> #[trigger] final(self).ch(c) == sat_add(old(self).ch(c), delta[c]),
            final(self).ch(3) == old(self).ch(3),
    {
        *self = Rgba(
            [
                self.0[0].saturating_add(delta[0]),
                self.0[1].saturating_add(delta[1]),
                self.0[2].saturating_add(delta[2]),
                self.0[3],
            ],
        );
        assert forall|c: int| 0 <= c < 3 implies #[trigger] self.ch(c) == sat_add(old(self).ch(c), delta[c]) by {
            if c == 0 {} else if c == 1 {} else {}
        }
    }
}

/// `p` with each color channel scaled by `milli / 1000`, rounding down.
pub open spec fn dim(p: Rgba, milli: u32) -> Rgba {
    Rgba(
        [
            (p.0[0] * milli / 1000) as u8,
            (p.0[1] * milli / 1000) as u8,
            (p.0[2] * milli / 1000) as u8,
            p.0[3],
        ],
    )
}

/// `c` moved 40% of the way to 255, rounding toward 255.
pub open spec fn toward_white(c: u8) -> u8 {
    (255 - (255 - c) * 6 / 10) as u8
}

impl Rgba {
    /// Scales each color channel by `milli / 1000`, rounding down; alpha is kept.
    pub fn dimmed(&self, milli: u32) -> (r: Rgba)
        requires
            milli <= 1000,
        ensures
            r == dim(*self, milli),
    {
        assert(self.0[0] * milli <= 255 * 1000 && self.0[1] * milli <= 255 * 1000 && self.0[2] * milli
            <= 255 * 1000) by (nonlinear_arith)
            requires
                milli <= 1000,
        ;
        assert(self.0[0] * milli / 1000 <= 255 && self.0[1] * milli / 1000 <= 255 && self.0[2] * milli
            / 1000 <= 255) by (nonlinear_arith)
            requires
                milli <= 1000,
        ;
        Rgba(
            [
                ((self.0[0] as u32) * milli / 1000) as u8,
                ((self.0[1] as u32) * milli / 1000) as u8,
                ((self.0[2] as u32) * milli / 1000) as u8,
                self.0[3],
            ],
        )
    }

    /// Drags each color channel 40% of the way toward white; alpha becomes 255.
    pub fn faded_toward_white(&self) -> (r: Rgba)
        ensures
            r == Rgba([toward_white(self.0[0]), toward_white(self.0[1]), toward_white(self.0[2]), 255]),
    {
        Rgba(
            [
                (255 - (255 - self.0[0] as u16) * 6 / 10) as u8,
                (255 - (255 - self.0[1] as u16) * 6 / 10) as u8,
                (255 - (255 - self.0[2] as u16) * 6 / 10) as u8,
                255,
            ],
        )
    }

    /// Adds 16 to channel `c` unless it is already 223 or more.
    pub fn bump(&mut self, c: usize)
        requires
            c < 3,
        ensures
            final(self).0[c as int] == if old(self).0[c as int] < 223 {
                (old(self).0[c as int] + 16) as u8
            } else {
                old(self).0[c as int]
            },
            forall|k: int| 0 <= k < 4 && k != c ==> #[trigger] final(self).0[k] == old(self).0[k],
    {
        if self.0[c] < 223 {
            self.0[c] = self.0[c] + 16;
        }
    }
}

/// Raises each color channel of `col` to at least `s`; alpha is kept.
pub fn saturate_rgb(col: &mut Rgba, s: u8)
    ensures
        forall|c: int| 0 <= c < 3 ==> #[trigger] final(col).ch(c) == max_u8(old(col).ch(c), s),
        final(col).ch(3) == old(col).ch(3),
{
    col.0[0] = if col.0[0] >= s { col.0[0] } else { s };
    col.0[1] = if col.0[1] >= s { col.0[1] } else { s };
    col.0[2] = if col.0[2] >= s { col.0[2] } else { s };
    assert forall|c: int| 0 <= c < 3 implies #[trigger] col.ch(c) == max_u8(old(col).ch(c), s) by {
        if c == 0 {} else if c == 1 {} else {}
    }
}

/// An image of pixels.
pub type RgbaImage = Image<Rgba>;

/// Every pixel of the image has alpha 255.
pub open spec fn all_opaque(img: Seq<Rgba>) -> bool {
    forall|k: int| 0 <= k < img.len() ==> (#[trigger] img[k]).ch(3) == 255
}

/// The bytes of an image, four per pixel, in row-major order.
pub open spec fn image_bytes(img: Seq<Rgba>) -> Seq<u8> {
    Seq::new(4 * img.len(), |k: int| img[k / 4].ch(k % 4))
}

impl Image<Rgba> {
    /// An all-black, opaque image.
    pub fn black(shape: Shape2) -> (r: Self)
        requires
            shape.fits(),
        ensures
            r.wf(),
            r.spec_shape() == shape,
            r@ == Seq::new(shape.size(), |k: int| Rgba([0, 0, 0, 255])),
            all_opaque(r@),
    {
        Self::from_value(shape, Rgba::black())
    }

    /// The pixels as bytes `r, g, b, a` in row-major order.
    pub fn as_bytes(&self) -> (r: Vec<u8>)
        requires
            4 * self@.len() <= usize::MAX,
        ensures
            r@ == image_bytes(self@),
    {
        let px = self.as_slice();
        let n = px.len();
        let mut out: Vec<u8> = Vec::with_capacity(4 * n);
        let mut k: usize = 0;
        while k < n
            invariant
                px@ == self@,
                n == px@.len(),
                4 * n <= usize::MAX,
                k <= n,
                out@.len() == 4 * k,
                forall|x: int| 0 <= x < 4 * k ==> #[trigger] out@[x] == px@[x / 4].ch(x % 4),
            decreases n - k,
        {
            let p = px[k];
            out.push(p.0[0]);
            out.push(p.0[1]);
            out.push(p.0[2]);
            out.push(p.0[3]);
            k = k + 1;
            assert forall|x: int| 0 <= x < 4 * k implies #[trigger] out@[x] == px@[x / 4].ch(x % 4) by {
                if x >= 4 * (k - 1) {
                    assert(x / 4 == k - 1);
                }
            }
        }
        assert(out@ =~= image_bytes(self@));
        out
    }
}

} // verus!
