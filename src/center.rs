use vstd::prelude::*;
use crate::fx::{Effect, Vec2i32};
use crate::minstd::Minstd;
use crate::prefs::YRoi;
use crate::rgba::{all_opaque, dim, RgbaImage};
use crate::shape::Shape2;

verus! {

/// Dims the image around the warp centre: a five-pixel cross, or a
/// three-pixel-wide vertical line through the warp band.
#[derive(Debug, Clone, Copy)]
pub struct DiminishCenter {
    pub y_roi: YRoi,
    pub center: Vec2i32,
    /// A cross when set, else a vertical line.
    pub center_mode: bool,
    /// Brightness kept, in thousandths.
    pub center_dwindle_milli: u32,
}

/// Distinct in-bounds coordinates have distinct offsets.
pub proof fn lemma_offset_injective(shape: Shape2, i1: int, j1: int, i2: int, j2: int)
    requires
        0 <= i1,
        0 <= i2,
        0 <= j1 < shape.1,
        0 <= j2 < shape.1,
        shape.offset_of(i1, j1) == shape.offset_of(i2, j2),
    ensures
        i1 == i2 && j1 == j2,
{
    let c = shape.1 as int;
    assert(i1 == i2) by (nonlinear_arith)
        requires
            i1 * c + j1 == i2 * c + j2,
            0 <= j1 < c,
            0 <= j2 < c,
            0 <= i1,
            0 <= i2,
    ;
}

/// Dims the pixel at `(i, j)` if it lies in the image.
fn dim_at(img: &mut RgbaImage, i: i64, j: i64, milli: u32)
    requires
        old(img).wf(),
        milli <= 1000,
    ensures
        final(img).wf(),
        final(img).spec_shape() == old(img).spec_shape(),
        forall|a: int, b: int|
            0 <= a < old(img).spec_shape().0 && 0 <= b < old(img).spec_shape().1 ==> #[trigger] final(img).at(a, b)
                == if a == i && b == j {
                dim(old(img).at(a, b), milli)
            } else {
                old(img).at(a, b)
            },
{
    let ghost shape = img.spec_shape();
    if 0 <= i && i < img.rows() as i64 && 0 <= j && j < img.cols() as i64 {
        let p = *img.get((i as u32, j as u32));
        proof {
            crate::shape::lemma_offset_in_bounds(shape.0 as int, shape.1 as int, i as int, j as int);
        }
        img.set((i as u32, j as u32), p.dimmed(milli));
        proof {
            assert forall|a: int, b: int|
                0 <= a < shape.0 && 0 <= b < shape.1 implies #[trigger] img.at(a, b) == if a == i && b == j {
                dim(old(img).at(a, b), milli)
            } else {
                old(img).at(a, b)
            } by {
                crate::shape::lemma_offset_in_bounds(shape.0 as int, shape.1 as int, a, b);
                if !(a == i && b == j) && shape.offset_of(a, b) == shape.offset_of(i as int, j as int) {
                    lemma_offset_injective(shape, a, b, i as int, j as int);
                }
            }
        }
    }
}

impl DiminishCenter {
    /// Pixel `(i, j)` belongs to the dimmed pattern.
    pub open spec fn in_pattern(&self, i: int, j: int) -> bool {
        let ci = self.center.y as int;
        let cj = self.center.x as int;
        if self.center_mode {
            (i == ci && cj - 1 <= j <= cj + 1) || (j == cj && (i == ci - 1 || i == ci + 1))
        } else {
            self.y_roi.min <= i < self.y_roi.max && cj - 1 <= j <= cj + 1
        }
    }

    /// Dims every pixel of the pattern that lies in the image, once.
    pub fn draw(&self, img: &mut RgbaImage)
        requires
            old(img).wf(),
            self.center_dwindle_milli <= 1000,
        ensures
            final(img).wf(),
            final(img).spec_shape() == old(img).spec_shape(),
            forall|i: int, j: int|
                0 <= i < old(img).spec_shape().0 && 0 <= j < old(img).spec_shape().1 ==> #[trigger] final(img).at(i, j)
                    == if self.in_pattern(i, j) {
                    dim(old(img).at(i, j), self.center_dwindle_milli)
                } else {
                    old(img).at(i, j)
                },
    {
        let ci = self.center.y as i64;
        let cj = self.center.x as i64;
        let m = self.center_dwindle_milli;
        if self.center_mode {
            dim_at(img, ci, cj, m);
            dim_at(img, ci, cj - 1, m);
            dim_at(img, ci, cj + 1, m);
            dim_at(img, ci - 1, cj, m);
            dim_at(img, ci + 1, cj, m);
        } else {
            let mut i: i64 = self.y_roi.min as i64;
            while i < self.y_roi.max as i64
                invariant
                    img.wf(),
                    img.spec_shape() == old(img).spec_shape(),
                    self.y_roi.min <= i,
                    ci == self.center.y,
                    cj == self.center.x,
                    m == self.center_dwindle_milli,
                    m <= 1000,
                    !self.center_mode,
                    forall|a: int, b: int|
                        0 <= a < old(img).spec_shape().0 && 0 <= b < old(img).spec_shape().1 ==> #[trigger] img.at(a, b)
                            == if self.in_pattern(a, b) && a < i {
                            dim(old(img).at(a, b), m)
                        } else {
                            old(img).at(a, b)
                        },
                decreases self.y_roi.max - i,
            {
                dim_at(img, i, cj - 1, m);
                dim_at(img, i, cj, m);
                dim_at(img, i, cj + 1, m);
                i = i + 1;
            }
        }
    }
}

impl Effect for DiminishCenter {
    fn render(&self, img: &mut RgbaImage, _rand: &mut Minstd) {
        if self.center_dwindle_milli <= 1000 {
            self.draw(img);
            proof {
                let shape = img.spec_shape();
                if all_opaque(old(img)@) {
                    assert forall|k: int| 0 <= k < img@.len() implies (#[trigger] img@[k]).ch(3) == 255 by {
                        let c = shape.1 as int;
                        assert(c > 0) by (nonlinear_arith)
                            requires
                                0 <= k < shape.0 * c,
                                shape.0 >= 0,
                                c >= 0,
                        ;
                        vstd::arithmetic::div_mod::lemma_fundamental_div_mod(k, c);
                        let a = k / c;
                        let b = k % c;
                        assert(0 <= a < shape.0) by (nonlinear_arith)
                            requires
                                k == c * a + b,
                                0 <= b < c,
                                0 <= k < shape.0 * c,
                        ;
                        assert(k == a * c + b) by (nonlinear_arith)
                            requires
                                k == c * a + b,
                        ;
                        assert(k == shape.offset_of(a, b));
                        assert(img.at(a, b).ch(3) == old(img).at(a, b).ch(3));
                    }
                }
            }
        }
    }
}

} // verus!
