use vstd::prelude::*;
use crate::minstd::{lcg_step, Minstd};
use crate::prefs::YRoi;
use crate::rgba::{add_px, all_opaque, max_u8, saturate_rgb, Rgba, RgbaImage};
use crate::shape::Shape2;

verus! {

/// A drawing effect composited onto the framebuffer.
pub trait Effect {
    /// Paints onto `img`; the shape is kept and an opaque image stays opaque.
    fn render(&self, img: &mut RgbaImage, rand: &mut Minstd)
        requires
            old(img).wf(),
        ensures
            final(img).wf(),
            final(img).spec_shape() == old(img).spec_shape(),
            all_opaque(old(img)@) ==> all_opaque(final(img)@),
    ;
}

/// A 2-D vector.
#[derive(Debug, Clone, Copy)]
pub struct Vec2K<K> {
    pub x: K,
    pub y: K,
}

/// A vector of `i32` coordinates.
pub type Vec2i32 = Vec2K<i32>;

impl<K> Vec2K<K> {
    pub fn new(x: K, y: K) -> (r: Self)
        ensures
            r.x == x,
            r.y == y,
    {
        Vec2K { x, y }
    }
}

/// Each color channel of `b` is `max(a, s)`; alpha is unchanged.
pub open spec fn saturated(a: Rgba, b: Rgba, s: u8) -> bool {
    &&& b.ch(0) == max_u8(a.ch(0), s)
    &&& b.ch(1) == max_u8(a.ch(1), s)
    &&& b.ch(2) == max_u8(a.ch(2), s)
    &&& b.ch(3) == a.ch(3)
}

/// Channel-wise `a <= b` on the color channels, alpha equal.
pub open spec fn brighter_or_equal(a: Rgba, b: Rgba) -> bool {
    &&& a.ch(0) <= b.ch(0)
    &&& a.ch(1) <= b.ch(1)
    &&& a.ch(2) <= b.ch(2)
    &&& a.ch(3) == b.ch(3)
}

/// Each pixel of `b` equals that of `a` or is `a`'s saturated at `s`.
pub open spec fn keeps_or_sats(a: Seq<Rgba>, b: Seq<Rgba>, s: u8) -> bool {
    &&& a.len() == b.len()
    &&& forall|k: int| 0 <= k < a.len() ==> #[trigger] b[k] == a[k] || saturated(a[k], b[k], s)
}

/// Saturating twice at the same level is saturating once.
pub proof fn lemma_keeps_or_sats_trans(a: Seq<Rgba>, b: Seq<Rgba>, c: Seq<Rgba>, s: u8)
    requires
        keeps_or_sats(a, b, s),
        keeps_or_sats(b, c, s),
    ensures
        keeps_or_sats(a, c, s),
{
    assert forall|k: int| 0 <= k < a.len() implies #[trigger] c[k] == a[k] || saturated(a[k], c[k], s) by {
        assert(b[k] == a[k] || saturated(a[k], b[k], s));
        assert(c[k] == b[k] || saturated(b[k], c[k], s));
    }
}

/// Grid of dots every `x_inc` columns and `y_inc` rows inside the band,
/// raised to at least `val` on each color channel.
#[derive(Debug, Clone, Copy)]
pub struct Grid {
    pub y_roi: YRoi,
    pub x_inc: usize,
    pub y_inc: usize,
    pub fat_pixels: bool,
    pub val: u8,
}

impl Grid {
    /// `(i, j)` is a grid point.
    pub open spec fn is_node(&self, i: int, j: int) -> bool {
        &&& self.y_roi.min + 2 <= i < self.y_roi.max - 2
        &&& (i - (self.y_roi.min + 2)) % (self.y_inc as int) == 0
        &&& j % (self.x_inc as int) == 0
    }

    /// The pixels right of, below, and diagonally below-right of `(i, j)`
    /// that lie in the image are saturated from `a` to `b`.
    pub open spec fn fat_saturated(&self, a: RgbaImage, b: RgbaImage, i: int, j: int) -> bool {
        let sh = a.spec_shape();
        &&& (j + 1 < sh.1 ==> saturated(a.at(i, j + 1), b.at(i, j + 1), self.val))
        &&& (i + 1 < sh.0 ==> saturated(a.at(i + 1, j), b.at(i + 1, j), self.val))
        &&& (i + 1 < sh.0 && j + 1 < sh.1 ==> saturated(a.at(i + 1, j + 1), b.at(i + 1, j + 1), self.val))
    }

    /// Saturates the pixel at `(y, x)` if it lies in the image.
    fn mark(&self, img: &mut RgbaImage, y: u32, x: u32)
        requires
            old(img).wf(),
        ensures
            final(img).wf(),
            final(img).spec_shape() == old(img).spec_shape(),
            keeps_or_sats(old(img)@, final(img)@, self.val),
            y < old(img).spec_shape().0 && x < old(img).spec_shape().1 ==> saturated(
                old(img).at(y as int, x as int),
                final(img).at(y as int, x as int),
                self.val,
            ),
            forall|a: int, b: int|
                0 <= a < old(img).spec_shape().0 && 0 <= b < old(img).spec_shape().1 && !(a == y && b == x)
                    ==> #[trigger] final(img).at(a, b) == old(img).at(a, b),
    {
        if y < img.rows() && x < img.cols() {
            let ghost before = *img;
            proof {
                crate::shape::lemma_offset_in_bounds(
                    before.spec_shape().0 as int,
                    before.spec_shape().1 as int,
                    y as int,
                    x as int,
                );
            }
            let mut px = *img.get((y, x));
            saturate_rgb(&mut px, self.val);
            proof {
                assert(saturated(before.at(y as int, x as int), px, self.val)) by {
                    assert(px.ch(0) == max_u8(before.at(y as int, x as int).ch(0), self.val));
                    assert(px.ch(1) == max_u8(before.at(y as int, x as int).ch(1), self.val));
                    assert(px.ch(2) == max_u8(before.at(y as int, x as int).ch(2), self.val));
                }
            }
            img.set((y, x), px);
            proof {
                let off = before.spec_shape().offset_of(y as int, x as int);
                assert(saturated(before.at(y as int, x as int), img.at(y as int, x as int), self.val));
                assert forall|k: int| 0 <= k < before@.len() implies #[trigger] img@[k] == before@[k] || saturated(
                    before@[k],
                    img@[k],
                    self.val,
                ) by {
                    if k != off {
                        assert(img@[k] == before@[k]);
                    }
                }
                assert forall|a: int, b: int|
                    0 <= a < before.spec_shape().0 && 0 <= b < before.spec_shape().1 && !(a == y && b == x)
                        implies #[trigger] img.at(a, b) == before.at(a, b) by {
                    crate::shape::lemma_offset_in_bounds(
                        before.spec_shape().0 as int,
                        before.spec_shape().1 as int,
                        a,
                        b,
                    );
                    if before.spec_shape().offset_of(a, b) == off {
                        crate::center::lemma_offset_injective(before.spec_shape(), a, b, y as int, x as int);
                    }
                }
            }
        }
    }

    /// Raises the grid nodes (and, with fat pixels, the three pixels right
    /// and below each) to at least `val`.
    pub fn draw(&self, img: &mut RgbaImage)
        requires
            old(img).wf(),
            self.x_inc > 0,
            self.y_inc > 0,
        ensures
            final(img).wf(),
            final(img).spec_shape() == old(img).spec_shape(),
            keeps_or_sats(old(img)@, final(img)@, self.val),
            forall|i: int, j: int|
                0 <= i < old(img).spec_shape().0 && 0 <= j < old(img).spec_shape().1 && self.is_node(i, j)
                    ==> saturated(old(img).at(i, j), #[trigger] final(img).at(i, j), self.val),
            !self.fat_pixels ==> forall|i: int, j: int|
                0 <= i < old(img).spec_shape().0 && 0 <= j < old(img).spec_shape().1 && !self.is_node(i, j)
                    ==> #[trigger] final(img).at(i, j) == old(img).at(i, j),
            self.fat_pixels ==> forall|i: int, j: int|
                0 <= i < old(img).spec_shape().0 && 0 <= j < old(img).spec_shape().1 && self.is_node(i, j)
                    ==> #[trigger] self.fat_saturated(*old(img), *final(img), i, j),
    {
        let rows = img.rows();
        let cols = img.cols();
        let base: u128 = self.y_roi.min as u128 + 2;
        let hi: u128 = if self.y_roi.max >= 2 { self.y_roi.max as u128 - 2 } else { 0 };
        let ystep = self.y_inc as u128;
        let xstep = self.x_inc as u128;
        let ghost orig = *img;
        let mut y: u128 = base;
        proof {
            vstd::arithmetic::div_mod::lemma_small_mod(0, ystep as nat);
        }
        while y < hi
            invariant
                img.wf(),
                img.spec_shape() == orig.spec_shape(),
                orig == *old(img),
                orig.wf(),
                rows == orig.spec_shape().0,
                cols == orig.spec_shape().1,
                base == self.y_roi.min + 2,
                hi == (if self.y_roi.max >= 2 { self.y_roi.max - 2 } else { 0 }),
                ystep == self.y_inc,
                xstep == self.x_inc,
                ystep > 0,
                xstep > 0,
                self.y_inc > 0,
                self.x_inc > 0,
                base <= y,
                (y - base) as int % (ystep as int) == 0,
                keeps_or_sats(orig@, img@, self.val),
                forall|i: int, j: int|
                    0 <= i < rows && 0 <= j < cols && self.is_node(i, j) && i < y ==> saturated(
                        orig.at(i, j),
                        #[trigger] img.at(i, j),
                        self.val,
                    ),
                !self.fat_pixels ==> forall|i: int, j: int|
                    0 <= i < rows && 0 <= j < cols && !self.is_node(i, j) ==> #[trigger] img.at(i, j) == orig.at(i, j),
                self.fat_pixels ==> forall|i: int, j: int|
                    0 <= i < rows && 0 <= j < cols && self.is_node(i, j) && i < y ==> #[trigger] self.fat_saturated(
                        orig,
                        *img,
                        i,
                        j,
                    ),
            decreases hi as int + ystep as int - y as int,
        {
            let mut x: u128 = 0;
            proof {
                vstd::arithmetic::div_mod::lemma_small_mod(0, xstep as nat);
            }
            while x < cols as u128
                invariant
                    img.wf(),
                    img.spec_shape() == orig.spec_shape(),
                    orig.wf(),
                    rows == orig.spec_shape().0,
                    cols == orig.spec_shape().1,
                    base == self.y_roi.min + 2,
                    hi == (if self.y_roi.max >= 2 { self.y_roi.max - 2 } else { 0 }),
                    ystep == self.y_inc,
                    xstep == self.x_inc,
                    ystep > 0,
                    xstep > 0,
                    self.y_inc > 0,
                    self.x_inc > 0,
                    base <= y < hi,
                    (y - base) as int % (ystep as int) == 0,
                    (x as int) % (xstep as int) == 0,
                    keeps_or_sats(orig@, img@, self.val),
                    forall|i: int, j: int|
                        0 <= i < rows && 0 <= j < cols && self.is_node(i, j) && (i < y || (i == y && j
                            < x)) ==> saturated(orig.at(i, j), #[trigger] img.at(i, j), self.val),
                    !self.fat_pixels ==> forall|i: int, j: int|
                        0 <= i < rows && 0 <= j < cols && !self.is_node(i, j) ==> #[trigger] img.at(i, j) == orig.at(i, j),
                    self.fat_pixels ==> forall|i: int, j: int|
                        0 <= i < rows && 0 <= j < cols && self.is_node(i, j) && (i < y || (i == y && j < x))
                            ==> #[trigger] self.fat_saturated(orig, *img, i, j),
                decreases cols as int + xstep as int - x as int,
            {
                let yy = y as u32;
                let xx = x as u32;
                let ghost start = *img;
                self.mark(img, yy, xx);
                let ghost first = *img;
                if self.fat_pixels {
                    self.mark(img, yy, xx.saturating_add(1));
                    let ghost b3 = *img;
                    self.mark(img, yy.saturating_add(1), xx);
                    let ghost b4 = *img;
                    self.mark(img, yy.saturating_add(1), xx.saturating_add(1));
                    proof {
                        lemma_keeps_or_sats_trans(first@, b3@, b4@, self.val);
                        let yi = y as int;
                        let xi = x as int;
                        if yi < rows {
                            if xi + 1 < cols {
                                crate::shape::lemma_offset_in_bounds(rows as int, cols as int, yi, xi + 1);
                                let k = orig.spec_shape().offset_of(yi, xi + 1);
                                lemma_sat_keep(start@[k], start@[k], first@[k], self.val);
                                lemma_sat_chain(start@[k], first@[k], b3@[k], self.val);
                                lemma_sat_then_keep(start@[k], b3@[k], b4@[k], self.val);
                                lemma_sat_then_keep(start@[k], b4@[k], img@[k], self.val);
                            }
                            if yi + 1 < rows {
                                crate::shape::lemma_offset_in_bounds(rows as int, cols as int, yi + 1, xi);
                                let k = orig.spec_shape().offset_of(yi + 1, xi);
                                lemma_sat_keep(start@[k], start@[k], first@[k], self.val);
                                lemma_sat_keep(start@[k], first@[k], b3@[k], self.val);
                                lemma_sat_chain(start@[k], b3@[k], b4@[k], self.val);
                                lemma_sat_then_keep(start@[k], b4@[k], img@[k], self.val);
                            }
                            if yi + 1 < rows && xi + 1 < cols {
                                crate::shape::lemma_offset_in_bounds(rows as int, cols as int, yi + 1, xi + 1);
                                let k = orig.spec_shape().offset_of(yi + 1, xi + 1);
                                lemma_sat_keep(start@[k], start@[k], first@[k], self.val);
                                lemma_sat_keep(start@[k], first@[k], b3@[k], self.val);
                                lemma_sat_keep(start@[k], b3@[k], b4@[k], self.val);
                                lemma_sat_chain(start@[k], b4@[k], img@[k], self.val);
                            }
                            assert(self.fat_saturated(start, *img, yi, xi));
                        }
                    }
                }
                proof {
                    lemma_keeps_or_sats_trans(start@, first@, img@, self.val);
                    lemma_keeps_or_sats_trans(orig@, start@, img@, self.val);
                    assert forall|i: int, j: int|
                        0 <= i < rows && 0 <= j < cols && self.is_node(i, j) && (i < y || (i == y && j < x + xstep))
                            implies saturated(orig.at(i, j), #[trigger] img.at(i, j), self.val) by {
                        crate::shape::lemma_offset_in_bounds(rows as int, cols as int, i, j);
                        let k = orig.spec_shape().offset_of(i, j);
                        if i == y && j >= x {
                            lemma_next_multiple(x as int, j, xstep as int);
                            assert(saturated(start@[k], first@[k], self.val));
                            assert(first@[k] == img@[k] || saturated(first@[k], img@[k], self.val));
                            assert(start@[k] == orig@[k] || saturated(orig@[k], start@[k], self.val));
                        } else {
                            assert(saturated(orig.at(i, j), start.at(i, j), self.val));
                            assert(saturated(orig@[k], start@[k], self.val));
                            assert(start@[k] == img@[k] || saturated(start@[k], img@[k], self.val));
                        }
                    }
                    if self.fat_pixels {
                        assert forall|i: int, j: int|
                            0 <= i < rows && 0 <= j < cols && self.is_node(i, j) && (i < y || (i == y && j < x
                                + xstep)) implies #[trigger] self.fat_saturated(orig, *img, i, j) by {
                            if i == y && j >= x {
                                lemma_next_multiple(x as int, j, xstep as int);
                                lemma_fat_chain(self, orig, start, *img, i, j, true);
                            } else {
                                assert(self.fat_saturated(orig, start, i, j));
                                lemma_fat_chain(self, orig, start, *img, i, j, false);
                            }
                        }
                    }
                }
                proof {
                    vstd::arithmetic::div_mod::lemma_mod_add_multiples_vanish(x as int, xstep as int);
                }
                x = x + xstep;
            }
            proof {
                assert forall|i: int, j: int|
                    0 <= i < rows && 0 <= j < cols && self.is_node(i, j) && i < y + ystep
                        implies saturated(orig.at(i, j), #[trigger] img.at(i, j), self.val) by {
                    if i >= y {
                        lemma_next_multiple(y - base, i - base, ystep as int);
                    }
                }
                if self.fat_pixels {
                    assert forall|i: int, j: int|
                        0 <= i < rows && 0 <= j < cols && self.is_node(i, j) && i < y + ystep
                            implies #[trigger] self.fat_saturated(orig, *img, i, j) by {
                        if i >= y {
                            lemma_next_multiple(y - base, i - base, ystep as int);
                        }
                    }
                }
            }
            proof {
                vstd::arithmetic::div_mod::lemma_mod_add_multiples_vanish((y - base) as int, ystep as int);
                assert((y + ystep - base) as int == ystep + (y - base) as int);
            }
            y = y + ystep;
        }
    }
}

/// Saturating after keeping or saturating is saturating.
proof fn lemma_sat_chain(o: Rgba, a: Rgba, b: Rgba, s: u8)
    requires
        a == o || saturated(o, a, s),
        saturated(a, b, s),
    ensures
        saturated(o, b, s),
{
}

/// Keeping or saturating after saturating is still saturating.
proof fn lemma_sat_then_keep(o: Rgba, a: Rgba, b: Rgba, s: u8)
    requires
        saturated(o, a, s),
        b == a || saturated(a, b, s),
    ensures
        saturated(o, b, s),
{
}

/// Keeping or saturating, twice, is keeping or saturating.
proof fn lemma_sat_keep(o: Rgba, a: Rgba, b: Rgba, s: u8)
    requires
        a == o || saturated(o, a, s),
        b == a || saturated(a, b, s),
    ensures
        b == o || saturated(o, b, s),
{
}

/// Carries the fat-pixel facts of node `(i, j)` from `start` to `cur`: when
/// `fresh`, from `start`'s own values, else from `orig`'s.
proof fn lemma_fat_chain(g: &Grid, orig: RgbaImage, start: RgbaImage, cur: RgbaImage, i: int, j: int, fresh: bool)
    requires
        orig.wf(),
        start.spec_shape() == orig.spec_shape(),
        cur.spec_shape() == orig.spec_shape(),
        0 <= i < orig.spec_shape().0,
        0 <= j < orig.spec_shape().1,
        keeps_or_sats(orig@, start@, g.val),
        fresh ==> g.fat_saturated(start, cur, i, j),
        !fresh ==> g.fat_saturated(orig, start, i, j) && keeps_or_sats(start@, cur@, g.val),
    ensures
        g.fat_saturated(orig, cur, i, j),
{
    let sh = orig.spec_shape();
    if j + 1 < sh.1 {
        crate::shape::lemma_offset_in_bounds(sh.0 as int, sh.1 as int, i, j + 1);
        let k = sh.offset_of(i, j + 1);
        assert(start@[k] == orig@[k] || saturated(orig@[k], start@[k], g.val));
        if !fresh {
            assert(cur@[k] == start@[k] || saturated(start@[k], cur@[k], g.val));
        }
    }
    if i + 1 < sh.0 {
        crate::shape::lemma_offset_in_bounds(sh.0 as int, sh.1 as int, i + 1, j);
        let k = sh.offset_of(i + 1, j);
        assert(start@[k] == orig@[k] || saturated(orig@[k], start@[k], g.val));
        if !fresh {
            assert(cur@[k] == start@[k] || saturated(start@[k], cur@[k], g.val));
        }
    }
    if i + 1 < sh.0 && j + 1 < sh.1 {
        crate::shape::lemma_offset_in_bounds(sh.0 as int, sh.1 as int, i + 1, j + 1);
        let k = sh.offset_of(i + 1, j + 1);
        assert(start@[k] == orig@[k] || saturated(orig@[k], start@[k], g.val));
        if !fresh {
            assert(cur@[k] == start@[k] || saturated(start@[k], cur@[k], g.val));
        }
    }
}

/// Two multiples of `inc` less than `inc` apart are equal.
proof fn lemma_next_multiple(a: int, b: int, inc: int)
    requires
        inc > 0,
        a % inc == 0,
        b % inc == 0,
        a <= b < a + inc,
    ensures
        b == a,
{
    vstd::arithmetic::div_mod::lemma_fundamental_div_mod(a, inc);
    vstd::arithmetic::div_mod::lemma_fundamental_div_mod(b, inc);
    let qa = a / inc;
    let qb = b / inc;
    assert(qa == qb) by (nonlinear_arith)
        requires
            inc > 0,
            a == inc * qa,
            b == inc * qb,
            a <= b < a + inc,
    ;
}

impl Effect for Grid {
    fn render(&self, img: &mut RgbaImage, _rand: &mut Minstd) {
        if self.x_inc > 0 && self.y_inc > 0 {
            self.draw(img);
            proof {
                if all_opaque(old(img)@) {
                    assert forall|k: int| 0 <= k < img@.len() implies (#[trigger] img@[k]).ch(3) == 255 by {
                        assert(img@[k] == old(img)@[k] || saturated(old(img)@[k], img@[k], self.val));
                    }
                }
            }
        }
    }
}

/// `c` is the integer square root of `n`.
pub open spec fn is_isqrt(n: nat, c: nat) -> bool {
    c * c <= n < (c + 1) * (c + 1)
}

/// The integer square root of `n`.
pub open spec fn isqrt_spec(n: nat) -> nat {
    choose|c: nat| #[trigger] is_isqrt(n, c)
}

/// At most one `c` has `c * c <= n < (c + 1) * (c + 1)`.
pub proof fn lemma_isqrt_unique(n: nat, c: nat, d: nat)
    requires
        c * c <= n < (c + 1) * (c + 1),
        d * d <= n < (d + 1) * (d + 1),
    ensures
        c == d,
{
    if c < d {
        assert((c + 1) * (c + 1) <= d * d) by (nonlinear_arith)
            requires
                c + 1 <= d,
        ;
    } else if d < c {
        assert((d + 1) * (d + 1) <= c * c) by (nonlinear_arith)
            requires
                d + 1 <= c,
        ;
    }
}

/// Largest `c` with `c * c <= n`.
pub fn isqrt(n: u32) -> (c: u32)
    ensures
        c * c <= n < (c + 1) * (c + 1),
        c == isqrt_spec(n as nat),
{
    let mut c: u64 = 0;
    while (c + 1) * (c + 1) <= n as u64
        invariant
            c * c <= n,
            c <= 0xffff,
            (c + 1) * (c + 1) <= 0x1_0000_0000,
        decreases 0x10000 - c,
    {
        assert(c + 1 <= 0xffff) by (nonlinear_arith)
            requires
                (c + 1) * (c + 1) <= n,
                n <= 0xffff_ffff,
        ;
        assert((c + 2) * (c + 2) <= 0x1_0000_0000) by (nonlinear_arith)
            requires
                c + 1 <= 0xffff,
        ;
        c = c + 1;
    }
    proof {
        let w = c as nat;
        assert(is_isqrt(n as nat, w));
        let k = isqrt_spec(n as nat);
        lemma_isqrt_unique(n as nat, w, k);
    }
    c as u32
}

/// Rejection-sampling attempts of `sample_disk` before it falls back to the centre.
pub const DISK_TRIES: u32 = 64;

/// Rejection sampling of a point strictly inside the disk of radius `r`, from
/// generator state `u` with `tries` attempts left: each attempt draws `x`
/// then `y` in `[-r, r)`. The point and the state after it; the centre, with
/// no further draw, when every attempt misses.
pub open spec fn disk_search(u: nat, r: nat, tries: nat) -> (int, int, nat)
    decreases tries,
{
    if tries == 0 {
        (0, 0, u)
    } else {
        let u1 = lcg_step(u);
        let u2 = lcg_step(u1);
        let x = (u1 % (2 * r)) as int - r;
        let y = (u2 % (2 * r)) as int - r;
        if x * x + y * y < r * r {
            (x, y, u2)
        } else {
            disk_search(u2, r, (tries - 1) as nat)
        }
    }
}

/// A random integer point strictly inside the disk of radius `r` around the
/// origin, with the integer part of its distance from the origin.
pub fn sample_disk(r: u32, rand: &mut Minstd) -> (res: (Vec2i32, u32))
    requires
        1 <= r <= 46340,
    ensures
        res.0.x == disk_search(old(rand).state(), r as nat, DISK_TRIES as nat).0,
        res.0.y == disk_search(old(rand).state(), r as nat, DISK_TRIES as nat).1,
        final(rand).state() == disk_search(old(rand).state(), r as nat, DISK_TRIES as nat).2,
        res.1 == isqrt_spec((res.0.x * res.0.x + res.0.y * res.0.y) as nat),
        -(r as int) <= res.0.x < r,
        -(r as int) <= res.0.y < r,
        res.0.x * res.0.x + res.0.y * res.0.y < r * r,
        res.1 * res.1 <= res.0.x * res.0.x + res.0.y * res.0.y < (res.1 + 1) * (res.1 + 1),
{
    assert(r * r <= 2_147_395_600) by (nonlinear_arith)
        requires
            1 <= r <= 46340,
    ;
    let r2: i64 = (r as i64) * (r as i64);
    let mut tries: u32 = 0;
    while tries < DISK_TRIES
        invariant
            1 <= r <= 46340,
            r2 == r * r,
            r * r <= 2_147_395_600,
            tries <= DISK_TRIES,
            disk_search(rand.state(), r as nat, (DISK_TRIES - tries) as nat) == disk_search(
                old(rand).state(),
                r as nat,
                DISK_TRIES as nat,
            ),
        decreases DISK_TRIES - tries,
    {
        let x = rand.next_idx(2 * r) as i32 - r as i32;
        let y = rand.next_idx(2 * r) as i32 - r as i32;
        assert(0 <= (x as int) * (x as int) <= 2_147_395_600 && 0 <= (y as int) * (y as int) <= 2_147_395_600)
            by (nonlinear_arith)
            requires
                -(r as int) <= x < r,
                -(r as int) <= y < r,
                r <= 46340,
        ;
        let d: i64 = (x as i64) * (x as i64) + (y as i64) * (y as i64);
        if d < r2 {
            let c = isqrt(d as u32);
            return (Vec2K::new(x, y), c);
        }
        tries = tries + 1;
    }
    let origin = Vec2K::new(0i32, 0i32);
    let zero: u32 = 0;
    assert(origin.x * origin.x + origin.y * origin.y == 0) by (nonlinear_arith)
        requires
            origin.x == 0,
            origin.y == 0,
    ;
    assert(zero * zero == 0 && (zero + 1) * (zero + 1) == 1) by (nonlinear_arith)
        requires
            zero == 0,
    ;
    assert(0 < r * r) by (nonlinear_arith)
        requires
            1 <= r,
    ;
    proof {
        assert(is_isqrt(0, 0));
        lemma_isqrt_unique(0, 0, isqrt_spec(0));
    }
    (origin, zero)
}

/// Coronal glow: `count` particles scattered in a disk of radius 35 around
/// `center`, each brightening a 3×3 stencil.
#[derive(Debug, Clone, Copy)]
pub struct SolarParticles {
    pub center: Vec2i32,
    pub count: usize,
}

/// Radius of the disk the particles are scattered in.
pub const SOLAR_RADIUS: u32 = 35;

/// Stamp values of one color channel of a particle at distance `c` from the
/// centre, for draw `q` in `[0, 30)`: `(i0, i1, i2)` with `i0 = 4 + q·(35 − c)/25`,
/// `i1 = i0 − 3`, `i2 = i1 / 2`, or zeros when the channel value `col` is at
/// least `207 − i0`.
pub open spec fn gate_delta(col: u8, q: nat, c: nat) -> (u8, u8, u8) {
    let i0 = 4 + q * (35 - c) / 25;
    if col < 207 - i0 {
        (i0 as u8, (i0 - 3) as u8, ((i0 - 3) / 2) as u8)
    } else {
        (0u8, 0u8, 0u8)
    }
}

/// The 3×3 stencil: `d0` at the centre, `d1` on its four neighbours and `d2`
/// on its four diagonals.
pub open spec fn stamp9(img: Seq<Rgba>, idx: int, cols: int, d0: [u8; 3], d1: [u8; 3], d2: [u8; 3]) -> Seq<Rgba> {
    let s1 = add_px(add_px(add_px(add_px(add_px(img, idx, d0), idx + 1, d1), idx - 1, d1), idx + cols, d1), idx - cols, d1);
    add_px(add_px(add_px(add_px(s1, idx + cols + 1, d2), idx + cols - 1, d2), idx - cols + 1, d2), idx - cols - 1, d2)
}

/// Image and generator state after one particle around `center` from state `u`.
pub open spec fn solar_particle(img: Seq<Rgba>, shape: Shape2, center: Vec2i32, u: nat) -> (Seq<Rgba>, nat) {
    let ds = disk_search(u, SOLAR_RADIUS as nat, DISK_TRIES as nat);
    let c = isqrt_spec((ds.0 * ds.0 + ds.1 * ds.1) as nat);
    let px = center.x + ds.0;
    let py = center.y + ds.1;
    if 1 <= py && py + 1 < shape.0 && 1 <= px && px + 1 < shape.1 {
        let idx = py * shape.1 + px;
        let col = img[idx];
        let u1 = lcg_step(ds.2);
        let u2 = lcg_step(u1);
        let u3 = lcg_step(u2);
        let e0 = gate_delta(col.0[0], u1 % 30, c);
        let e1 = gate_delta(col.0[1], u2 % 30, c);
        let e2 = gate_delta(col.0[2], u3 % 30, c);
        (stamp9(img, idx, shape.1 as int, [e0.0, e1.0, e2.0], [e0.1, e1.1, e2.1], [e0.2, e1.2, e2.2]), u3)
    } else {
        (img, ds.2)
    }
}

/// Image and generator state after the first `n` particles.
pub open spec fn solar_fold(img: Seq<Rgba>, shape: Shape2, center: Vec2i32, n: nat, u: nat) -> (Seq<Rgba>, nat)
    decreases n,
{
    if n == 0 {
        (img, u)
    } else {
        let prev = solar_fold(img, shape, center, (n - 1) as nat, u);
        solar_particle(prev.0, shape, center, prev.1)
    }
}

/// Draws the stamp values of one channel.
fn gate(col: u8, r: u32, rand: &mut Minstd) -> (res: (u8, u8, u8))
    requires
        r < 35,
    ensures
        final(rand).state() == lcg_step(old(rand).state()),
        res == gate_delta(col, lcg_step(old(rand).state()) % 30, r as nat),
{
    let q = rand.next_idx(30);
    assert(q * (35 - r) <= 29 * 35) by (nonlinear_arith)
        requires
            q < 30,
            r < 35,
    ;
    let i0 = 4 + (q * (35 - r)) / 25;
    if (col as u32) < 207 - i0 {
        (i0 as u8, (i0 - 3) as u8, ((i0 - 3) / 2) as u8)
    } else {
        (0, 0, 0)
    }
}

/// Adds `delta` to the color channels of pixel `k`, saturating.
fn brighten(img: &mut RgbaImage, k: usize, delta: [u8; 3])
    requires
        old(img).wf(),
        k < old(img)@.len(),
    ensures
        final(img).wf(),
        final(img).spec_shape() == old(img).spec_shape(),
        brightens(old(img)@, final(img)@),
        final(img)@ == add_px(old(img)@, k as int, delta),
{
    let mut px = img.as_slice()[k];
    px.sat_add_u3(delta);
    img.set_at(k, px);
    proof {
        assert(brighter_or_equal(old(img)@[k as int], img@[k as int]));
    }
}

/// Every pixel of `b` is channel-wise at least that of `a`, alpha unchanged.
pub open spec fn brightens(a: Seq<Rgba>, b: Seq<Rgba>) -> bool {
    &&& a.len() == b.len()
    &&& forall|k: int| 0 <= k < a.len() ==> brighter_or_equal(a[k], #[trigger] b[k])
}

impl SolarParticles {
    /// Paints the particles; pixels only get brighter. Each particle draws a
    /// point in the disk, and, if its 3×3 stencil fits in the image, one
    /// number per color channel.
    pub fn draw(&self, img: &mut RgbaImage, rand: &mut Minstd)
        requires
            old(img).wf(),
        ensures
            final(img).wf(),
            final(img).spec_shape() == old(img).spec_shape(),
            brightens(old(img)@, final(img)@),
            (final(img)@, final(rand).state()) == solar_fold(
                old(img)@,
                old(img).spec_shape(),
                self.center,
                self.count as nat,
                old(rand).state(),
            ),
    {
        let rows = img.rows() as i64;
        let cols = img.cols() as i64;
        let mut n: usize = 0;
        while n < self.count
            invariant
                img.wf(),
                img.spec_shape() == old(img).spec_shape(),
                rows == img.spec_shape().0,
                cols == img.spec_shape().1,
                brightens(old(img)@, img@),
                n <= self.count,
                (img@, rand.state()) == solar_fold(
                    old(img)@,
                    old(img).spec_shape(),
                    self.center,
                    n as nat,
                    old(rand).state(),
                ),
            decreases self.count - n,
        {
            let (delta, r) = sample_disk(SOLAR_RADIUS, rand);
            assert(r < 35) by (nonlinear_arith)
                requires
                    r * r < 1225,
            ;
            let px = self.center.x as i64 + delta.x as i64;
            let py = self.center.y as i64 + delta.y as i64;
            if 1 <= py && py + 1 < rows && 1 <= px && px + 1 < cols {
                let idx = img.offset((py as u32, px as u32));
                let ucols = cols as usize;
                proof {
                    crate::shape::lemma_offset_in_bounds(rows as int, cols as int, py as int, px as int);
                    crate::shape::lemma_offset_in_bounds(rows as int, cols as int, py + 1, px as int);
                    crate::shape::lemma_offset_in_bounds(rows as int, cols as int, py - 1, px as int);
                    assert((py + 1) * cols == py * cols + cols) by (nonlinear_arith);
                    assert((py - 1) * cols == py * cols - cols) by (nonlinear_arith);
                }
                let col = img.as_slice()[idx];
                let g0 = gate(col.0[0], r, rand);
                let g1 = gate(col.0[1], r, rand);
                let g2 = gate(col.0[2], r, rand);
                let d0: [u8; 3] = [g0.0, g1.0, g2.0];
                let d1: [u8; 3] = [g0.1, g1.1, g2.1];
                let d2: [u8; 3] = [g0.2, g1.2, g2.2];
                let ghost s0 = img@;
                brighten(img, idx, d0);
                brighten(img, idx + 1, d1);
                brighten(img, idx - 1, d1);
                brighten(img, idx + ucols, d1);
                brighten(img, idx - ucols, d1);
                brighten(img, idx + ucols + 1, d2);
                brighten(img, idx + ucols - 1, d2);
                brighten(img, idx - ucols + 1, d2);
                brighten(img, idx - ucols - 1, d2);
                proof {
                    assert forall|k: int| 0 <= k < old(img)@.len() implies brighter_or_equal(old(img)@[k], #[trigger] img@[k]) by {
                        assert(brighter_or_equal(old(img)@[k], s0[k]));
                    }
                }
            }
            n = n + 1;
        }
    }
}

impl Effect for SolarParticles {
    fn render(&self, img: &mut RgbaImage, rand: &mut Minstd) {
        self.draw(img, rand);
        proof {
            if all_opaque(old(img)@) {
                assert forall|k: int| 0 <= k < img@.len() implies (#[trigger] img@[k]).ch(3) == 255 by {
                    assert(brighter_or_equal(old(img)@[k], img@[k]));
                }
            }
        }
    }
}

} // verus!
