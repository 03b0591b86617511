use vstd::prelude::*;
use crate::fx::{brighter_or_equal, brightens, Effect, Vec2i32};
use crate::minstd::{lcg_iter, lcg_step, Minstd};
use crate::rgba::{add_px, all_opaque, Rgba, RgbaImage};
use crate::shape::Shape2;

verus! {

/// One shade bob: where its walk starts this frame and which color channels
/// it lights.
#[derive(Debug, Clone, Copy)]
pub struct Bob {
    pub start: Vec2i32,
    pub lit: [bool; 3],
}

/// Walkers that each take four random steps (±2 per axis) and brighten a
/// five-point stencil at every step: +5 in the centre, +3 on its four
/// neighbours, on the lit channels.
#[derive(Debug, Clone)]
pub struct ShadeBobs {
    pub bobs: Vec<Bob>,
}

/// Steps taken by each bob per frame.
pub const BOB_STEPS: usize = 4;

/// The stamp values of a bob: `v` on its lit channels, 0 elsewhere.
pub open spec fn lit_delta(lit: [bool; 3], v: u8) -> [u8; 3] {
    [if lit[0] { v } else { 0 }, if lit[1] { v } else { 0 }, if lit[2] { v } else { 0 }]
}

/// The five-point stamp: `d0` at `idx`, `d1` right, left, below and above.
pub open spec fn stamp5(img: Seq<Rgba>, idx: int, cols: int, d0: [u8; 3], d1: [u8; 3]) -> Seq<Rgba> {
    add_px(add_px(add_px(add_px(add_px(img, idx, d0), idx + 1, d1), idx - 1, d1), idx + cols, d1), idx - cols, d1)
}

/// Image, position and generator state after `k` steps of a bob that starts
/// at `(a0, b0)` from state `u0`: each step draws a column then a row offset
/// in `[-2, 2]` and stamps if the stencil fits in the image.
pub open spec fn bob_walk(
    img: Seq<Rgba>,
    shape: Shape2,
    lit: [bool; 3],
    a0: int,
    b0: int,
    u0: nat,
    k: nat,
) -> (Seq<Rgba>, int, int, nat)
    decreases k,
{
    if k == 0 {
        (img, a0, b0, u0)
    } else {
        let prev = bob_walk(img, shape, lit, a0, b0, u0, (k - 1) as nat);
        let u1 = lcg_step(prev.3);
        let u2 = lcg_step(u1);
        let a = prev.1 + (u1 % 5) as int - 2;
        let b = prev.2 + (u2 % 5) as int - 2;
        let stamped = if 1 <= b && b + 1 < shape.0 && 1 <= a && a + 1 < shape.1 {
            stamp5(prev.0, b * shape.1 + a, shape.1 as int, lit_delta(lit, 5), lit_delta(lit, 3))
        } else {
            prev.0
        };
        (stamped, a, b, u2)
    }
}

/// Image and generator state after the first `n` bobs have walked.
pub open spec fn bobs_fold(img: Seq<Rgba>, shape: Shape2, bobs: Seq<Bob>, n: nat, u: nat) -> (Seq<Rgba>, nat)
    decreases n,
{
    if n == 0 {
        (img, u)
    } else {
        let prev = bobs_fold(img, shape, bobs, (n - 1) as nat, u);
        let bob = bobs[n - 1];
        let w = bob_walk(prev.0, shape, bob.lit, bob.start.x as int, bob.start.y as int, prev.1, BOB_STEPS as nat);
        (w.0, w.3)
    }
}

/// Adds `delta` to the color channels of pixel `k`, saturating.
fn add_at(img: &mut RgbaImage, k: usize, delta: [u8; 3])
    requires
        old(img).wf(),
        k < old(img)@.len(),
    ensures
        final(img).wf(),
        final(img).spec_shape() == old(img).spec_shape(),
        brightens(old(img)@, final(img)@),
        final(img)@ == add_px(old(img)@, k as int, delta),
{
    let mut px = img.as_slice()[k];
    px.sat_add_u3(delta);
    img.set_at(k, px);
    assert(brighter_or_equal(old(img)@[k as int], img@[k as int]));
}

impl ShadeBobs {
    /// Walks and stamps every bob, drawing two numbers per step from `rand`;
    /// steps whose stencil would leave the image are not stamped. Pixels only
    /// get brighter.
    pub fn draw(&self, img: &mut RgbaImage, rand: &mut Minstd)
        requires
            old(img).wf(),
        ensures
            final(img).wf(),
            final(img).spec_shape() == old(img).spec_shape(),
            brightens(old(img)@, final(img)@),
            final(rand).state() == lcg_iter(old(rand).state(), (2 * BOB_STEPS * self.bobs@.len()) as nat),
            (final(img)@, final(rand).state()) == bobs_fold(
                old(img)@,
                old(img).spec_shape(),
                self.bobs@,
                self.bobs@.len(),
                old(rand).state(),
            ),
    {
        let rows = img.rows() as i64;
        let cols = img.cols() as i64;
        let mut x: usize = 0;
        while x < self.bobs.len()
            invariant
                img.wf(),
                img.spec_shape() == old(img).spec_shape(),
                rows == img.spec_shape().0,
                cols == img.spec_shape().1,
                brightens(old(img)@, img@),
                x <= self.bobs@.len(),
                rand.state() == lcg_iter(old(rand).state(), (2 * BOB_STEPS * x) as nat),
                (img@, rand.state()) == bobs_fold(old(img)@, old(img).spec_shape(), self.bobs@, x as nat, old(rand).state()),
            decreases self.bobs.len() - x,
        {
            let bob = self.bobs[x];
            let d0: [u8; 3] = [
                if bob.lit[0] { 5 } else { 0 },
                if bob.lit[1] { 5 } else { 0 },
                if bob.lit[2] { 5 } else { 0 },
            ];
            let d1: [u8; 3] = [
                if bob.lit[0] { 3 } else { 0 },
                if bob.lit[1] { 3 } else { 0 },
                if bob.lit[2] { 3 } else { 0 },
            ];
            let mut a: i64 = bob.start.x as i64;
            let mut b: i64 = bob.start.y as i64;
            let ghost img0 = img@;
            let ghost u0 = rand.state();
            assert(d0 == lit_delta(bob.lit, 5) && d1 == lit_delta(bob.lit, 3));
            let mut step: usize = 0;
            while step < BOB_STEPS
                invariant
                    img.wf(),
                    img.spec_shape() == old(img).spec_shape(),
                    rows == img.spec_shape().0,
                    cols == img.spec_shape().1,
                    brightens(old(img)@, img@),
                    i32::MIN - 8 <= a <= i32::MAX + 8 - 2 * (BOB_STEPS - step),
                    i32::MIN - 8 <= b <= i32::MAX + 8 - 2 * (BOB_STEPS - step),
                    i32::MIN - 2 * step <= a,
                    i32::MIN - 2 * step <= b,
                    step <= BOB_STEPS,
                    rand.state() == lcg_iter(old(rand).state(), (2 * BOB_STEPS * x + 2 * step) as nat),
                    (img@, a as int, b as int, rand.state()) == bob_walk(
                        img0,
                        img.spec_shape(),
                        bob.lit,
                        bob.start.x as int,
                        bob.start.y as int,
                        u0,
                        step as nat,
                    ),
                    d0 == lit_delta(bob.lit, 5),
                    d1 == lit_delta(bob.lit, 3),
                decreases BOB_STEPS - step,
            {
                let ghost n = (2 * BOB_STEPS * x + 2 * step) as nat;
                a = a + rand.next_idx(5) as i64 - 2;
                b = b + rand.next_idx(5) as i64 - 2;
                assert(lcg_iter(old(rand).state(), n + 2) == lcg_step(
                    lcg_step(lcg_iter(old(rand).state(), n)),
                )) by {
                    assert(lcg_iter(old(rand).state(), n + 1) == lcg_step(lcg_iter(old(rand).state(), n)));
                }
                if 1 <= b && b + 1 < rows && 1 <= a && a + 1 < cols {
                    let idx = img.offset((b as u32, a as u32));
                    let ucols = cols as usize;
                    proof {
                        crate::shape::lemma_offset_in_bounds(rows as int, cols as int, b as int, a as int);
                        crate::shape::lemma_offset_in_bounds(rows as int, cols as int, b + 1, a as int);
                        crate::shape::lemma_offset_in_bounds(rows as int, cols as int, b - 1, a as int);
                        assert((b + 1) * cols == b * cols + cols) by (nonlinear_arith);
                        assert((b - 1) * cols == b * cols - cols) by (nonlinear_arith);
                    }
                    let ghost s0 = img@;
                    add_at(img, idx, d0);
                    add_at(img, idx + 1, d1);
                    add_at(img, idx - 1, d1);
                    add_at(img, idx + ucols, d1);
                    add_at(img, idx - ucols, d1);
                    proof {
                        assert forall|k: int| 0 <= k < old(img)@.len() implies brighter_or_equal(old(img)@[k], #[trigger] img@[k]) by {
                            assert(brighter_or_equal(old(img)@[k], s0[k]));
                        }
                    }
                }
                step = step + 1;
            }
            assert(2 * BOB_STEPS * x + 2 * BOB_STEPS == 2 * BOB_STEPS * (x + 1)) by (nonlinear_arith);
            x = x + 1;
        }
    }
}

impl Effect for ShadeBobs {
    fn render(&self, img: &mut RgbaImage, rand: &mut Minstd) {
        self.draw(img, rand);
        proof {
            if all_opaque(old(img)@) {
                assert forall|k: int| 0 <= k < img@.len() implies (#[trigger] img@[k]).ch(3) == 255 by {
                    assert(brighter_or_equal(old(img)@[k], img@[k]));
                }
            }
        }
    }
}

} // verus!
