use vstd::prelude::*;
use crate::rgba::{all_opaque, Rgba, RgbaImage};
use crate::shape::Shape2;

verus! {

/// Number of chasers kept in the ring.
pub const NUM_CHASERS: usize = 20;

/// A 2×2 dot that moves one column to the right per frame.
#[derive(Debug, Clone, Copy)]
pub struct Chaser {
    /// `(row, col)` of the dot's top-left pixel.
    pub coo: (u32, u32),
    pub color: Rgba,
}

impl Chaser {
    pub fn new(coo: (u32, u32), color: Rgba) -> (r: Chaser)
        ensures
            r.coo == coo,
            r.color == color,
    {
        Chaser { coo, color }
    }
}

/// `v + 1`, saturated at `u32::MAX`.
pub open spec fn inc_sat(v: u32) -> u32 {
    if v == u32::MAX { v } else { (v + 1) as u32 }
}

/// The chaser one frame later.
pub open spec fn advanced(c: Chaser) -> Chaser {
    Chaser { coo: (c.coo.0, inc_sat(c.coo.1)), color: c.color }
}

/// The chaser that fills a fresh ring.
pub open spec fn idle_chaser() -> Chaser {
    Chaser { coo: (0, 0), color: Rgba([0, 0, 0, 255]) }
}

/// `img` with pixel `(y, x)` set to `c` if it lies in the image.
pub open spec fn paint_px(img: Seq<Rgba>, shape: Shape2, y: int, x: int, c: Rgba) -> Seq<Rgba> {
    if 0 <= y < shape.0 && 0 <= x < shape.1 {
        img.update(shape.offset_of(y, x), c)
    } else {
        img
    }
}

/// `img` with the in-image part of the 2×2 block at `(y, x)` set to `c`.
pub open spec fn paint_block_spec(img: Seq<Rgba>, shape: Shape2, y: int, x: int, c: Rgba) -> Seq<Rgba> {
    paint_px(
        paint_px(paint_px(paint_px(img, shape, y, x, c), shape, y, x + 1, c), shape, y + 1, x, c),
        shape,
        y + 1,
        x + 1,
        c,
    )
}

/// `img` after the blocks of the first `n` chasers are painted in index
/// order: each pixel ends with the colour of the last block covering it.
pub open spec fn paint_chasers(img: Seq<Rgba>, shape: Shape2, items: Seq<Chaser>, n: nat) -> Seq<Rgba>
    decreases n,
{
    if n == 0 {
        img
    } else {
        let c = items[n - 1];
        paint_block_spec(paint_chasers(img, shape, items, (n - 1) as nat), shape, c.coo.0 as int, c.coo.1 as int, c.color)
    }
}

/// Ring of the most recent chasers; a new one replaces the oldest.
#[derive(Debug, Clone)]
pub struct Chasers {
    items: Vec<Chaser>,
    idx: usize,
}

impl Chasers {
    /// The chasers, in ring order.
    pub closed spec fn spec_items(&self) -> Seq<Chaser> {
        self.items@
    }

    /// Slot of the most recently pushed chaser.
    pub closed spec fn spec_idx(&self) -> int {
        self.idx as int
    }

    pub open spec fn wf(&self) -> bool {
        &&& self.spec_items().len() == NUM_CHASERS
        &&& 0 <= self.spec_idx() < NUM_CHASERS
    }

    /// Replaces the oldest chaser by `chaser`.
    pub fn push(&mut self, chaser: Chaser)
        requires
            old(self).wf(),
        ensures
            final(self).wf(),
            final(self).spec_idx() == (old(self).spec_idx() + 1) % (NUM_CHASERS as int),
            final(self).spec_items() == old(self).spec_items().update(final(self).spec_idx(), chaser),
    {
        self.idx = (self.idx + 1) % self.items.len();
        self.items.set(self.idx, chaser);
    }

    /// Draws every chaser as a 2×2 block (the part inside the image) and moves
    /// each one column to the right.
    pub fn draw(&mut self, img: &mut RgbaImage)
        requires
            old(self).wf(),
            old(img).wf(),
        ensures
            final(self).wf(),
            final(self).spec_idx() == old(self).spec_idx(),
            forall|k: int|
                0 <= k < NUM_CHASERS ==> #[trigger] final(self).spec_items()[k] == advanced(
                    old(self).spec_items()[k],
                ),
            final(img).wf(),
            final(img).spec_shape() == old(img).spec_shape(),
            final(img)@ == paint_chasers(old(img)@, old(img).spec_shape(), old(self).spec_items(), NUM_CHASERS as nat),
            forall|p: int|
                0 <= p < old(img)@.len() ==> #[trigger] final(img)@[p] == old(img)@[p] || (exists|k: int|
                    0 <= k < NUM_CHASERS && final(img)@[p] == old(self).spec_items()[k].color),
            (all_opaque(old(img)@) && forall|k: int|
                0 <= k < NUM_CHASERS ==> (#[trigger] old(self).spec_items()[k]).color.ch(3) == 255)
                ==> all_opaque(final(img)@),
    {
        let rows = img.rows();
        let cols = img.cols();
        let mut k: usize = 0;
        while k < self.items.len()
            invariant
                self.wf(),
                self.spec_idx() == old(self).spec_idx(),
                k <= NUM_CHASERS,
                forall|x: int|
                    0 <= x < k ==> #[trigger] self.spec_items()[x] == advanced(old(self).spec_items()[x]),
                forall|x: int| k <= x < NUM_CHASERS ==> #[trigger] self.spec_items()[x] == old(self).spec_items()[x],
                img.wf(),
                old(img).wf(),
                img.spec_shape() == old(img).spec_shape(),
                img@ == paint_chasers(old(img)@, old(img).spec_shape(), old(self).spec_items(), k as nat),
                rows == img.spec_shape().0,
                cols == img.spec_shape().1,
                forall|p: int|
                    0 <= p < old(img)@.len() ==> #[trigger] img@[p] == old(img)@[p] || (exists|x: int|
                        0 <= x < NUM_CHASERS && img@[p] == old(self).spec_items()[x].color),
            decreases NUM_CHASERS - k,
        {
            let ch = self.items[k];
            let (y, x) = ch.coo;
            let ghost before = img@;
            paint_block(img, y, x, ch.color);
            proof {
                assert(ch.color == old(self).spec_items()[k as int].color);
                assert forall|p: int| 0 <= p < old(img)@.len() implies #[trigger] img@[p] == old(img)@[p] || (exists|x: int|
                        0 <= x < NUM_CHASERS && img@[p] == old(self).spec_items()[x].color) by {
                    assert(before.len() == old(img)@.len());
                    assert(img@[p] == before[p] || img@[p] == ch.color);
                    if img@[p] != before[p] {
                        assert(0 <= k < NUM_CHASERS && img@[p] == old(self).spec_items()[k as int].color);
                    } else {
                        assert(before[p] == old(img)@[p] || (exists|x: int|
                            0 <= x < NUM_CHASERS && before[p] == old(self).spec_items()[x].color));
                    }
                }
            }
            let moved = Chaser { coo: (y, x.saturating_add(1)), color: ch.color };
            self.items.set(k, moved);
            k = k + 1;
        }
    }
}

/// Sets pixel `(y, x)` to `color` if it lies in the image.
fn paint(img: &mut RgbaImage, y: u32, x: u32, color: Rgba)
    requires
        old(img).wf(),
    ensures
        final(img).wf(),
        final(img).spec_shape() == old(img).spec_shape(),
        final(img)@ == paint_px(old(img)@, old(img).spec_shape(), y as int, x as int, color),
        forall|p: int| 0 <= p < old(img)@.len() ==> #[trigger] final(img)@[p] == old(img)@[p] || final(img)@[p] == color,
{
    if y < img.rows() && x < img.cols() {
        proof {
            crate::shape::lemma_offset_in_bounds(
                img.spec_shape().0 as int,
                img.spec_shape().1 as int,
                y as int,
                x as int,
            );
        }
        img.set((y, x), color);
    }
}

/// Sets the part inside the image of the 2×2 block at `(y, x)` to `color`.
fn paint_block(img: &mut RgbaImage, y: u32, x: u32, color: Rgba)
    requires
        old(img).wf(),
    ensures
        final(img).wf(),
        final(img).spec_shape() == old(img).spec_shape(),
        final(img)@ == paint_block_spec(old(img)@, old(img).spec_shape(), y as int, x as int, color),
        forall|p: int| 0 <= p < old(img)@.len() ==> #[trigger] final(img)@[p] == old(img)@[p] || final(img)@[p] == color,
{
    let ghost s0 = img@;
    paint(img, y, x, color);
    let ghost s1 = img@;
    if x < u32::MAX {
        paint(img, y, x + 1, color);
    }
    let ghost s2 = img@;
    if y < u32::MAX {
        paint(img, y + 1, x, color);
    }
    let ghost s3 = img@;
    if y < u32::MAX && x < u32::MAX {
        paint(img, y + 1, x + 1, color);
    }
    assert forall|p: int| 0 <= p < s0.len() implies #[trigger] img@[p] == s0[p] || img@[p] == color by {
        assert(s1[p] == s0[p] || s1[p] == color);
        assert(s2[p] == s1[p] || s2[p] == color);
        assert(s3[p] == s2[p] || s3[p] == color);
    }
}

impl Default for Chasers {
    /// Twenty black chasers at the origin.
    fn default() -> (r: Self)
        ensures
            r.wf(),
            r.spec_idx() == 0,
            forall|k: int| 0 <= k < NUM_CHASERS ==> #[trigger] r.spec_items()[k] == idle_chaser(),
    {
        let mut items: Vec<Chaser> = Vec::with_capacity(NUM_CHASERS);
        let mut k: usize = 0;
        while k < NUM_CHASERS
            invariant
                k <= NUM_CHASERS,
                items@.len() == k,
                forall|x: int| 0 <= x < k ==> #[trigger] items@[x] == idle_chaser(),
            decreases NUM_CHASERS - k,
        {
            items.push(Chaser { coo: (0, 0), color: Rgba::black() });
            k = k + 1;
        }
        Chasers { items, idx: 0 }
    }
}

} // verus!
