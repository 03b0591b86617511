use vstd::prelude::*;
use crate::minstd::{lcg_step, Minstd};

verus! {

/// Width of the low-resolution layout, which uses smaller dots.
pub const SMALL_FXW: u32 = 320;

/// Size of a ring of beat dots: the ring's radius and the range of a dot's radius.
#[derive(Debug, Clone, Copy, PartialEq, Eq, Structural)]
pub struct DotRingSize {
    /// Distance of the dots from the centre, before any high-resolution scaling.
    pub radius: u32,
    /// Dot radius before the volume term is added.
    pub r_base: u32,
    /// Largest dot radius.
    pub r_cap: u32,
}

/// Draws the ring size for an image `fxw` wide: at width 320 the radius is
/// 22 to 27 and dots are at most 7 wide, otherwise 34 to 41 and 10.
pub fn dot_ring_size(fxw: u32, rand: &mut Minstd) -> (r: DotRingSize)
    ensures
        final(rand).state() == lcg_step(old(rand).state()),
        fxw == SMALL_FXW ==> r == (DotRingSize {
            radius: (22 + lcg_step(old(rand).state()) % 6) as u32,
            r_base: 2,
            r_cap: 7,
        }),
        fxw != SMALL_FXW ==> r == (DotRingSize {
            radius: (34 + lcg_step(old(rand).state()) % 8) as u32,
            r_base: 3,
            r_cap: 10,
        }),
{
    if fxw == SMALL_FXW {
        DotRingSize { radius: 22 + rand.next_idx(6), r_base: 2, r_cap: 7 }
    } else {
        DotRingSize { radius: 34 + rand.next_idx(8), r_base: 3, r_cap: 10 }
    }
}

} // verus!
