use vstd::prelude::*;
use vstd::arithmetic::power::pow;
use crate::effects::{count_true, lemma_count_mono, lemma_count_update, EffectFreq, Effects, BAR, GRID};
use crate::rgba::Rgba;
use crate::shape::Shape2;
use crate::warp::{
    bilin, lemma_mix_contracts, lemma_single_weight, valid_map, valid_pixel, warp_index, warp_shape, WarpPixel,
};

verus! {

/// A sampled effect set has between `min` and `max` members whenever that is
/// possible: at least `min` effects can be picked, no more than `max` are
/// pinned, and `Grid` cannot hide a needed `Bar`.
pub proof fn lemma_effect_count_in_range(freq: EffectFreq, min: nat, max: nat, r: Effects)
    requires
        freq.sample_ok(min, max, r),
        min <= max,
        min <= count_true(freq.live_flags()),
        count_true(freq.pinned_flags()) <= max,
        !(freq.live(BAR as int) && freq.live(GRID as int)) || min <= 1,
    ensures
        min <= r.spec_count() <= max,
{
    if r.spec_count() > max {
        lemma_count_mono(r.0@, freq.pinned_flags());
    }
    if r.0@[GRID as int] && freq.live(BAR as int) {
        lemma_count_update(r.0@, GRID as int, false);
    }
}

/// Every warp entry reads a 2×2 neighbourhood inside the image whose top row
/// lies in `[2, rows - 3]`.
pub proof fn lemma_warp_rows(px: WarpPixel, shape: Shape2)
    requires
        warp_shape(shape),
        valid_pixel(px, shape),
    ensures
        px.index + shape.1 + 1 < shape.size(),
        2 <= (px.index as int) / (shape.1 as int) <= shape.0 - 3,
{
    let c = shape.1 as int;
    let i = px.index as int;
    vstd::arithmetic::div_mod::lemma_fundamental_div_mod(i, c);
    let q = i / c;
    let m = i % c;
    assert(2 <= q <= shape.0 - 3) by (nonlinear_arith)
        requires
            c >= 1,
            i == c * q + m,
            0 <= m < c,
            2 * c <= i < (shape.0 - 2) * c,
    ;
}

/// Baking the identity at zero damping puts each pixel of the warp band onto
/// itself, so a remap with weights `[w, 0, 0, 0]` scales each channel by
/// `w / 256`, rounding down.
pub proof fn lemma_identity_remap(src: Seq<Rgba>, shape: Shape2, i: int, j: int, w: u8, c: int)
    requires
        warp_shape(shape),
        src.len() == shape.size(),
        2 <= i <= shape.0 - 3,
        0 <= j < shape.1,
        0 <= c < 3,
    ensures
        warp_index(shape, j, i) == shape.offset_of(i, j),
        bilin(
            src,
            WarpPixel { weights: [w, 0, 0, 0], index: shape.offset_of(i, j) as u32 },
            shape.1 as int,
        ).ch(c) == src[shape.offset_of(i, j)].ch(c) * w / 256,
{
    let px = WarpPixel { weights: [w, 0, 0, 0], index: shape.offset_of(i, j) as u32 };
    crate::shape::lemma_offset_in_bounds(shape.0 - 2, shape.1 as int, i, j);
    assert((shape.0 - 2) * shape.1 + shape.1 + 1 <= shape.size() + 1) by (nonlinear_arith)
        requires
            shape.0 >= 5,
            shape.1 >= 1,
    ;
    assert(0 <= i * shape.1) by (nonlinear_arith)
        requires
            0 <= i,
    ;
    assert((shape.0 - 2) * shape.1 + shape.1 == (shape.0 - 1) * shape.1) by (nonlinear_arith);
    assert((shape.0 - 1) * shape.1 < shape.size()) by (nonlinear_arith)
        requires
            shape.1 >= 1,
    ;
    lemma_single_weight(src, px, shape.1 as int, c);
}

/// The remap dims: if every source channel `c` is at most `m` and an entry's
/// weights sum to at most `w`, its output channel is at most `m · w / 256`.
/// With the baked weights (sum at most 252) the band gets darker each frame.
pub proof fn lemma_remap_dims(src: Seq<Rgba>, fx: Seq<WarpPixel>, shape: Shape2, k: int, c: int, m: int, w: int)
    requires
        valid_map(fx, shape),
        src.len() == shape.size(),
        0 <= k < fx.len(),
        0 <= c < 3,
        0 <= m,
        forall|q: int| 0 <= q < src.len() ==> (#[trigger] src[q]).ch(c) <= m,
        fx[k].weights[0] + fx[k].weights[1] + fx[k].weights[2] + fx[k].weights[3] <= w,
    ensures
        bilin(src, fx[k], shape.1 as int).ch(c) * 256 <= m * w,
{
    let px = fx[k];
    let i = px.index as int;
    let cols = shape.1 as int;
    assert(valid_pixel(px, shape));
    assert(src[i].ch(c) <= m && src[i + 1].ch(c) <= m && src[i + cols].ch(c) <= m && src[i + cols + 1].ch(c) <= m);
    lemma_mix_contracts(src, i, cols, px.weights, c, m);
    let s = px.weights[0] + px.weights[1] + px.weights[2] + px.weights[3];
    assert(m * s <= m * w) by (nonlinear_arith)
        requires
            0 <= m,
            s <= w,
    ;
    if c == 0 {} else if c == 1 {} else {}
}

/// A channel value after `n` remap passes with a lone weight `w`.
pub open spec fn decay(v: nat, w: nat, n: nat) -> nat
    decreases n,
{
    if n == 0 {
        v
    } else {
        decay(v, w, (n - 1) as nat) * w / 256
    }
}

/// Repeated remapping with weight `w` shrinks a channel at least
/// geometrically: after `n` passes it is at most `v · (w / 256)^n`.
pub proof fn lemma_decay_geometric(v: nat, w: nat, n: nat)
    ensures
        decay(v, w, n) * pow(256, n) <= v * pow(w as int, n),
    decreases n,
{
    if n == 0 {
        vstd::arithmetic::power::lemma_pow0(256);
        vstd::arithmetic::power::lemma_pow0(w as int);
    } else {
        lemma_decay_geometric(v, w, (n - 1) as nat);
        let d = decay(v, w, (n - 1) as nat);
        let p = pow(256, (n - 1) as nat);
        let q = pow(w as int, (n - 1) as nat);
        vstd::arithmetic::power::lemma_pow_positive(256, (n - 1) as nat);
        vstd::arithmetic::power::lemma_pow_adds(256, (n - 1) as nat, 1);
        vstd::arithmetic::power::lemma_pow_adds(w as int, (n - 1) as nat, 1);
        vstd::arithmetic::power::lemma_pow1(256);
        vstd::arithmetic::power::lemma_pow1(w as int);
        assert((d * w / 256) * 256 <= d * w) by (nonlinear_arith)
            requires
                d >= 0,
                w >= 0,
        ;
        assert((d * w / 256) * (p * 256) <= v * (q * w)) by (nonlinear_arith)
            requires
                (d * w / 256) * 256 <= d * w,
                d * p <= v * q,
                p > 0,
                w >= 0,
                d * w / 256 >= 0,
        ;
    }
}

} // verus!
