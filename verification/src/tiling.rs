//! The four tiles of a search cover the frame.

use crate::binary::magnitude::lemma_pow2_le;
use crate::binary::rounding::{
    lemma_round_units_exact, lemma_round_units_lower, lemma_round_units_monotone, round_units,
};
use crate::binary::single::Single;
use crate::binary::value::{
    lemma_bounded_held, lemma_naturals, lemma_rounded_held, nearest_natural, of_natural, product,
    rounded, Format, Value,
};
use crate::crop::{crop_side, crop_slack, CropRegion, TILED_CROP_RATIO};
use vstd::arithmetic::div_mod::{
    lemma_fundamental_div_mod, lemma_fundamental_div_mod_converse, lemma_mod_bound,
};
use vstd::arithmetic::power2::{
    lemma2_to64, lemma_pow2_adds, lemma_pow2_pos, lemma_pow2_unfold, pow2,
};
use vstd::prelude::*;

verus! {

/// Two thirds of an integer below `2^32`: the rounded product and the integer
/// nearest to it.
proof fn lemma_two_thirds(n: nat) -> (k: nat)
    requires
        1 <= n <= u32::MAX,
    ensures
        ({
            let ratio = Single { bits: TILED_CROP_RATIO };
            let r = Single::natural(n).times(ratio).rounded();
            &&& r.value() == (Value::Finite { negative: false, units: k * pow2(149) })
        }),
        1000 * (2 * k + 1) > 1333 * n,
{
    let f = Format::Binary32;
    let ratio = Single { bits: TILED_CROP_RATIO };
    let u = pow2(149);
    let c = pow2(125);
    let top = pow2(181);
    let p: nat = 16777216;
    let m: nat = 11184811;
    lemma2_to64();
    lemma_pow2_pos(149);
    lemma_pow2_pos(125);
    lemma_pow2_pos(181);
    lemma_pow2_adds(24, 125);
    lemma_pow2_adds(32, 149);
    lemma_pow2_le(181, 276);
    lemma_pow2_unfold(277);
    assert(ratio.value() == (Value::Finite { negative: false, units: m * c }));
    reveal(Single::natural);
    reveal(Single::times_spec);
    reveal(Single::rounded_spec);
    // The integer as a single-precision number.
    let a = n * u;
    let w = round_units(a, 1, 24);
    assert(a <= top) by (nonlinear_arith)
        requires
            a == n * u,
            n <= 0x1_0000_0000,
            top == 0x1_0000_0000 * u,
    ;
    assert(a >= u) by (nonlinear_arith)
        requires
            a == n * u,
            n >= 1,
    ;
    lemma_round_units_exact(1, 181, 1, 24);
    lemma_round_units_monotone(a, top, 1, 24);
    lemma_naturals(f, n, n);
    Single::lemma_of_value(of_natural(f, n));
    assert(Single::natural(n).value() == (Value::Finite { negative: false, units: w }));
    lemma_pow2_le(23, 149);
    lemma_pow2_le(1, 125);
    lemma_round_units_lower(a, 1, 24);
    assert(w * p >= a * (p - 1)) by {
        assert(w * 1 * p == w * p);
    }
    // Its product with the ratio.
    let num = w * (m * c);
    let q = round_units(num, u, 24);
    assert(2 * w >= u) by (nonlinear_arith)
        requires
            w * p >= a * (p - 1),
            a >= u,
            p == 16777216,
    ;
    assert(num >= u * 8388608) by (nonlinear_arith)
        requires
            num == w * (m * c),
            2 * w >= u,
            m * c >= 16777216,
    ;
    assert(m * c <= u);
    assert(num <= top * u) by (nonlinear_arith)
        requires
            num == w * (m * c),
            w <= top,
            m * c <= u,
    ;
    lemma_round_units_exact(1, 181, u, 24);
    lemma_round_units_monotone(num, top * u, u, 24);
    assert(1 * top * u == top * u);
    lemma_bounded_held(f, false, num, u);
    let v = Value::Finite { negative: false, units: q };
    assert(product(f, Single::natural(n).value(), ratio.value()) == v);
    Single::lemma_of_value(v);
    assert(u * pow2(23) == u * 8388608);
    lemma_round_units_lower(num, u, 24);
    // The integer nearest to that.
    let k = nearest_natural(f, q);
    lemma_rounded_held(f, v);
    Single::lemma_of_value(rounded(f, v));
    lemma_fundamental_div_mod((2 * q + u) as int, (2 * u) as int);
    lemma_mod_bound((2 * q + u) as int, (2 * u) as int);
    let rest = (2 * q + u) % (2 * u);
    assert((2 * k + 1) * u > 2 * q) by (nonlinear_arith)
        requires
            (2 * u) * k + rest == 2 * q + u,
            rest < 2 * u,
    ;
    lemma_two_thirds_bound(n, w, q, k, c);
    k
}

/// The chain of inequalities behind `lemma_two_thirds`.
proof fn lemma_two_thirds_bound(n: nat, w: nat, q: nat, k: nat, c: nat)
    requires
        c > 0,
        w * 16777216 >= (n * (16777216 * c)) * 16777215,
        q * (16777216 * c) * 16777216 >= (w * (11184811 * c)) * 16777215,
        (2 * k + 1) * (16777216 * c) > 2 * q,
        n >= 1,
    ensures
        1000 * (2 * k + 1) > 1333 * n,
{
    let p: int = 16777216;
    assert(w >= n * c * 16777215) by (nonlinear_arith)
        requires
            w * 16777216 >= (n * (16777216 * c)) * 16777215,
    ;
    assert(q * 281474976710656 >= w * 11184811 * 16777215) by (nonlinear_arith)
        requires
            q * (16777216 * c) * 16777216 >= (w * (11184811 * c)) * 16777215,
            c > 0,
    ;
    assert(q * 281474976710656 >= (n * c) * (16777215 * 11184811 * 16777215)) by (nonlinear_arith)
        requires
            q * 281474976710656 >= w * 11184811 * 16777215,
            w >= n * c * 16777215,
    ;
    assert((2 * k + 1) * c * (16777216 * 281474976710656) > 2 * ((n * c) * (16777215 * 11184811
        * 16777215))) by (nonlinear_arith)
        requires
            (2 * k + 1) * (16777216 * c) > 2 * q,
            q * 281474976710656 >= (n * c) * (16777215 * 11184811 * 16777215),
    ;
    assert((2 * k + 1) * 4722366482869645213696int > 2 * (n * 3148244040438120098475int)) by (nonlinear_arith)
        requires
            (2 * k + 1) * c * (16777216 * 281474976710656) > 2 * ((n * c) * (16777215 * 11184811
                * 16777215)),
            c > 0,
    ;
}

/// One side: two tiles leave no gap, and reach the end but for an odd last pixel.
proof fn lemma_side_covered(side: u32)
    ensures
        ({
            let length = crop_side(side, Single { bits: TILED_CROP_RATIO });
            let slack = crop_slack(side, length);
            let start = slack - slack % 2;
            &&& start <= length
            &&& side != 4 && side != 5 && side != 8 ==> start < length
            &&& start + length >= side - side % 2
        }),
{
    let ratio = Single { bits: TILED_CROP_RATIO };
    if side >= 2 {
        let n = side as nat;
        let k = lemma_two_thirds(n);
        let r = Single::natural(n).times(ratio).rounded();
        let u = pow2(149);
        lemma_pow2_pos(149);
        reveal(Single::to_u32_spec);
        lemma_fundamental_div_mod_converse((k * u) as int, u as int, k as int, 0);
        let scaled = r.to_u32();
        assert(scaled == if k > u32::MAX {
            u32::MAX as nat
        } else {
            k
        });
    }
}

/// Every pixel of the frame lies in one of the four tiles, but for the last
/// column of an odd width and the last row of an odd height.
pub proof fn law_tiles_cover_frame(width: u32, height: u32, px: int, py: int)
    requires
        0 <= px < width - width % 2,
        0 <= py < height - height % 2,
    ensures
        exists|i: int|
            0 <= i < 4 && (#[trigger] CropRegion::tiles(width, height)[i]).contains(px, py),
{
    lemma_side_covered(width);
    lemma_side_covered(height);
    let tiles = CropRegion::tiles(width, height);
    let right = px >= tiles[0].width;
    let bottom = py >= tiles[0].height;
    let i: int = match (right, bottom) {
        (false, false) => 0,
        (true, false) => 1,
        (false, true) => 2,
        (true, true) => 3,
    };
    assert(tiles[i].contains(px, py));
}

/// Neighbouring tiles overlap along every side but one of four, five or eight
/// pixels, where they only touch.
pub proof fn law_tiles_overlap(width: u32, height: u32)
    ensures
        ({
            let tiles = CropRegion::tiles(width, height);
            &&& width != 4 && width != 5 && width != 8 ==> tiles[0].x + tiles[0].width > tiles[1].x
            &&& height != 4 && height != 5 && height != 8 ==> tiles[0].y + tiles[0].height > tiles[2].y
        }),
{
    lemma_side_covered(width);
    lemma_side_covered(height);
}

} // verus!
