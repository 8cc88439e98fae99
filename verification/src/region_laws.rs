//! How regions lie in the input of a model, and how what is found there lies in the
//! frame.

use crate::binary::integers::lemma_exact_integer;
use crate::binary::magnitude::lemma_pow2_le;
use crate::binary::nearness::{
    finite, lemma_natural_near, lemma_no_overflow, lemma_over_near, lemma_times_near, size, units,
};
use crate::binary::rounding::{gap, lemma_round_units_exact};
use crate::binary::single::Single;
use crate::binary::value::{lemma_rounded_held, nearest_natural, rounded, Format};
use crate::fitting::law_every_image_fits;
use crate::letterbox::{fitting_scale, padding, scaled_side, Letterbox};
use vstd::arithmetic::div_mod::{
    lemma_fundamental_div_mod, lemma_fundamental_div_mod_converse, lemma_mod_bound,
};
use vstd::arithmetic::power2::{
    lemma2_to64, lemma_pow2_adds, lemma_pow2_pos, lemma_pow2_unfold, pow2,
};
use vstd::prelude::*;

verus! {

/// The chain of inequalities behind a ratio of integers.
proof fn lemma_ratio_chain(u: int, i: int, n: int, x: int, y: int, q: int)
    requires
        u >= 340282366920938463463374607431768211456,
        1 <= i <= 0x1_0000_0000_0000_0000,
        1 <= n <= 0x1_0000_0000_0000_0000,
        gap(x, i * u) * 16777216 <= i * u,
        gap(y, n * u) * 16777216 <= n * u,
        gap(q * y, x * u) * 16777216 <= size(x) * u + 8388608 * y,
    ensures
        q > 0,
        gap(q * n, i * u) * 16777216 <= 9 * (i * u),
{
    let e = 16777216int;
    let iu = i * u;
    let nu = n * u;
    let xu = x * u;
    let qy = q * y;
    let iuu = iu * u;
    let qnu = q * nu;
    assert(iu >= u && nu >= u) by (nonlinear_arith)
        requires
            iu == i * u,
            nu == n * u,
            i >= 1,
            n >= 1,
            u > 0,
    ;
    assert(gap(xu, iuu) * e <= iuu) by (nonlinear_arith)
        requires
            gap(x, iu) * e <= iu,
            xu == x * u,
            iuu == iu * u,
            u > 0,
            e > 0,
            x >= iu ==> gap(x, iu) == x - iu,
            x < iu ==> gap(x, iu) == iu - x,
            gap(xu, iuu) == xu - iuu || gap(xu, iuu) == iuu - xu,
            gap(xu, iuu) >= 0,
    ;
    assert(size(x) * u == xu) by (nonlinear_arith)
        requires
            size(x) == x,
            xu == x * u,
    ;
    // What is too small to be held does not count.
    assert(8388608 * y <= iuu) by (nonlinear_arith)
        requires
            y <= 2 * nu,
            nu == n * u,
            n <= 0x1_0000_0000_0000_0000,
            iuu == iu * u,
            iu >= u,
            u >= 340282366920938463463374607431768211456,
    ;
    assert(gap(qy, xu) * e <= xu + iuu);
    assert(gap(qy, iuu) * e <= 4 * iuu);
    assert(qy > 0);
    assert(q > 0) by (nonlinear_arith)
        requires
            qy == q * y,
            qy > 0,
            y > 0,
    ;
    assert(gap(qy, qnu) * e <= qnu) by (nonlinear_arith)
        requires
            gap(y, nu) * e <= nu,
            qy == q * y,
            qnu == q * nu,
            q > 0,
            e > 0,
            y >= nu ==> gap(y, nu) == y - nu,
            y < nu ==> gap(y, nu) == nu - y,
            gap(qy, qnu) == qy - qnu || gap(qy, qnu) == qnu - qy,
            gap(qy, qnu) >= 0,
    ;
    assert(gap(qnu, iuu) * e <= 9 * iuu);
    let qn = q * n;
    assert(qnu == qn * u) by (nonlinear_arith)
        requires
            qnu == q * nu,
            nu == n * u,
            qn == q * n,
    ;
    assert(gap(qn, iu) * e <= 9 * iu) by (nonlinear_arith)
        requires
            gap(qnu, iuu) * e <= 9 * iuu,
            qnu == qn * u,
            iuu == iu * u,
            u > 0,
            e > 0,
            qn >= iu ==> gap(qn, iu) == qn - iu,
            qn < iu ==> gap(qn, iu) == iu - qn,
            gap(qnu, iuu) == qnu - iuu || gap(qnu, iuu) == iuu - qnu,
            gap(qnu, iuu) >= 0,
    ;
}

/// The unit is small.
proof fn lemma_unit()
    ensures
        pow2(149) >= 340282366920938463463374607431768211456,
        pow2(276) >= 5192296858534827628530496329220096 * pow2(149),
{
    lemma2_to64();
    lemma_pow2_adds(64, 64);
    lemma_pow2_adds(64, 48);
    lemma_pow2_adds(32, 16);
    lemma_pow2_adds(112, 149);
    lemma_pow2_le(128, 149);
    lemma_pow2_le(261, 276);
    lemma_pow2_pos(149);
    assert(pow2(48) == 0x1_0000_0000_0000);
    assert(pow2(112) == 5192296858534827628530496329220096);
}

/// A ratio of two integers is near the true ratio.
pub proof fn lemma_ratio_near(i: nat, n: nat)
    requires
        1 <= i <= 0x1_0000_0000_0000_0000,
        1 <= n <= 0x1_0000_0000_0000_0000,
    ensures
        ({
            let q = Single::natural(i).over(Single::natural(n));
            &&& finite(q)
            &&& units(q) > 0
            &&& gap(units(q) * n, (i * pow2(149)) as int) * 16777216 <= 9 * (i * pow2(149))
        }),
{
    let u = pow2(149) as int;
    lemma_unit();
    lemma_natural_near(i);
    lemma_natural_near(n);
    let a = Single::natural(i);
    let b = Single::natural(n);
    let (x, y) = (units(a), units(b));
    let big = pow2(276) as int;
    assert(x <= 2 * (i * u));
    assert(size(x) * u <= big * y) by (nonlinear_arith)
        requires
            0 <= x <= 2 * (i * u),
            size(x) == x,
            i <= 0x1_0000_0000_0000_0000,
            y >= u,
            u > 0,
            big >= 5192296858534827628530496329220096 * u,
    ;
    lemma_over_near(a, b);
    lemma_ratio_chain(u, i as int, n as int, x, y, units(a.over(b)));
}

/// The longer of two sides.
pub open spec fn longer(w: u32, h: u32) -> u32 {
    if w >= h {
        w
    } else {
        h
    }
}

/// An image of that size fills the input of a model: its longer side, scaled, is as long
/// as the input, and the other side not longer, but for rounding; and on either side of
/// it the padding is half of what is left, to half a pixel.
pub open spec fn fills_input(
    input_size: u32,
    width: u32,
    height: u32,
    scale: Single,
    pad_x: Single,
    pad_y: Single,
) -> bool {
    let u = pow2(149) as int;
    let all = input_size * u;
    let s = units(scale);
    &&& finite(scale) && s > 0
    &&& gap(s * longer(width, height), all) * 1048576 <= all
    &&& (s * width - all) * 1048576 <= all
    &&& (s * height - all) * 1048576 <= all
    &&& finite(pad_x) && units(pad_x) >= 0
    &&& finite(pad_y) && units(pad_y) >= 0
    &&& gap(2 * units(pad_x) + s * width, all) * 4194304 <= 2097152 * u + 4 * all
    &&& gap(2 * units(pad_y) + s * height, all) * 4194304 <= 2097152 * u + 4 * all
}

/// The scale at which an image fits.
proof fn lemma_scale(input_size: u32, width: u32, height: u32)
    requires
        1 <= input_size < 0x40_0000,
        width >= 1,
        height >= 1,
    ensures
        ({
            let s = fitting_scale(input_size, width, height);
            let all = input_size * pow2(149);
            &&& finite(s) && units(s) > 0
            &&& gap(units(s) * longer(width, height), all) * 1048576 <= all
            &&& (units(s) * width - all) * 16777216 <= 9 * all
            &&& (units(s) * height - all) * 16777216 <= 9 * all
        }),
{
    let u = pow2(149) as int;
    lemma_pow2_pos(149);
    let i = Single::natural(input_size as nat);
    let a = i.over(Single::natural(width as nat));
    let b = i.over(Single::natural(height as nat));
    lemma_ratio_near(input_size as nat, width as nat);
    lemma_ratio_near(input_size as nat, height as nat);
    let s = fitting_scale(input_size, width, height);
    let all = input_size * u;
    let (x, y, z) = (units(a), units(b), units(s));
    let (w, h) = (width as int, height as int);
    assert(s == a || s == b);
    assert(z <= x && z <= y);
    assert(z * w <= x * w && z * h <= y * h) by (nonlinear_arith)
        requires
            z <= x,
            z <= y,
            w >= 1,
            h >= 1,
    ;
    if w >= h {
        assert(z * w >= z * h) by (nonlinear_arith)
            requires
                w >= h,
                z > 0,
        ;
    } else {
        assert(z * h >= z * w) by (nonlinear_arith)
            requires
                w < h,
                z > 0,
        ;
    }
}

/// A scaled side is the side times the scale, to half a pixel.
#[verifier::rlimit(40)]
proof fn lemma_scaled_side_near(input_size: u32, n: u32, scale: Single)
    requires
        1 <= input_size < 0x40_0000,
        n >= 1,
        finite(scale),
        units(scale) > 0,
        (units(scale) * n - input_size * pow2(149)) * 16777216 <= 9 * (input_size * pow2(149)),
    ensures
        gap(scaled_side(n, scale) * pow2(149), units(scale) * n) * 4194304 <= 2097152 * pow2(149)
            + 3 * (input_size * pow2(149)),
{
    let f = Format::Binary32;
    let u = pow2(149) as int;
    let s = units(scale);
    let a = Single::natural(n as nat);
    let all = input_size * u;
    let ns = s * n;
    lemma2_to64();
    lemma_unit();
    lemma_natural_near(n as nat);
    let w = units(a);
    let big = pow2(276) as int;
    let nu = n * u;
    assert(all <= 4194304 * u) by (nonlinear_arith)
        requires
            all == input_size * u,
            input_size < 4194304,
            u > 0,
    ;
    let ws = w * s;
    let nsu = ns * u;
    assert(gap(ws, nsu) * 16777216 <= nsu) by (nonlinear_arith)
        requires
            gap(w, nu) * 16777216 <= nu,
            ws == w * s,
            nsu == ns * u,
            ns == s * n,
            nu == n * u,
            s > 0,
            w >= nu ==> gap(w, nu) == w - nu,
            w < nu ==> gap(w, nu) == nu - w,
            gap(ws, nsu) == ws - nsu || gap(ws, nsu) == nsu - ws,
            gap(ws, nsu) >= 0,
    ;
    assert(ns >= 1) by (nonlinear_arith)
        requires
            ns == s * n,
            s >= 1,
            n >= 1,
    ;
    assert(ns <= 2 * all);
    assert(0 <= nsu <= 8388608 * (u * u)) by (nonlinear_arith)
        requires
            nsu == ns * u,
            1 <= ns <= 8388608 * u,
            u > 0,
    ;
    let uu = u * u;
    assert(16777216 * uu <= big * u) by (nonlinear_arith)
        requires
            uu == u * u,
            16777216 * u <= big,
            u > 0,
    ;
    assert(size(w) * size(s) <= big * u);
    lemma_times_near(a, scale);
    let p = units(a.times(scale));
    let pu = p * u;
    assert(gap(pu, nsu) * 16777216 <= 3 * nsu + 8388608 * u);
    assert(gap(p, ns) * 16777216 <= 3 * ns + 8388608) by (nonlinear_arith)
        requires
            gap(pu, nsu) * 16777216 <= 3 * nsu + 8388608 * u,
            pu == p * u,
            nsu == ns * u,
            u > 0,
            p >= ns ==> gap(p, ns) == p - ns,
            p < ns ==> gap(p, ns) == ns - p,
            gap(pu, nsu) == pu - nsu || gap(pu, nsu) == nsu - pu,
            gap(pu, nsu) >= 0,
    ;
    assert(p >= 0);
    // The nearest whole number of pixels.
    let v = a.times(scale).value();
    a.times(scale).lemma_value_held();
    reveal(Single::rounded_spec);
    reveal(Single::to_u32_spec);
    lemma_rounded_held(f, v);
    Single::lemma_of_value(rounded(f, v));
    let pn = v->Finite_units;
    assert(pn == p || p == 0);
    let k = nearest_natural(f, pn);
    lemma_fundamental_div_mod((2 * pn + u) as int, (2 * u) as int);
    lemma_mod_bound((2 * pn + u) as int, (2 * u) as int);
    let rest = (2 * pn + u) % (2 * u);
    let ku = k * u;
    assert(2 * ku == 2 * pn + u - rest) by (nonlinear_arith)
        requires
            (2 * u) * k + rest == 2 * pn + u,
            ku == k * u,
    ;
    assert(k < 16777216) by (nonlinear_arith)
        requires
            2 * (k * u) <= 2 * pn + u,
            pn <= 8388610 * u,
            u > 0,
    ;
    lemma_fundamental_div_mod_converse(ku as int, u, k as int, 0);
    assert(scaled_side(n, scale) == k);
}

/// Half of a whole number of pixels.
proof fn lemma_padding(input_size: u32, scaled: u32)
    requires
        scaled <= input_size < 0x40_0000,
    ensures
        finite(padding(input_size, scaled)),
        2 * units(padding(input_size, scaled)) == (input_size - scaled) * pow2(149),
{
    let u = pow2(149);
    let n = (input_size - scaled) as nat;
    lemma2_to64();
    lemma_pow2_pos(149);
    lemma_pow2_unfold(149);
    lemma_unit();
    lemma_exact_integer(n);
    lemma_exact_integer(2);
    let half = pow2(148);
    let w = 2 * u;
    assert(n * u * u == n * half * w) by (nonlinear_arith)
        requires
            u == 2 * half,
            w == 2 * u,
    ;
    assert(n * half <= pow2(276)) by (nonlinear_arith)
        requires
            n < 4194304,
            2 * half == u,
            pow2(276) >= 4194304 * u,
    ;
    assert(n * half * w <= pow2(276) * w) by (nonlinear_arith)
        requires
            n * half <= pow2(276),
            w > 0,
    ;
    lemma_round_units_exact(n, 148, w, 24);
    lemma_no_overflow(false, n * u * u, w);
    reveal(Single::over_spec);
    assert(2 * (n * half) == n * u) by (nonlinear_arith)
        requires
            u == 2 * half,
    ;
}

/// However an image is shaped, it fills the input of a model.
pub proof fn law_image_fills_the_input(input_size: u32, width: u32, height: u32)
    requires
        1 <= input_size < 0x40_0000,
        width >= 1,
        height >= 1,
    ensures
        ({
            let b = Letterbox::of(input_size, width, height);
            &&& fills_input(input_size, width, height, b.scale, b.pad_x, b.pad_y)
            &&& 2 * units(b.pad_x) + b.new_w * pow2(149) == input_size * pow2(149)
            &&& 2 * units(b.pad_y) + b.new_h * pow2(149) == input_size * pow2(149)
        }),
{
    let u = pow2(149) as int;
    lemma_pow2_pos(149);
    law_every_image_fits(input_size, width, height);
    lemma_scale(input_size, width, height);
    let b = Letterbox::of(input_size, width, height);
    lemma_scaled_side_near(input_size, width, b.scale);
    lemma_scaled_side_near(input_size, height, b.scale);
    lemma_padding(input_size, b.new_w);
    lemma_padding(input_size, b.new_h);
    let (n, m, i) = (b.new_w as int, b.new_h as int, input_size as int);
    assert((i - n) * u == i * u - n * u) by (nonlinear_arith);
    assert((i - m) * u == i * u - m * u) by (nonlinear_arith);
}

} // verus!
