//! Every image fits into the input of a model.

use crate::binary::magnitude::lemma_pow2_le;
use crate::binary::rounding::{
    lemma_round_units_exact, lemma_round_units_monotone, lemma_round_units_upper, round_units,
};
use crate::binary::single::Single;
use crate::binary::value::{
    lemma_bounded_held, lemma_naturals, lemma_rounded_held, lemma_small_natural, nearest_natural,
    of_natural, product, quotient, rounded, Format, Value,
};
use crate::letterbox::{fitting_scale, scaled_side, Letterbox};
use vstd::arithmetic::div_mod::{
    lemma_fundamental_div_mod, lemma_fundamental_div_mod_converse, lemma_mod_bound,
};
use vstd::arithmetic::power2::{
    lemma2_to64, lemma_pow2_adds, lemma_pow2_pos, lemma_pow2_unfold, pow2,
};
use vstd::prelude::*;

verus! {

/// A side as a single-precision number.
pub proof fn lemma_side_units(n: u32) -> (w: nat)
    ensures
        Single::natural(n as nat).value() == (Value::Finite { negative: false, units: w }),
        n == 0 ==> w == 0,
        n >= 1 ==> pow2(149) <= w,
        w <= pow2(181),
{
    let f = Format::Binary32;
    let u = pow2(149);
    let a = n as nat * u;
    let w = round_units(a, 1, 24);
    lemma2_to64();
    lemma_pow2_pos(149);
    lemma_pow2_adds(32, 149);
    lemma_pow2_le(181, 276);
    lemma_pow2_unfold(277);
    lemma_pow2_pos(276);
    reveal(Single::natural);
    lemma_naturals(f, n as nat, n as nat);
    Single::lemma_of_value(of_natural(f, n as nat));
    let top = pow2(181);
    assert(a <= top) by (nonlinear_arith)
        requires
            a == n * u,
            n <= 0x1_0000_0000,
            top == 0x1_0000_0000 * u,
    ;
    lemma_round_units_exact(1, 181, 1, 24);
    lemma_round_units_monotone(a, top, 1, 24);
    if n == 0 {
        assert(a == 0);
        lemma_round_units_exact(0, 0, 1, 24);
    } else {
        assert(a >= u) by (nonlinear_arith)
            requires
                a == n * u,
                n >= 1,
        ;
        lemma_round_units_exact(1, 149, 1, 24);
        lemma_round_units_monotone(u, a, 1, 24);
    }
    w
}

/// The ratio of the input to a side: as a single-precision number, and how much
/// rounding can have added.
proof fn lemma_ratio(input: u32, n: u32, w: nat) -> (q: nat)
    requires
        input < 0x40_0000,
        n >= 1,
        Single::natural(n as nat).value() == (Value::Finite { negative: false, units: w }),
        pow2(149) <= w <= pow2(181),
    ensures
        Single::natural(input as nat).over(Single::natural(n as nat)).value() == (Value::Finite {
            negative: false,
            units: q,
        }),
        q * w * 16777216 <= input * pow2(149) * pow2(149) * 16777217,
{
    let f = Format::Binary32;
    let u = pow2(149);
    let i = input as nat;
    lemma2_to64();
    lemma_pow2_pos(149);
    lemma_pow2_unfold(24);
    reveal(Single::natural);
    reveal(Single::over_spec);
    lemma_small_natural(f, i);
    lemma_naturals(f, i, i);
    Single::lemma_of_value(of_natural(f, i));
    let num = i * u * u;
    let q = round_units(num, w, 24);
    // It is not more than the input itself.
    assert(i * u * w >= num) by (nonlinear_arith)
        requires
            num == i * u * u,
            w >= u,
    ;
    lemma_round_units_exact(i, 149, w, 24);
    lemma_round_units_monotone(num, i * u * w, w, 24);
    assert(q <= i * u);
    lemma_pow2_adds(24, 149);
    lemma_pow2_le(173, 276);
    lemma_pow2_unfold(277);
    assert(i * u < pow2(173)) by (nonlinear_arith)
        requires
            i < 16777216,
            pow2(173) == 16777216 * u,
            u > 0,
    ;
    lemma_bounded_held(f, false, num, w);
    let v = Value::Finite { negative: false, units: q };
    assert(quotient(f, Single::natural(i).value(), Single::natural(n as nat).value()) == v);
    Single::lemma_of_value(v);
    if i == 0 {
        assert(num == 0);
        assert(q == 0);
        assert(0 * w * 16777216 == 0);
    } else {
        lemma_pow2_adds(23, 181);
        lemma_pow2_adds(149, 149);
        lemma_pow2_le(204, 298);
        assert(w * pow2(23) <= num) by (nonlinear_arith)
            requires
                w <= pow2(181),
                pow2(23) * pow2(181) == pow2(204),
                pow2(204) <= pow2(298),
                u * u == pow2(298),
                num == i * u * u,
                i >= 1,
                pow2(23) > 0,
        ;
        lemma_round_units_upper(num, w, 24);
    }
    q
}

/// The chain of inequalities from the ratio to the rounded side.
proof fn lemma_rounds_to_input(i: nat, w: nat, q: nat, p: nat, u: nat)
    requires
        i < 0x40_0000,
        u > 0,
        q * w * 16777216 <= i * u * u * 16777217,
        p * u * 16777216 <= w * q * 16777217,
    ensures
        2 * p < (2 * i + 1) * u,
{
    assert(p * u * 281474976710656 <= w * q * 16777216 * 16777217) by (nonlinear_arith)
        requires
            p * u * 16777216 <= w * q * 16777217,
    ;
    assert(w * q == q * w) by (nonlinear_arith);
    let x = q * w * 16777216;
    let y = i * u * u * 16777217;
    assert(x * 16777217 <= y * 16777217);
    assert(p * u * 281474976710656 <= i * u * u * (16777217 * 16777217)) by (nonlinear_arith)
        requires
            p * u * 281474976710656 <= x * 16777217,
            x * 16777217 <= y * 16777217,
            y == i * u * u * 16777217,
    ;
    assert(p * 281474976710656 <= i * u * 281475010265089) by (nonlinear_arith)
        requires
            p * u * 281474976710656 <= i * u * u * 281475010265089,
            u > 0,
    ;
    assert(2 * p < (2 * i + 1) * u) by (nonlinear_arith)
        requires
            p * 281474976710656 <= i * u * 281475010265089,
            i < 4194304,
            u > 0,
    ;
}

/// A side scaled by no more than its own ratio is not longer than the input.
proof fn lemma_scaled(input: u32, n: u32, w: nat, q: nat, scale: Single, s: nat)
    requires
        input < 0x40_0000,
        n >= 1,
        Single::natural(n as nat).value() == (Value::Finite { negative: false, units: w }),
        pow2(149) <= w <= pow2(181),
        q * w * 16777216 <= input * pow2(149) * pow2(149) * 16777217,
        scale.value() == (Value::Finite { negative: false, units: s }),
        s <= q,
    ensures
        scaled_side(n, scale) <= input,
{
    let f = Format::Binary32;
    let u = pow2(149);
    let i = input as nat;
    lemma2_to64();
    lemma_pow2_pos(149);
    let num = w * s;
    let most = w * q;
    let p = round_units(num, u, 24);
    assert(num <= most) by (nonlinear_arith)
        requires
            num == w * s,
            most == w * q,
            s <= q,
    ;
    lemma_round_units_monotone(num, most, u, 24);
    let top = round_units(most, u, 24);
    assert(2 * top < (2 * i + 1) * u) by {
        if most >= u * pow2(23) {
            lemma_round_units_upper(most, u, 24);
            lemma_rounds_to_input(i, w, q, top, u);
        } else {
            lemma_round_units_exact(8388608, 0, u, 24);
            assert(8388608 * pow2(0) * u == u * 8388608) by (nonlinear_arith)
                requires
                    pow2(0) == 1,
            ;
            lemma_round_units_monotone(most, u * 8388608, u, 24);
            lemma_pow2_le(32, 149);
            assert((2 * i + 1) * u >= u) by (nonlinear_arith)
                requires
                    i >= 0,
                    u > 0,
            ;
        }
    }
    reveal(Single::times_spec);
    reveal(Single::rounded_spec);
    reveal(Single::to_u32_spec);
    lemma_pow2_adds(24, 149);
    lemma_pow2_le(173, 276);
    lemma_pow2_unfold(277);
    assert((2 * i + 1) * u <= 2 * pow2(173)) by (nonlinear_arith)
        requires
            i < 4194304,
            pow2(173) == 16777216 * u,
            u > 0,
    ;
    lemma_bounded_held(f, false, num, u);
    let v = Value::Finite { negative: false, units: p };
    assert(product(f, Single::natural(n as nat).value(), scale.value()) == v);
    Single::lemma_of_value(v);
    lemma_rounded_held(f, v);
    Single::lemma_of_value(rounded(f, v));
    let k = nearest_natural(f, p);
    lemma_fundamental_div_mod((2 * p + u) as int, (2 * u) as int);
    lemma_mod_bound((2 * p + u) as int, (2 * u) as int);
    let rest = (2 * p + u) % (2 * u);
    assert(k <= i) by (nonlinear_arith)
        requires
            (2 * u) * k + rest == 2 * p + u,
            rest >= 0,
            2 * p < (2 * i + 1) * u,
            u > 0,
    ;
    lemma_fundamental_div_mod_converse((k * u) as int, u as int, k as int, 0);
}

/// A side of no length stays so under any scale.
proof fn lemma_nothing_scaled(scale: Single)
    ensures
        scaled_side(0, scale) == 0,
{
    let f = Format::Binary32;
    lemma2_to64();
    lemma_pow2_pos(149);
    lemma_pow2_pos(277);
    reveal(Single::natural);
    reveal(Single::times_spec);
    reveal(Single::rounded_spec);
    reveal(Single::to_u32_spec);
    lemma_naturals(f, 0, 0);
    Single::lemma_of_value(of_natural(f, 0));
    let v = product(f, of_natural(f, 0), scale.value());
    if let Value::Finite { negative, units } = scale.value() {
        assert(0 * units == 0);
        lemma_round_units_exact(0, 0, pow2(149), 24);
        assert(0 * pow2(0) * pow2(149) == 0) by (nonlinear_arith);
        lemma_bounded_held(f, negative, 0, pow2(149));
    }
    Single::lemma_of_value(v);
    lemma_rounded_held(f, v);
    Single::lemma_of_value(rounded(f, v));
    if v is Finite {
        lemma_fundamental_div_mod_converse(pow2(149) as int, (2 * pow2(149)) as int, 0, pow2(149) as int);
        assert(nearest_natural(f, 0) == 0);
        assert(0 * pow2(149) == 0);
        lemma_fundamental_div_mod_converse(0, pow2(149) as int, 0, 0);
    }
}

/// Every image fits into the input of every model whose side is shorter than 2^22
/// pixels.
pub proof fn law_every_image_fits(input_size: u32, width: u32, height: u32)
    requires
        input_size < 0x40_0000,
    ensures
        Letterbox::fits(input_size, width, height),
{
    let input = Single::natural(input_size as nat);
    let scale = fitting_scale(input_size, width, height);
    let by_width = input.over(Single::natural(width as nat));
    let by_height = input.over(Single::natural(height as nat));
    let w = lemma_side_units(width);
    let h = lemma_side_units(height);
    by_width.lemma_value_held();
    by_height.lemma_value_held();
    if width == 0 {
        lemma_nothing_scaled(scale);
    }
    if height == 0 {
        lemma_nothing_scaled(scale);
    }
    if width >= 1 {
        let q = lemma_ratio(input_size, width, w);
        if height >= 1 {
            let r = lemma_ratio(input_size, height, h);
            let s = if scale == by_width {
                q
            } else {
                r
            };
            lemma_scaled(input_size, width, w, q, scale, s);
            lemma_scaled(input_size, height, h, r, scale, s);
        } else {
            lemma_no_side(input_size);
            assert(scale == by_width);
            lemma_scaled(input_size, width, w, q, scale, q);
        }
    } else if height >= 1 {
        let r = lemma_ratio(input_size, height, h);
        lemma_no_side(input_size);
        assert(scale == by_height);
        lemma_scaled(input_size, height, h, r, scale, r);
    }
}

/// The ratio to a side of no length is above all others, or no number.
proof fn lemma_no_side(input_size: u32)
    requires
        input_size < 0x40_0000,
    ensures
        ({
            let v = Single::natural(input_size as nat).over(Single::natural(0)).value();
            v is Nan || v == (Value::Infinite { negative: false })
        }),
{
    let f = Format::Binary32;
    reveal(Single::natural);
    reveal(Single::over_spec);
    lemma2_to64();
    lemma_pow2_unfold(24);
    lemma_small_natural(f, input_size as nat);
    lemma_naturals(f, 0, input_size as nat);
    Single::lemma_of_value(of_natural(f, 0));
    Single::lemma_of_value(of_natural(f, input_size as nat));
    let v = quotient(f, of_natural(f, input_size as nat), of_natural(f, 0));
    Single::lemma_of_value(v);
}

} // verus!
