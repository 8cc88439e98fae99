//! Sum, difference, product, quotient and square root of magnitudes, each
//! rounded once.

use crate::binary::magnitude::{bit_length, lemma_pow2_le, power_of_two, round_magnitude, Magnitude};
use crate::binary::rounding::{
    floor_root, is_floor_root, lemma_round_even_from, lemma_round_units_at, lemma_round_units_scale,
    lemma_scaled_round_of, lemma_scaled_round_sticky, round_root, round_units, scaled_round,
};
use vstd::arithmetic::div_mod::{lemma_fundamental_div_mod, lemma_mod_bound};
use vstd::arithmetic::power2::{
    lemma2_to64, lemma2_to64_rest, lemma_pow2_adds, lemma_pow2_pos, lemma_pow2_unfold, pow2,
};
use vstd::prelude::*;

verus! {

/// A magnitude of a format with that precision, small enough to compute with.
pub open spec fn operand(a: Magnitude, precision: u32) -> bool {
    &&& 2 <= precision <= 53
    &&& a.normal(precision as nat)
    &&& a.exponent <= 2100
}

proof fn lemma_mantissa_bound(a: Magnitude, precision: u32)
    requires
        operand(a, precision),
    ensures
        a.mantissa < 0x20_0000_0000_0000,
{
    lemma2_to64_rest();
    lemma_pow2_le(precision as nat, 53);
}

/// The rounded product of two magnitudes whose unit is `2^-unit`.
pub fn multiply(a: Magnitude, b: Magnitude, unit: u32, precision: u32) -> (r: Magnitude)
    requires
        operand(a, precision),
        operand(b, precision),
        unit <= 1100,
    ensures
        r.units() == round_units(a.units() * b.units(), pow2(unit as nat), precision as nat),
        r.normal(precision as nat),
        r.exponent <= 9200,
{
    proof {
        lemma_mantissa_bound(a, precision);
        lemma_mantissa_bound(b, precision);
        assert(a.mantissa * b.mantissa <= 0x20_0000_0000_0000 * 0x20_0000_0000_0000)
            by (nonlinear_arith)
            requires
                a.mantissa <= 0x20_0000_0000_0000,
                b.mantissa <= 0x20_0000_0000_0000,
        ;
        let m = a.mantissa as nat * b.mantissa as nat;
        let s = (a.exponent + b.exponent) as nat;
        lemma_pow2_adds(a.exponent as nat, b.exponent as nat);
        let x = pow2(a.exponent as nat);
        let y = pow2(b.exponent as nat);
        let z = pow2(s);
        assert(a.units() * b.units() == m * z) by (nonlinear_arith)
            requires
                a.units() == a.mantissa as nat * x,
                b.units() == b.mantissa as nat * y,
                m == a.mantissa as nat * b.mantissa as nat,
                z == x * y,
        ;
        lemma_scaled_round_of(m, 1, s, unit as nat, precision as nat);
        assert(1 * pow2(unit as nat) == pow2(unit as nat));
    }
    let n: u128 = a.mantissa as u128 * b.mantissa as u128;
    round_magnitude(n, a.exponent as i32 + b.exponent as i32 - unit as i32, precision)
}

proof fn lemma_shifted_bound(n: nat, len: nat, shift: nat)
    requires
        n < pow2(len),
        len > 0 ==> n >= pow2((len - 1) as nat),
        len + shift == 126,
    ensures
        n * pow2(shift) < 0x4000_0000_0000_0000_0000_0000_0000_0000,
        n > 0 ==> n * pow2(shift) >= 0x2000_0000_0000_0000_0000_0000_0000_0000,
{
    let t = pow2(shift);
    lemma_pow2_pos(shift);
    lemma_pow2_adds(len, shift);
    lemma2_to64();
    lemma2_to64_rest();
    lemma_pow2_adds(62, 64);
    lemma_pow2_adds(61, 64);
    let top = pow2(len);
    assert(n * t < top * t) by (nonlinear_arith)
        requires
            n < top,
            t > 0,
    ;
    if n > 0 {
        if len == 0 {
            lemma2_to64();
        }
        lemma_pow2_adds((len - 1) as nat, shift);
        let low = pow2((len - 1) as nat);
        assert(n * t >= low * t) by (nonlinear_arith)
            requires
                n >= low,
        ;
    }
}

proof fn lemma_divide_exact(a: Magnitude, b: Magnitude, unit: nat, precision: nat, shift: nat)
    requires
        b.mantissa > 0,
        precision > 0,
    ensures
        round_units(a.units() * pow2(unit), b.units(), precision) == scaled_round(
            a.mantissa as nat * pow2(shift),
            b.mantissa as nat,
            a.exponent + unit - b.exponent - shift,
            precision,
        ),
{
    let num = a.mantissa as nat * pow2(shift);
    let den = b.mantissa as nat;
    let s = a.exponent as nat + unit;
    let t = b.exponent as nat + shift;
    lemma_scaled_round_of(num, den, s, t, precision);
    lemma_pow2_adds(a.exponent as nat, unit);
    lemma_pow2_adds(b.exponent as nat, shift);
    lemma_pow2_pos(shift);
    lemma_pow2_pos(b.exponent as nat);
    let c = pow2(shift);
    let x = pow2(a.exponent as nat);
    let y = pow2(b.exponent as nat);
    let u = pow2(unit);
    let x2 = pow2(s);
    let y2 = pow2(t);
    assert(num * x2 == c * (a.units() * u)) by (nonlinear_arith)
        requires
            num == a.mantissa as nat * c,
            x2 == x * u,
            a.units() == a.mantissa as nat * x,
    ;
    assert(den * y2 == c * b.units()) by (nonlinear_arith)
        requires
            y2 == y * c,
            b.units() == den * y,
    ;
    assert(b.units() > 0) by (nonlinear_arith)
        requires
            b.units() == den * y,
            den > 0,
            y > 0,
    ;
    lemma_round_units_scale(a.units() * u, b.units(), c, precision);
}

proof fn lemma_quotient_whole(num: nat, den: nat, q: nat, e: int, precision: nat)
    requires
        num == q * den,
        den > 0,
        precision > 0,
    ensures
        scaled_round(num, den, e, precision) == scaled_round(q, 1, e, precision),
{
    if e >= 0 {
        let x = pow2(e as nat);
        lemma_round_units_scale(q * x, 1, den, precision);
        assert(den * (q * x) == num * x) by (nonlinear_arith)
            requires
                num == q * den,
        ;
        assert(den * 1 == den);
    } else {
        let x = pow2((-e) as nat);
        lemma_pow2_pos((-e) as nat);
        lemma_round_units_scale(q, 1 * x, den, precision);
        assert(den * q == num) by (nonlinear_arith)
            requires
                num == q * den,
        ;
        assert(den * (1 * x) == den * x);
    }
}

/// Half of `n`, scaled by `2^e`, is `n` scaled by one power less.
proof fn lemma_scaled_halves(n: nat, e: int, precision: nat)
    requires
        precision > 0,
    ensures
        scaled_round(n, 2, e, precision) == scaled_round(n, 1, e - 1, precision),
{
    if e >= 1 {
        lemma_pow2_unfold(e as nat);
        let x = pow2((e - 1) as nat);
        lemma_round_units_scale(n * x, 1, 2, precision);
        assert(2 * (n * x) == n * (2 * x)) by (nonlinear_arith);
    } else if e == 0 {
        lemma2_to64();
        assert(n * 1 == n);
    } else {
        lemma_pow2_unfold((1 - e) as nat);
    }
}

proof fn lemma_quotient_long(num: nat, den: nat, q: nat, r: nat)
    requires
        num >= 0x2000_0000_0000_0000_0000_0000_0000_0000,
        den < 0x20_0000_0000_0000,
        num == q * den + r,
        r < den,
    ensures
        q >= 0x20_0000_0000_0000,
{
    if q < 0x20_0000_0000_0000 {
        assert(q * den + r <= 0x20_0000_0000_0000 * 0x20_0000_0000_0000) by (nonlinear_arith)
            requires
                q + 1 <= 0x20_0000_0000_0000,
                den <= 0x20_0000_0000_0000,
                r <= den,
        ;
    }
}

/// The rounded quotient of two magnitudes whose unit is `2^-unit`.
pub fn divide(a: Magnitude, b: Magnitude, unit: u32, precision: u32) -> (r: Magnitude)
    requires
        operand(a, precision),
        operand(b, precision),
        b.mantissa > 0,
        unit <= 1100,
    ensures
        r.units() == round_units(a.units() * pow2(unit as nat), b.units(), precision as nat),
        r.normal(precision as nat),
        r.exponent <= 9200,
{
    let ghost p = precision as nat;
    let len = bit_length(a.mantissa as u128);
    proof {
        lemma_mantissa_bound(a, precision);
        lemma_mantissa_bound(b, precision);
        if len > 64 {
            lemma2_to64();
            lemma_pow2_le(64, (len - 1) as nat);
        }
    }
    let shift: u32 = 126 - len;
    let t = power_of_two(shift);
    proof {
        lemma_shifted_bound(a.mantissa as nat, len as nat, shift as nat);
    }
    let num: u128 = a.mantissa as u128 * t;
    let den: u128 = b.mantissa as u128;
    let q = num / den;
    let r = num % den;
    let e: i32 = a.exponent as i32 + unit as i32 - b.exponent as i32 - shift as i32;
    proof {
        lemma_divide_exact(a, b, unit as nat, p, shift as nat);
        lemma_fundamental_div_mod(num as int, den as int);
        lemma_mod_bound(num as int, den as int);
        assert(num == q * den + r) by (nonlinear_arith)
            requires
                num == den * q + r,
        ;
        assert(q <= num) by (nonlinear_arith)
            requires
                num == q * den + r,
                den >= 1,
                r >= 0,
        ;
    }
    if r == 0 {
        proof {
            lemma_quotient_whole(num as nat, den as nat, q as nat, e as int, p);
        }
        round_magnitude(q, e, precision)
    } else {
        proof {
            lemma_pow2_le(p, 53);
            lemma2_to64_rest();
            assert(a.mantissa > 0) by {
                if a.mantissa == 0 {
                    assert(0 * t == 0);
                }
            }
            lemma_quotient_long(num as nat, den as nat, q as nat, r as nat);
            lemma_scaled_round_sticky(num as nat, den as nat, q as nat, r as nat, e as int, p);
            lemma_scaled_halves((2 * q + 1) as nat, e as int, p);
        }
        round_magnitude(2 * q + 1, e - 1, precision)
    }
}

/// What lies within a quarter of the last digit is absorbed.
proof fn lemma_absorb(m: nat, e: nat, t: nat, precision: nat)
    requires
        precision >= 2,
        pow2((precision - 1) as nat) <= m < pow2(precision),
        e >= 1,
        4 * t < pow2(e),
    ensures
        t <= m * pow2(e),
        round_units(m * pow2(e) + t, 1, precision) == m * pow2(e),
        round_units((m * pow2(e) - t) as nat, 1, precision) == m * pow2(e),
{
    let x = pow2(e);
    let low = pow2((precision - 1) as nat);
    let top = pow2(precision);
    lemma_pow2_pos(e);
    lemma_pow2_unfold(precision);
    lemma_pow2_pos((precision - 1) as nat);
    lemma_pow2_adds(precision, e);
    lemma_pow2_adds((precision - 1) as nat, e);
    assert(m * x >= low * x) by (nonlinear_arith)
        requires
            m >= low,
    ;
    assert(m * x + x <= top * x) by (nonlinear_arith)
        requires
            m + 1 <= top,
    ;
    assert(m * x >= x) by (nonlinear_arith)
        requires
            m >= 1,
    ;
    // The sum keeps the exponent.
    lemma_round_units_at(m * x + t, 1, precision, e);
    lemma_round_even_from(m * x + t, x, m, t);
    assert(1 * x == x);
    assert(x * m == m * x) by (nonlinear_arith);
    // So does the difference, unless the mantissa is the smallest.
    if t == 0 {
    } else if m > low {
        assert(m * x - t >= low * x) by (nonlinear_arith)
            requires
                m >= low + 1,
                t <= x,
        ;
        lemma_round_units_at((m * x - t) as nat, 1, precision, e);
        assert(m * x - t == (m - 1) * x + (x - t)) by (nonlinear_arith);
        lemma_round_even_from((m * x - t) as nat, x, (m - 1) as nat, (x - t) as nat);
    } else {
        let h = pow2((e - 1) as nat);
        lemma_pow2_unfold(e);
        lemma_pow2_pos((e - 1) as nat);
        lemma_pow2_adds(precision, (e - 1) as nat);
        lemma_pow2_adds((precision - 1) as nat, (e - 1) as nat);
        assert(m * x == top * h) by (nonlinear_arith)
            requires
                m == low,
                top == 2 * low,
                x == 2 * h,
        ;
        assert(top * h - t == (top - 1) * h + (h - t)) by (nonlinear_arith);
        assert((top - 1) * h >= low * h) by (nonlinear_arith)
            requires
                top - 1 >= low,
        ;
        assert(1 * pow2((precision + e - 1) as nat) == top * h);
        if e > 1 {
            assert(1 * pow2((precision + (e - 1) - 1) as nat) == low * h);
        }
        lemma_round_units_at((m * x - t) as nat, 1, precision, (e - 1) as nat);
        lemma_round_even_from((m * x - t) as nat, h, (top - 1) as nat, (h - t) as nat);
        assert(1 * h == h);
        assert(h * top == top * h) by (nonlinear_arith);
    }
}

/// `a` has the larger exponent by more digits than matter.
proof fn lemma_far_apart(a: Magnitude, b: Magnitude, precision: u32)
    requires
        operand(a, precision),
        operand(b, precision),
        a.exponent > b.exponent + 64,
    ensures
        b.units() <= a.units(),
        round_units(a.units() + b.units(), 1, precision as nat) == a.units(),
        round_units((a.units() - b.units()) as nat, 1, precision as nat) == a.units(),
{
    let e = a.exponent as nat;
    let f = b.exponent as nat;
    let t = b.units();
    lemma_mantissa_bound(b, precision);
    lemma_pow2_adds(f, (e - f) as nat);
    lemma_pow2_le(64, (e - f) as nat);
    lemma2_to64();
    lemma_pow2_pos(f);
    let x = pow2(f);
    let y = pow2((e - f) as nat);
    assert(4 * t < x * y) by (nonlinear_arith)
        requires
            t == b.mantissa as nat * x,
            4 * b.mantissa < y,
            x > 0,
    ;
    lemma_absorb(a.mantissa as nat, e, t, precision as nat);
}

/// The rounded sum, for `a.exponent >= b.exponent`.
fn add_ordered(a: Magnitude, b: Magnitude, precision: u32) -> (r: Magnitude)
    requires
        operand(a, precision),
        operand(b, precision),
        a.exponent >= b.exponent,
    ensures
        r.units() == round_units(a.units() + b.units(), 1, precision as nat),
        r.normal(precision as nat),
        r.exponent <= 9200,
{
    let d: u32 = a.exponent - b.exponent;
    if d > 64 {
        proof {
            lemma_far_apart(a, b, precision);
        }
        a
    } else {
        let t = power_of_two(d);
        proof {
            lemma_aligned(a, b, precision, t as nat);
        }
        let n: u128 = a.mantissa as u128 * t + b.mantissa as u128;
        proof {
            let x = pow2(b.exponent as nat);
            assert(n as nat * x == (a.mantissa as nat * t as nat) * x + b.mantissa as nat * x)
                by (nonlinear_arith)
                requires
                    n == a.mantissa as nat * t as nat + b.mantissa as nat,
            ;
        }
        round_magnitude(n, b.exponent as i32, precision)
    }
}

proof fn lemma_aligned(a: Magnitude, b: Magnitude, precision: u32, t: nat)
    requires
        operand(a, precision),
        operand(b, precision),
        b.exponent <= a.exponent <= b.exponent + 64,
        t == pow2((a.exponent - b.exponent) as nat),
    ensures
        a.units() == (a.mantissa as nat * t) * pow2(b.exponent as nat),
        a.mantissa * t <= 0x20_0000_0000_0000_0000_0000_0000_0000,
        b.mantissa < 0x20_0000_0000_0000,
{
    lemma_mantissa_bound(a, precision);
    lemma_mantissa_bound(b, precision);
    lemma_pow2_adds((a.exponent - b.exponent) as nat, b.exponent as nat);
    lemma_pow2_le((a.exponent - b.exponent) as nat, 64);
    lemma2_to64();
    assert(a.mantissa * t <= 0x20_0000_0000_0000 * 0x1_0000_0000_0000_0000) by (nonlinear_arith)
        requires
            a.mantissa <= 0x20_0000_0000_0000,
            t <= 0x1_0000_0000_0000_0000,
    ;
    let x = pow2(b.exponent as nat);
    let y = pow2(a.exponent as nat);
    assert(a.mantissa as nat * y == (a.mantissa as nat * t) * x) by (nonlinear_arith)
        requires
            y == t * x,
    ;
}

/// The rounded sum of two magnitudes.
pub fn add_magnitudes(a: Magnitude, b: Magnitude, precision: u32) -> (r: Magnitude)
    requires
        operand(a, precision),
        operand(b, precision),
    ensures
        r.units() == round_units(a.units() + b.units(), 1, precision as nat),
        r.normal(precision as nat),
        r.exponent <= 9200,
{
    if a.exponent >= b.exponent {
        add_ordered(a, b, precision)
    } else {
        add_ordered(b, a, precision)
    }
}

/// Whether `a` is smaller than `b`.
pub fn less(a: Magnitude, b: Magnitude, precision: u32) -> (r: bool)
    requires
        operand(a, precision),
        operand(b, precision),
    ensures
        r == (a.units() < b.units()),
{
    proof {
        lemma_order(a, b, precision);
        lemma_order(b, a, precision);
    }
    a.exponent < b.exponent || (a.exponent == b.exponent && a.mantissa < b.mantissa)
}

/// Magnitudes are ordered by exponent, then by mantissa.
pub proof fn lemma_order(a: Magnitude, b: Magnitude, precision: u32)
    requires
        operand(a, precision),
        operand(b, precision),
    ensures
        a.exponent < b.exponent ==> a.units() < b.units(),
        a.exponent == b.exponent && a.mantissa < b.mantissa ==> a.units() < b.units(),
        a.exponent == b.exponent && a.mantissa == b.mantissa ==> a.units() == b.units(),
{
    let x = pow2(a.exponent as nat);
    lemma_pow2_pos(a.exponent as nat);
    if a.exponent < b.exponent {
        let p = precision as nat;
        lemma_pow2_unfold(p);
        lemma_pow2_adds(p, a.exponent as nat);
        lemma_pow2_adds((p - 1) as nat, b.exponent as nat);
        lemma_pow2_le((p + a.exponent) as nat, (p - 1 + b.exponent) as nat);
        let y = pow2(b.exponent as nat);
        let top = pow2(p);
        let low = pow2((p - 1) as nat);
        assert(a.mantissa as nat * x < top * x) by (nonlinear_arith)
            requires
                a.mantissa < top,
                x > 0,
        ;
        assert(b.mantissa as nat * y >= low * y) by (nonlinear_arith)
            requires
                b.mantissa >= low,
        ;
    } else if a.exponent == b.exponent && a.mantissa < b.mantissa {
        assert(a.mantissa as nat * x < b.mantissa as nat * x) by (nonlinear_arith)
            requires
                a.mantissa < b.mantissa,
                x > 0,
        ;
    }
}

/// Equal magnitudes are written alike.
pub proof fn lemma_units_injective(a: Magnitude, b: Magnitude, precision: u32)
    requires
        operand(a, precision),
        operand(b, precision),
        a.units() == b.units(),
    ensures
        a == b,
{
    lemma_order(a, b, precision);
    lemma_order(b, a, precision);
}

/// The rounded difference of a magnitude and one that is no larger.
pub fn subtract_magnitudes(a: Magnitude, b: Magnitude, precision: u32) -> (r: Magnitude)
    requires
        operand(a, precision),
        operand(b, precision),
        b.units() <= a.units(),
    ensures
        r.units() == round_units((a.units() - b.units()) as nat, 1, precision as nat),
        r.normal(precision as nat),
        r.exponent <= 9200,
{
    proof {
        lemma_order(a, b, precision);
    }
    let d: u32 = a.exponent - b.exponent;
    if d > 64 {
        proof {
            lemma_far_apart(a, b, precision);
        }
        a
    } else {
        let t = power_of_two(d);
        proof {
            lemma_aligned(a, b, precision, t as nat);
            let x = pow2(b.exponent as nat);
            lemma_pow2_pos(b.exponent as nat);
            assert(b.mantissa as nat <= a.mantissa as nat * t as nat) by (nonlinear_arith)
                requires
                    b.mantissa as nat * x <= (a.mantissa as nat * t as nat) * x,
                    x > 0,
            ;
        }
        let n: u128 = a.mantissa as u128 * t - b.mantissa as u128;
        proof {
            let x = pow2(b.exponent as nat);
            assert(n as nat * x == (a.mantissa as nat * t as nat) * x - b.mantissa as nat * x)
                by (nonlinear_arith)
                requires
                    n == a.mantissa as nat * t as nat - b.mantissa as nat,
            ;
        }
        round_magnitude(n, b.exponent as i32, precision)
    }
}

/// Every number has an integer root.
pub proof fn lemma_floor_root_exists(n: nat) -> (r: nat)
    ensures
        is_floor_root(n, r),
    decreases n,
{
    if n == 0 {
        assert(is_floor_root(0, 0)) by (nonlinear_arith);
        0
    } else {
        let s = lemma_floor_root_exists((n - 1) as nat);
        let t = s + 1;
        if t * t <= n {
            assert(t * t < (t + 1) * (t + 1)) by (nonlinear_arith);
            t
        } else {
            s
        }
    }
}

proof fn lemma_square_order(a: nat, b: nat)
    requires
        a * a < b * b,
    ensures
        a < b,
{
    if a >= b {
        assert(a * a >= b * b) by (nonlinear_arith)
            requires
                a >= b,
        ;
    }
}

/// The integer root is unique.
proof fn lemma_floor_root_is(n: nat, r: nat)
    requires
        is_floor_root(n, r),
    ensures
        floor_root(n) == r,
{
    let s = floor_root(n);
    assert(is_floor_root(n, s));
    lemma_square_order(s, r + 1);
    lemma_square_order(r, s + 1);
}

/// Only a square times a power of four is a square.
proof fn lemma_square_of_four(root: nat, y: nat, j: nat) -> (s: nat)
    requires
        root * root == y * (pow2(j) * pow2(j)),
    ensures
        s * s == y,
    decreases j,
{
    if j == 0 {
        lemma2_to64();
        assert(y * (1 * 1) == y) by (nonlinear_arith);
        root
    } else {
        lemma_pow2_unfold(j);
        let x = pow2((j - 1) as nat);
        let half = root / 2;
        let odd = root % 2;
        assert(root == 2 * half + odd);
        assert(root * root == 4 * (y * (x * x))) by (nonlinear_arith)
            requires
                root * root == y * ((2 * x) * (2 * x)),
        ;
        assert(root * root == 4 * (half * half) + odd * (4 * half + odd)) by (nonlinear_arith)
            requires
                root == 2 * half + odd,
        ;
        assert(odd == 0) by {
            if odd == 1 {
                assert(root * root == 4 * (half * half) + 4 * half + 1);
            }
        }
        assert(half * half == y * (x * x));
        lemma_square_of_four(half, y, (j - 1) as nat)
    }
}

/// The integer part of a square root.
fn integer_root(n: u128) -> (r: u128)
    requires
        n < 0x4000_0000_0000_0000_0000_0000_0000_0000,
    ensures
        is_floor_root(n as nat, r as nat),
        r < 0x8000_0000_0000_0000,
{
    let mut r: u128 = 0;
    let mut step: u128 = 0x8000_0000_0000_0000;
    let ghost mut k: nat = 63;
    proof {
        lemma2_to64_rest();
        assert(step * step == 0x4000_0000_0000_0000_0000_0000_0000_0000) by (nonlinear_arith)
            requires
                step == 0x8000_0000_0000_0000,
        ;
    }
    while step > 1
        invariant
            n < 0x4000_0000_0000_0000_0000_0000_0000_0000,
            step == pow2(k),
            r * r <= n < (r + step) * (r + step),
            r + step <= 0x8000_0000_0000_0000,
        decreases step,
    {
        proof {
            lemma2_to64();
            if k == 0 {
                assert(step == 1);
            }
            lemma_pow2_unfold(k);
            lemma_pow2_pos((k - 1) as nat);
        }
        let half = step / 2;
        let c = r + half;
        proof {
            assert(c * c <= 0x8000_0000_0000_0000 * 0x8000_0000_0000_0000) by (nonlinear_arith)
                requires
                    c <= 0x8000_0000_0000_0000,
            ;
            k = (k - 1) as nat;
        }
        if c * c <= n {
            r = c;
        }
        step = half;
    }
    proof {
        lemma_pow2_pos(k);
        assert(step == 1);
    }
    r
}

proof fn lemma_root_scaled(x: nat, y: nat, j: nat, r: nat, precision: nat)
    requires
        x == y * (pow2(j) * pow2(j)),
        is_floor_root(y, r),
        r >= pow2(precision),
        precision > 0,
    ensures
        r * r == y ==> round_root(x, precision) == scaled_round(r, 1, j as int, precision),
        r * r != y ==> round_root(x, precision) == scaled_round(
            2 * r + 1,
            1,
            j - 1,
            precision,
        ),
{
    let t = pow2(j);
    lemma_pow2_pos(j);
    if r * r == y {
        let root = r * t;
        assert(root * root == x) by (nonlinear_arith)
            requires
                root == r * t,
                x == (r * r) * (t * t),
        ;
        assert(root * root < (root + 1) * (root + 1)) by (nonlinear_arith);
        lemma_floor_root_is(x, root);
        lemma_round_units_scale(root, 1, 2, precision);
    } else {
        let root = lemma_floor_root_exists(x);
        lemma_floor_root_is(x, root);
        if root * root == x {
            let s = lemma_square_of_four(root, y, j);
            lemma_square_order(s, r + 1);
            lemma_square_order(r, s);
            assert(false);
        }
        let lo = r * t;
        let hi = (r + 1) * t;
        assert(lo * lo < (root + 1) * (root + 1)) by (nonlinear_arith)
            requires
                lo == r * t,
                r * r <= y,
                x == y * (t * t),
                x < (root + 1) * (root + 1),
        ;
        lemma_square_order(lo, root + 1);
        assert(root * root < hi * hi) by (nonlinear_arith)
            requires
                hi == (r + 1) * t,
                y < (r + 1) * (r + 1),
                x == y * (t * t),
                root * root <= x,
                t > 0,
        ;
        lemma_square_order(root, hi);
        assert(hi == lo + t) by (nonlinear_arith)
            requires
                hi == (r + 1) * t,
                lo == r * t,
        ;
        let num = 2 * root + 1;
        let den = 2 * t;
        let rest = (num - 2 * lo) as nat;
        assert(num == r * den + rest) by (nonlinear_arith)
            requires
                num == 2 * lo + rest,
                lo == r * t,
                den == 2 * t,
        ;
        lemma_scaled_round_sticky(num, den, r, rest, j as int, precision);
        lemma_scaled_halves(2 * r + 1, j as int, precision);
        lemma_round_units_scale(num, 2, t, precision);
        assert(t * num == num * t && t * 2 == den) by (nonlinear_arith)
            requires
                den == 2 * t,
        ;
    }
}

/// The rounded square root of a magnitude whose unit is `2^-unit`.
pub fn square_root(a: Magnitude, unit: u32, precision: u32) -> (r: Magnitude)
    requires
        operand(a, precision),
        a.mantissa > 0,
        126 <= unit <= 1100,
    ensures
        r.units() == round_root(a.units() * pow2(unit as nat), precision as nat),
        r.normal(precision as nat),
        r.exponent <= 9200,
{
    let len = bit_length(a.mantissa as u128);
    proof {
        lemma_mantissa_bound(a, precision);
        if len > 64 {
            lemma2_to64();
            lemma_pow2_le(64, (len - 1) as nat);
        }
    }
    let total: u32 = a.exponent + unit;
    let shift: u32 = if (total - (126 - len)) % 2 == 0 {
        126 - len
    } else {
        125 - len
    };
    let j: u32 = (total - shift) / 2;
    let t = power_of_two(shift);
    proof {
        lemma_shifted_bound(a.mantissa as nat, len as nat, (126 - len) as nat);
        lemma_pow2_unfold((126 - len) as nat);
        if shift == 125 - len {
            assert(a.mantissa as nat * (2 * t as nat) == 2 * (a.mantissa as nat * t as nat))
                by (nonlinear_arith);
        }
    }
    let y: u128 = a.mantissa as u128 * t;
    let root = integer_root(y);
    proof {
        let x = a.units() * pow2(unit as nat);
        let w = pow2(j as nat);
        lemma_pow2_adds(j as nat, j as nat);
        lemma_pow2_adds(shift as nat, (j + j) as nat);
        lemma_pow2_adds(a.exponent as nat, unit as nat);
        let ex = pow2(a.exponent as nat);
        let u = pow2(unit as nat);
        let tt = t as nat;
        assert(x == y as nat * (w * w)) by (nonlinear_arith)
            requires
                x == (a.mantissa as nat * ex) * u,
                y == a.mantissa as nat * tt,
                ex * u == tt * (w * w),
        ;
        if root < 0x20_0000_0000_0000 {
            assert((root + 1) * (root + 1) <= 0x20_0000_0000_0000 * 0x20_0000_0000_0000)
                by (nonlinear_arith)
                requires
                    root + 1 <= 0x20_0000_0000_0000,
            ;
        }
        lemma_pow2_le(precision as nat, 53);
        lemma2_to64_rest();
        lemma_root_scaled(x, y as nat, j as nat, root as nat, precision as nat);
        assert(root * root <= 0x8000_0000_0000_0000 * 0x8000_0000_0000_0000) by (nonlinear_arith)
            requires
                root <= 0x8000_0000_0000_0000,
        ;
    }
    if root * root == y {
        round_magnitude(root, j as i32, precision)
    } else {
        round_magnitude(2 * root + 1, j as i32 - 1, precision)
    }
}

} // verus!
