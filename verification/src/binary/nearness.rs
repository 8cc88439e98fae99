//! How far rounding can lead away.

use crate::binary::arithmetic::lemma_floor_root_exists;
use crate::binary::magnitude::lemma_pow2_le;
use crate::binary::rounding::{
    floor_root, gap, is_floor_root, lemma_round_units_exact, lemma_round_units_monotone,
    lemma_round_units_near, round_units,
};
use crate::binary::single::Single;
use crate::binary::value::{bounded, lemma_bounded_held, negated, product, rank, sum, Format, Value};
use vstd::arithmetic::power2::{
    lemma2_to64, lemma_pow2_adds, lemma_pow2_pos, lemma_pow2_unfold, pow2,
};
use vstd::prelude::*;

verus! {

/// A number as a count of units, each of them `2^-149`.
pub open spec fn units(s: Single) -> int {
    rank(Format::Binary32, s.value())
}

/// A number that is neither infinite nor a NaN.
pub open spec fn finite(s: Single) -> bool {
    s.value() is Finite
}

/// The magnitude of an integer.
pub open spec fn size(n: int) -> int {
    if n < 0 {
        -n
    } else {
        n
    }
}

/// What is rounded from no more than `2^276` units can be held.
pub proof fn lemma_no_overflow(negative: bool, num: nat, den: nat)
    requires
        den > 0,
        num <= pow2(276) * den,
    ensures
        bounded(Format::Binary32, negative, round_units(num, den, 24)) == (Value::Finite {
            negative,
            units: round_units(num, den, 24),
        }),
        Single::of(
            bounded(Format::Binary32, negative, round_units(num, den, 24)),
        ).value() == bounded(Format::Binary32, negative, round_units(num, den, 24)),
{
    lemma2_to64();
    lemma_round_units_exact(1, 276, den, 24);
    assert(1 * pow2(276) * den == pow2(276) * den) by (nonlinear_arith);
    lemma_round_units_monotone(num, pow2(276) * den, den, 24);
    lemma_pow2_unfold(277);
    lemma_pow2_pos(276);
    lemma_bounded_held(Format::Binary32, negative, num, den);
    Single::lemma_of_value(bounded(Format::Binary32, negative, round_units(num, den, 24)));
}

/// A sum of values is near the true sum.
proof fn lemma_sum_of_values_near(a: Value, b: Value)
    requires
        a is Finite,
        b is Finite,
        size(rank(Format::Binary32, a)) + size(rank(Format::Binary32, b)) <= pow2(276),
    ensures
        ({
            let f = Format::Binary32;
            let v = sum(f, a, b);
            let exact = rank(f, a) + rank(f, b);
            &&& v is Finite
            &&& Single::of(v).value() == v
            &&& gap(rank(f, v), exact) * 16777216 <= size(exact)
        }),
{
    let f = Format::Binary32;
    let x = a->Finite_units;
    let y = b->Finite_units;
    let one: nat = 1;
    lemma2_to64();
    assert(pow2(276) * 1 == pow2(276));
    let total = x + y;
    let rest = if x > y {
        (x - y) as nat
    } else {
        (y - x) as nat
    };
    lemma_no_overflow(a->Finite_negative, total, one);
    lemma_no_overflow(a->Finite_negative, rest, one);
    lemma_no_overflow(b->Finite_negative, rest, one);
    lemma_round_units_near(total, 1, 24);
    lemma_round_units_near(rest, 1, 24);
    lemma_no_overflow(false, 0, one);
    lemma_round_units_exact(0, 0, 1, 24);
    assert(0 * pow2(0) * 1 == 0) by (nonlinear_arith);
}

/// A sum is within one part in `2^24` of the true sum.
pub proof fn lemma_plus_near(a: Single, b: Single)
    requires
        finite(a),
        finite(b),
        size(units(a)) + size(units(b)) <= pow2(276),
    ensures
        finite(a.plus(b)),
        gap(units(a.plus(b)), units(a) + units(b)) * 16777216 <= size(units(a) + units(b)),
{
    reveal(Single::plus_spec);
    lemma_sum_of_values_near(a.value(), b.value());
}

/// A difference is within one part in `2^24` of the true difference.
pub proof fn lemma_minus_near(a: Single, b: Single)
    requires
        finite(a),
        finite(b),
        size(units(a)) + size(units(b)) <= pow2(276),
    ensures
        finite(a.minus(b)),
        gap(units(a.minus(b)), units(a) - units(b)) * 16777216 <= size(units(a) - units(b)),
{
    reveal(Single::minus_spec);
    lemma_sum_of_values_near(a.value(), negated(b.value()));
}

/// A product is within one part in `2^24` of the true product, or half a unit.
pub proof fn lemma_times_near(a: Single, b: Single)
    requires
        finite(a),
        finite(b),
        size(units(a)) * size(units(b)) <= pow2(276) * pow2(149),
    ensures
        finite(a.times(b)),
        gap(units(a.times(b)) * pow2(149), units(a) * units(b)) * 16777216 <= size(
            units(a) * units(b),
        ) + 8388608 * pow2(149),
{
    let f = Format::Binary32;
    let u = pow2(149);
    let x = a.value()->Finite_units;
    let y = b.value()->Finite_units;
    let neg = a.value()->Finite_negative != b.value()->Finite_negative;
    lemma2_to64();
    lemma_pow2_pos(149);
    reveal(Single::times_spec);
    assert(x * y >= 0) by (nonlinear_arith)
        requires
            x >= 0,
            y >= 0,
    ;
    lemma_no_overflow(neg, x * y, u);
    lemma_round_units_near(x * y, u, 24);
    let r = round_units(x * y, u, 24);
    assert(u * 8388608 == 8388608 * u);
    assert(units(a) == x || units(a) == -x);
    assert(units(b) == y || units(b) == -y);
    assert(units(a) * units(b) == (if neg {
        -(x * y)
    } else {
        x * y as int
    })) by (nonlinear_arith)
        requires
            neg ==> (units(a) == x && units(b) == -y) || (units(a) == -x && units(b) == y),
            !neg ==> (units(a) == x && units(b) == y) || (units(a) == -x && units(b) == -y),
    ;
    assert(-(r as int) * u == -(r * u)) by (nonlinear_arith);
}

/// A quotient is within one part in `2^24` of the true quotient, or half a unit.
pub proof fn lemma_over_near(a: Single, b: Single)
    requires
        finite(a),
        finite(b),
        units(b) > 0,
        size(units(a)) * pow2(149) <= pow2(276) * units(b),
    ensures
        finite(a.over(b)),
        gap(units(a.over(b)) * units(b), units(a) * pow2(149)) * 16777216 <= size(units(a))
            * pow2(149) + 8388608 * units(b),
{
    let f = Format::Binary32;
    let u = pow2(149);
    let x = a.value()->Finite_units;
    let y = b.value()->Finite_units;
    let neg = a.value()->Finite_negative != b.value()->Finite_negative;
    lemma2_to64();
    lemma_pow2_pos(149);
    reveal(Single::over_spec);
    assert(y == units(b));
    lemma_no_overflow(neg, x * u, y);
    lemma_round_units_near(x * u, y, 24);
    let r = round_units(x * u, y, 24);
    assert(y * 8388608 == 8388608 * y);
    assert(-(r as int) * y == -(r * y)) by (nonlinear_arith);
    assert(-(x as int) * u == -(x * u)) by (nonlinear_arith);
}

/// An integer is within one part in `2^24` of itself.
pub proof fn lemma_natural_near(n: nat)
    requires
        n <= 0x1_0000_0000_0000_0000,
    ensures
        finite(Single::natural(n)),
        units(Single::natural(n)) >= 0,
        gap(units(Single::natural(n)), (n * pow2(149)) as int) * 16777216 <= n * pow2(149),
        n >= 1 ==> units(Single::natural(n)) >= pow2(149),
        units(Single::natural(n)) <= 2 * (n * pow2(149)),
        n * pow2(149) <= 2 * units(Single::natural(n)),
        n == 0 ==> units(Single::natural(n)) == 0,
{
    let u = pow2(149);
    let a = n * u;
    lemma2_to64();
    lemma_pow2_pos(149);
    lemma_pow2_adds(64, 149);
    lemma_pow2_le(213, 276);
    let top = pow2(276);
    assert(a <= top) by (nonlinear_arith)
        requires
            a == n * u,
            n <= 0x1_0000_0000_0000_0000,
            0x1_0000_0000_0000_0000 * u <= top,
    ;
    reveal(Single::natural);
    let one: nat = 1;
    assert(top * one == top);
    lemma_no_overflow(false, a, one);
    lemma_round_units_near(a, 1, 24);
    if n >= 1 {
        assert(a >= u) by (nonlinear_arith)
            requires
                a == n * u,
                n >= 1,
        ;
        lemma_round_units_exact(1, 149, 1, 24);
        assert(1 * u * 1 == u);
        lemma_round_units_monotone(u, a, 1, 24);
    } else {
        assert(0 * u == 0);
    }
}

/// The root of a number, squared, is within one part in `2^21` of the number.
#[verifier::rlimit(40)]
pub proof fn lemma_square_root_near(s: Single)
    requires
        finite(s),
        units(s) >= 0,
    ensures
        finite(s.square_root()),
        units(s.square_root()) >= 0,
        gap(units(s.square_root()) * units(s.square_root()), units(s) * pow2(149)) * 2097152
            <= units(s) * pow2(149),
        !s.value()->Finite_negative ==> !s.square_root().value()->Finite_negative,
{
    let f = Format::Binary32;
    let u = pow2(149);
    let x = s.value()->Finite_units;
    lemma2_to64();
    lemma_pow2_pos(149);
    reveal(Single::square_root_spec);
    if x == 0 {
        s.lemma_value_held();
        Single::lemma_of_value(s.value());
        assert(0 * u == 0 && 0 * 0 == 0);
    } else {
        let n = x * u;
        let m = floor_root(n);
        let known = lemma_floor_root_exists(n);
        assert(is_floor_root(n, m));
        let k: nat = if m * m == n {
            2 * m
        } else {
            2 * m + 1
        };
        let r = round_units(k, 2, 24);
        s.lemma_value_held();
        lemma_pow2_adds(149, 277);
        lemma_pow2_adds(213, 213);
        lemma_pow2_adds(75, 74);
        lemma_pow2_adds(50, 24);
        lemma_pow2_le(50, 213);
        lemma_pow2_le(213, 275);
        lemma_pow2_unfold(276);
        let low = pow2(74);
        let high = pow2(213);
        assert(n < high * high) by (nonlinear_arith)
            requires
                n == x * u,
                x < pow2(277),
                u * pow2(277) == high * high,
                u > 0,
        ;
        assert(m < high) by (nonlinear_arith)
            requires
                m * m <= n,
                n < high * high,
        ;
        assert(n >= u) by (nonlinear_arith)
            requires
                n == x * u,
                x >= 1,
        ;
        lemma_pow2_adds(74, 74);
        lemma_pow2_unfold(149);
        assert(m >= low) by (nonlinear_arith)
            requires
                n < (m + 1) * (m + 1),
                n >= 2 * (low * low),
                low >= 1,
        ;
        assert(low == 16777216 * pow2(50));
        assert(pow2(50) >= 16777216) by {
            lemma_pow2_le(24, 50);
        }
        assert(k <= pow2(276) * 2);
        lemma_no_overflow(false, k, 2);
        lemma_round_units_near(k, 2, 24);
        assert(units(s.square_root()) == r);
        let mi = m as int;
        let ri = r as int;
        assert(gap((r * 2) as int, k as int) * 16777216 <= k + 2 * 8388608);
        assert(gap(ri, mi) * 8388608 <= mi);
        let a = ri * ri;
        let b = mi * mi;
        let g = gap(ri, mi);
        assert(ri + mi <= 3 * mi);
        assert(gap(a, b) * 8388608 <= 3 * b) by (nonlinear_arith)
            requires
                a == ri * ri,
                b == mi * mi,
                g * 8388608 <= mi,
                g == ri - mi || g == mi - ri,
                g >= 0,
                0 <= ri + mi <= 3 * mi,
                mi >= 0,
                gap(a, b) == a - b || gap(a, b) == b - a,
        ;
        assert(b <= n <= b + 2 * mi) by (nonlinear_arith)
            requires
                b == mi * mi,
                m * m <= n < (m + 1) * (m + 1),
                mi == m,
        ;
        assert(2 * mi * 16777216 <= b) by (nonlinear_arith)
            requires
                b == mi * mi,
                mi >= 33554432,
        ;
        assert(gap(a, n as int) * 2097152 <= n);
    }
}

/// What a sum, a difference and a product are.
#[verifier::rlimit(40)]
pub proof fn lemma_values(a: Single, b: Single)
    ensures
        a.plus(b).value() == sum(Format::Binary32, a.value(), b.value()),
        a.minus(b).value() == sum(Format::Binary32, a.value(), negated(b.value())),
        a.times(b).value() == product(Format::Binary32, a.value(), b.value()),
{
    let f = Format::Binary32;
    let u = pow2(149);
    lemma_pow2_pos(149);
    lemma_pow2_pos(277);
    lemma2_to64();
    reveal(Single::plus_spec);
    reveal(Single::minus_spec);
    reveal(Single::times_spec);
    a.lemma_value_held();
    b.lemma_value_held();
    let (v, w) = (a.value(), b.value());
    lemma_round_units_exact(0, 0, 1, 24);
    assert(0 * pow2(0) * 1 == 0) by (nonlinear_arith);
    lemma_bounded_held(f, false, 0, 1);
    if let (Value::Finite { negative: x, units: m }, Value::Finite { negative: y, units: n }) = (
        v,
        w,
    ) {
        lemma_bounded_held(f, x, m + n, 1);
        lemma_bounded_held(f, x != y, m * n, u);
        if m >= n {
            lemma_bounded_held(f, x, (m - n) as nat, 1);
        } else {
            lemma_bounded_held(f, y, (n - m) as nat, 1);
            lemma_bounded_held(f, !y, (n - m) as nat, 1);
        }
    }
    Single::lemma_of_value(sum(f, v, w));
    Single::lemma_of_value(sum(f, v, negated(w)));
    Single::lemma_of_value(product(f, v, w));
}

/// Of two numbers that are not negative, the one whose bits come first is not larger.
pub proof fn lemma_rank_order(a: Single, b: Single)
    requires
        a.bits <= b.bits < 0x7f80_0000,
    ensures
        finite(a) && finite(b),
        0 <= units(a) <= units(b),
{
    let (ea, eb) = (a.bits / 0x80_0000, b.bits / 0x80_0000);
    let (ma, mb) = (a.bits % 0x80_0000, b.bits % 0x80_0000);
    lemma2_to64();
    if ea == eb {
        let e = pow2(
            if ea == 0 {
                0nat
            } else {
                (ea - 1) as nat
            },
        );
        assert(ma * e <= mb * e && (0x80_0000 + ma) * e <= (0x80_0000 + mb) * e) by (nonlinear_arith)
            requires
                ma <= mb,
                e >= 0,
        ;
    } else {
        assert(ea < eb);
        let x = pow2((eb - 1) as nat);
        lemma_pow2_pos((eb - 1) as nat);
        assert((0x80_0000 + mb) * x >= 0x80_0000 * x) by (nonlinear_arith);
        if ea == 0 {
            lemma_pow2_le(0, (eb - 1) as nat);
            assert(0x80_0000 * x >= 0x80_0000) by (nonlinear_arith)
                requires
                    x >= 1,
            ;
            assert(ma * 1 == ma);
        } else {
            let y = pow2((ea - 1) as nat);
            lemma_pow2_le(ea as nat, (eb - 1) as nat);
            lemma_pow2_unfold(ea as nat);
            lemma_pow2_pos((ea - 1) as nat);
            assert((0x80_0000 + ma) * y <= 0x80_0000 * x) by (nonlinear_arith)
                requires
                    ma < 0x80_0000,
                    2 * y <= x,
                    y > 0,
            ;
        }
    }
}

} // verus!
