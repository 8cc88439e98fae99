//! How far rounding can lead away in double precision.

use crate::binary::double::Double;
use crate::binary::magnitude::lemma_pow2_le;
use crate::binary::nearness::{finite, lemma_no_overflow, size, units};
use crate::binary::rounding::{
    gap, lemma_round_units_exact, lemma_round_units_monotone, lemma_round_units_near, round_units,
    written_as,
};
use crate::binary::single::Single;
use crate::binary::value::{
    bounded, lemma_bounded_held, lemma_naturals, lemma_small_natural, of_natural, rank, Format,
    Value,
};
use vstd::arithmetic::power2::{
    lemma2_to64, lemma2_to64_rest, lemma_pow2_adds, lemma_pow2_pos, lemma_pow2_unfold, pow2,
};
use vstd::prelude::*;

verus! {

/// A number as a count of units, each of them `2^-1074`.
pub open spec fn units64(d: Double) -> int {
    rank(Format::Binary64, d.value())
}

/// A number that is neither infinite nor a NaN.
pub open spec fn finite64(d: Double) -> bool {
    d.value() is Finite
}

/// What is rounded from no more than `2^2097` units can be held.
proof fn lemma_no_overflow64(negative: bool, num: nat, den: nat)
    requires
        den > 0,
        num <= pow2(2097) * den,
    ensures
        bounded(Format::Binary64, negative, round_units(num, den, 53)) == (Value::Finite {
            negative,
            units: round_units(num, den, 53),
        }),
        Double::of(
            bounded(Format::Binary64, negative, round_units(num, den, 53)),
        ).value() == bounded(Format::Binary64, negative, round_units(num, den, 53)),
{
    lemma2_to64();
    lemma_pow2_pos(53);
    lemma_pow2_unfold(53);
    lemma_pow2_pos(52);
    lemma_round_units_exact(1, 2097, den, 53);
    assert(1 * pow2(2097) * den == pow2(2097) * den) by (nonlinear_arith);
    lemma_round_units_monotone(num, pow2(2097) * den, den, 53);
    lemma_pow2_unfold(2098);
    lemma_pow2_pos(2097);
    lemma_bounded_held(Format::Binary64, negative, num, den);
    Double::lemma_of_value(bounded(Format::Binary64, negative, round_units(num, den, 53)));
}

/// A sum is within one part in `2^53` of the true sum.
pub proof fn lemma_plus_near64(a: Double, b: Double)
    requires
        finite64(a),
        finite64(b),
        size(units64(a)) + size(units64(b)) <= pow2(2097),
    ensures
        finite64(a.plus(b)),
        gap(units64(a.plus(b)), units64(a) + units64(b)) * 0x20_0000_0000_0000 <= size(
            units64(a) + units64(b),
        ),
{
    let f = Format::Binary64;
    reveal(Double::plus_spec);
    let x = a.value()->Finite_units;
    let y = b.value()->Finite_units;
    let one: nat = 1;
    lemma2_to64();
    lemma_pow2_53();
    assert(pow2(2097) * 1 == pow2(2097));
    let total = x + y;
    let rest = if x > y {
        (x - y) as nat
    } else {
        (y - x) as nat
    };
    let an = a.value()->Finite_negative;
    let bn = b.value()->Finite_negative;
    lemma_no_overflow64(an, total, one);
    lemma_no_overflow64(an, rest, one);
    lemma_no_overflow64(bn, rest, one);
    lemma_round_units_near(total, 1, 53);
    lemma_round_units_near(rest, 1, 53);
    lemma_no_overflow64(false, 0, one);
    lemma_round_units_exact(0, 0, 1, 53);
    assert(0 * pow2(0) * 1 == 0) by (nonlinear_arith);
}

proof fn lemma_pow2_53()
    ensures
        pow2(53) == 0x20_0000_0000_0000,
        pow2(52) == 0x10_0000_0000_0000,
{
    lemma2_to64();
    lemma2_to64_rest();
}

/// A product is within one part in `2^53` of the true product, or half a unit.
pub proof fn lemma_times_near64(a: Double, b: Double)
    requires
        finite64(a),
        finite64(b),
        size(units64(a)) * size(units64(b)) <= pow2(2097) * pow2(1074),
    ensures
        finite64(a.times(b)),
        gap(units64(a.times(b)) * pow2(1074), units64(a) * units64(b)) * 0x20_0000_0000_0000
            <= size(units64(a) * units64(b)) + 0x10_0000_0000_0000 * pow2(1074),
{
    let u = pow2(1074);
    let x = a.value()->Finite_units;
    let y = b.value()->Finite_units;
    let neg = a.value()->Finite_negative != b.value()->Finite_negative;
    lemma_pow2_53();
    lemma_pow2_pos(1074);
    reveal(Double::times_spec);
    assert(x * y >= 0) by (nonlinear_arith)
        requires
            x >= 0,
            y >= 0,
    ;
    lemma_no_overflow64(neg, x * y, u);
    lemma_round_units_near(x * y, u, 53);
    let r = round_units(x * y, u, 53);
    assert(u * 0x10_0000_0000_0000 == 0x10_0000_0000_0000 * u);
    assert(units64(a) == x || units64(a) == -x);
    assert(units64(b) == y || units64(b) == -y);
    assert(units64(a) * units64(b) == (if neg {
        -(x * y)
    } else {
        x * y as int
    })) by (nonlinear_arith)
        requires
            neg ==> (units64(a) == x && units64(b) == -y) || (units64(a) == -x && units64(b) == y),
            !neg ==> (units64(a) == x && units64(b) == y) || (units64(a) == -x && units64(b)
                == -y),
    ;
    assert(-(r as int) * u == -(r * u)) by (nonlinear_arith);
}

/// A quotient is within one part in `2^53` of the true quotient, or half a unit.
pub proof fn lemma_over_near64(a: Double, b: Double)
    requires
        finite64(a),
        finite64(b),
        units64(b) > 0,
        size(units64(a)) * pow2(1074) <= pow2(2097) * units64(b),
    ensures
        finite64(a.over(b)),
        gap(units64(a.over(b)) * units64(b), units64(a) * pow2(1074)) * 0x20_0000_0000_0000 <= size(
            units64(a),
        ) * pow2(1074) + 0x10_0000_0000_0000 * units64(b),
{
    let u = pow2(1074);
    let x = a.value()->Finite_units;
    let y = b.value()->Finite_units;
    let neg = a.value()->Finite_negative != b.value()->Finite_negative;
    lemma_pow2_53();
    lemma_pow2_pos(1074);
    reveal(Double::over_spec);
    assert(y == units64(b));
    lemma_no_overflow64(neg, x * u, y);
    lemma_round_units_near(x * u, y, 53);
    let r = round_units(x * u, y, 53);
    assert(y * 0x10_0000_0000_0000 == 0x10_0000_0000_0000 * y);
    assert(-(r as int) * y == -(r * y)) by (nonlinear_arith);
    assert(-(x as int) * u == -(x * u)) by (nonlinear_arith);
}

/// A number that is narrowed to single precision is within one part in `2^24` of what
/// it was, or half a unit of single precision.
pub proof fn lemma_narrowed_near(d: Double)
    requires
        finite64(d),
        size(units64(d)) <= pow2(276) * pow2(925),
    ensures
        finite(Single::narrowed(d)),
        gap(units(Single::narrowed(d)) * pow2(925), units64(d)) * 16777216 <= size(units64(d))
            + 8388608 * pow2(925),
{
    let c = pow2(925);
    let x = d.value()->Finite_units;
    let neg = d.value()->Finite_negative;
    lemma2_to64();
    lemma_pow2_pos(925);
    reveal(Single::narrowed);
    lemma_no_overflow(neg, x, c);
    lemma_round_units_near(x, c, 24);
    let r = round_units(x, c, 24);
    assert(c * 8388608 == 8388608 * c);
    assert(-(r as int) * c == -(r * c)) by (nonlinear_arith);
}

/// An integer of no more than 53 digits is itself.
pub proof fn lemma_natural_exact64(n: nat)
    requires
        n < 0x20_0000_0000_0000,
    ensures
        finite64(Double::natural(n)),
        units64(Double::natural(n)) == n * pow2(1074),
{
    let f = Format::Binary64;
    lemma_pow2_53();
    reveal(Double::natural);
    lemma_small_natural(f, n);
    lemma_naturals(f, n, n);
    Double::lemma_of_value(of_natural(f, n));
}

/// A number of single precision is itself in double precision.
pub proof fn lemma_widened(s: Single)
    requires
        finite(s),
    ensures
        finite64(Double::widened(s)),
        units64(Double::widened(s)) == units(s) * pow2(925),
{
    let c = pow2(925);
    lemma_pow2_pos(925);
    lemma_pow2_53();
    lemma2_to64();
    s.lemma_value_held();
    let v = s.value()->Finite_units;
    let negative = s.value()->Finite_negative;
    let (m, e) = choose|m: nat, e: nat| #[trigger] written_as(v, m, e, 24);
    let wide = v * c;
    lemma_pow2_adds(e, 925);
    assert(m * pow2(e + 925) == wide) by (nonlinear_arith)
        requires
            wide == v * c,
            v == m * pow2(e),
            pow2(e + 925) == pow2(e) * c,
    ;
    lemma_round_units_exact(m, e + 925, 1, 53);
    assert(m * pow2(e + 925) * 1 == wide);
    lemma_pow2_adds(277, 925);
    lemma_pow2_le(1202, 2098);
    assert(wide < pow2(1202)) by (nonlinear_arith)
        requires
            wide == v * c,
            v < pow2(277),
            pow2(1202) == pow2(277) * c,
            c > 0,
    ;
    lemma_bounded_held(Format::Binary64, negative, wide, 1);
    Double::lemma_of_value(Value::Finite { negative, units: wide });
    assert(-(v as int) * c == -(v * c)) by (nonlinear_arith);
}

} // verus!
