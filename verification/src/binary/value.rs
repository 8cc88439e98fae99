//! What a floating-point value is, what each operation gives, and the
//! operations on unpacked values.

use crate::binary::arithmetic::{
    add_magnitudes, divide, less, multiply, square_root, subtract_magnitudes,
};
use crate::binary::magnitude::{lemma_pow2_le, power_of_two, round_magnitude, Magnitude};
use crate::binary::rounding::{
    lemma_round_units_exact, lemma_round_units_monotone, lemma_round_units_written, round_root,
    round_units, written_as,
};
use vstd::arithmetic::div_mod::{
    lemma_fundamental_div_mod, lemma_fundamental_div_mod_converse, lemma_mod_bound,
};
use vstd::arithmetic::power2::{
    lemma2_to64, lemma2_to64_rest, lemma_pow2_adds, lemma_pow2_pos, lemma_pow2_unfold, pow2,
};
use vstd::prelude::*;

verus! {

/// The two interchange formats in use.
#[derive(Clone, Copy, Debug, PartialEq, Eq, Structural)]
pub enum Format {
    /// 24 significant digits; the unit is `2^-149`.
    Binary32,
    /// 53 significant digits; the unit is `2^-1074`.
    Binary64,
}

impl Format {
    /// Significant binary digits.
    pub open spec fn precision(self) -> nat {
        match self {
            Format::Binary32 => 24,
            Format::Binary64 => 53,
        }
    }

    /// The smallest positive value is `2^-unit`.
    pub open spec fn unit(self) -> nat {
        match self {
            Format::Binary32 => 149,
            Format::Binary64 => 1074,
        }
    }

    /// Finite magnitudes lie below `2^top` units.
    pub open spec fn top(self) -> nat {
        match self {
            Format::Binary32 => 277,
            Format::Binary64 => 2098,
        }
    }

    fn digits(self) -> (r: u32)
        ensures
            r == self.precision(),
    {
        match self {
            Format::Binary32 => 24,
            Format::Binary64 => 53,
        }
    }

    fn unit_exponent(self) -> (r: u32)
        ensures
            r == self.unit(),
    {
        match self {
            Format::Binary32 => 149,
            Format::Binary64 => 1074,
        }
    }

    fn largest_exponent(self) -> (r: u32)
        ensures
            r == self.top() - self.precision(),
    {
        match self {
            Format::Binary32 => 253,
            Format::Binary64 => 2045,
        }
    }
}

/// A floating-point value as mathematics sees it; a finite one is a signed count
/// of units, and zero keeps its sign.
pub enum Value {
    Nan,
    Infinite { negative: bool },
    Finite { negative: bool, units: nat },
}

/// The value with that sign and that rounded magnitude.
pub open spec fn bounded(f: Format, negative: bool, units: nat) -> Value {
    if units >= pow2(f.top()) {
        Value::Infinite { negative }
    } else {
        Value::Finite { negative, units }
    }
}

/// The value with the opposite sign.
pub open spec fn negated(a: Value) -> Value {
    match a {
        Value::Nan => Value::Nan,
        Value::Infinite { negative } => Value::Infinite { negative: !negative },
        Value::Finite { negative, units } => Value::Finite { negative: !negative, units },
    }
}

/// `a + b`.
pub open spec fn sum(f: Format, a: Value, b: Value) -> Value {
    match (a, b) {
        (Value::Nan, _) => Value::Nan,
        (_, Value::Nan) => Value::Nan,
        (Value::Infinite { negative: x }, Value::Infinite { negative: y }) => if x == y {
            a
        } else {
            Value::Nan
        },
        (Value::Infinite { .. }, _) => a,
        (_, Value::Infinite { .. }) => b,
        (
            Value::Finite { negative: x, units: u },
            Value::Finite { negative: y, units: v },
        ) => if x == y {
            bounded(f, x, round_units(u + v, 1, f.precision()))
        } else if u == v {
            Value::Finite { negative: false, units: 0 }
        } else if u > v {
            bounded(f, x, round_units((u - v) as nat, 1, f.precision()))
        } else {
            bounded(f, y, round_units((v - u) as nat, 1, f.precision()))
        },
    }
}

/// `a * b`.
pub open spec fn product(f: Format, a: Value, b: Value) -> Value {
    match (a, b) {
        (Value::Nan, _) => Value::Nan,
        (_, Value::Nan) => Value::Nan,
        (Value::Infinite { negative: x }, Value::Infinite { negative: y }) => Value::Infinite {
            negative: x != y,
        },
        (Value::Infinite { negative: x }, Value::Finite { negative: y, units }) => if units == 0 {
            Value::Nan
        } else {
            Value::Infinite { negative: x != y }
        },
        (Value::Finite { negative: x, units }, Value::Infinite { negative: y }) => if units == 0 {
            Value::Nan
        } else {
            Value::Infinite { negative: x != y }
        },
        (
            Value::Finite { negative: x, units: u },
            Value::Finite { negative: y, units: v },
        ) => bounded(f, x != y, round_units(u * v, pow2(f.unit()), f.precision())),
    }
}

/// `a / b`.
pub open spec fn quotient(f: Format, a: Value, b: Value) -> Value {
    match (a, b) {
        (Value::Nan, _) => Value::Nan,
        (_, Value::Nan) => Value::Nan,
        (Value::Infinite { .. }, Value::Infinite { .. }) => Value::Nan,
        (Value::Infinite { negative: x }, Value::Finite { negative: y, .. }) => Value::Infinite {
            negative: x != y,
        },
        (Value::Finite { negative: x, .. }, Value::Infinite { negative: y }) => Value::Finite {
            negative: x != y,
            units: 0,
        },
        (
            Value::Finite { negative: x, units: u },
            Value::Finite { negative: y, units: v },
        ) => if v == 0 {
            if u == 0 {
                Value::Nan
            } else {
                Value::Infinite { negative: x != y }
            }
        } else {
            bounded(f, x != y, round_units(u * pow2(f.unit()), v, f.precision()))
        },
    }
}

/// The square root of `a`.
pub open spec fn root(f: Format, a: Value) -> Value {
    match a {
        Value::Nan => Value::Nan,
        Value::Infinite { negative } => if negative {
            Value::Nan
        } else {
            a
        },
        Value::Finite { negative, units } => if units == 0 {
            a
        } else if negative {
            Value::Nan
        } else {
            bounded(f, false, round_root(units * pow2(f.unit()), f.precision()))
        },
    }
}

/// The value nearest to the integer `n`.
pub open spec fn of_natural(f: Format, n: nat) -> Value {
    bounded(f, false, round_units(n * pow2(f.unit()), 1, f.precision()))
}

/// The position of a value that is a number on the line from minus to plus
/// infinity; the two zeros share one.
pub open spec fn rank(f: Format, a: Value) -> int {
    match a {
        Value::Nan => 0,
        Value::Infinite { negative } => if negative {
            -(pow2(f.top()) as int)
        } else {
            pow2(f.top()) as int
        },
        Value::Finite { negative, units } => if negative {
            -(units as int)
        } else {
            units as int
        },
    }
}

/// `a < b`: never with a NaN.
pub open spec fn below(f: Format, a: Value, b: Value) -> bool {
    a !is Nan && b !is Nan && rank(f, a) < rank(f, b)
}

/// `a <= b`: never with a NaN.
pub open spec fn at_most(f: Format, a: Value, b: Value) -> bool {
    a !is Nan && b !is Nan && rank(f, a) <= rank(f, b)
}

/// An unpacked value.
#[derive(Clone, Copy, Debug, PartialEq, Eq, Structural)]
pub enum Unpacked {
    Nan,
    Infinite { negative: bool },
    Finite { negative: bool, magnitude: Magnitude },
}

impl Unpacked {
    /// The value that is unpacked.
    pub open spec fn value(self) -> Value {
        match self {
            Unpacked::Nan => Value::Nan,
            Unpacked::Infinite { negative } => Value::Infinite { negative },
            Unpacked::Finite { negative, magnitude } => Value::Finite {
                negative,
                units: magnitude.units(),
            },
        }
    }

    /// A finite magnitude is one of the format.
    pub open spec fn fits(self, f: Format) -> bool {
        match self {
            Unpacked::Finite { magnitude, .. } => {
                &&& magnitude.normal(f.precision())
                &&& magnitude.exponent <= f.top() - f.precision()
            },
            _ => true,
        }
    }
}

/// A normal magnitude is finite exactly up to the largest exponent.
pub proof fn lemma_bounded_by_exponent(f: Format, m: Magnitude)
    requires
        m.normal(f.precision()),
    ensures
        m.units() < pow2(f.top()) <==> m.exponent <= f.top() - f.precision(),
{
    let p = f.precision();
    let x = pow2(m.exponent as nat);
    lemma_pow2_pos(m.exponent as nat);
    if m.exponent <= f.top() - p {
        lemma_pow2_adds(p, m.exponent as nat);
        lemma_pow2_le(p + m.exponent as nat, f.top());
        let top = pow2(p);
        assert(m.mantissa as nat * x < top * x) by (nonlinear_arith)
            requires
                m.mantissa < top,
                x > 0,
        ;
    } else {
        lemma_pow2_adds((p - 1) as nat, m.exponent as nat);
        lemma_pow2_le(f.top(), (p - 1 + m.exponent) as nat);
        let low = pow2((p - 1) as nat);
        assert(m.mantissa as nat * x >= low * x) by (nonlinear_arith)
            requires
                m.mantissa >= low,
        ;
    }
}

fn unpacked(f: Format, negative: bool, magnitude: Magnitude) -> (r: Unpacked)
    requires
        magnitude.normal(f.precision()),
    ensures
        r.value() == bounded(f, negative, magnitude.units()),
        r.fits(f),
{
    proof {
        lemma_bounded_by_exponent(f, magnitude);
    }
    if magnitude.exponent > f.largest_exponent() {
        Unpacked::Infinite { negative }
    } else {
        Unpacked::Finite { negative, magnitude }
    }
}

/// `a + b`.
pub fn add_values(f: Format, a: Unpacked, b: Unpacked) -> (r: Unpacked)
    requires
        a.fits(f),
        b.fits(f),
    ensures
        r.value() == sum(f, a.value(), b.value()),
        r.fits(f),
{
    match (a, b) {
        (Unpacked::Nan, _) => Unpacked::Nan,
        (_, Unpacked::Nan) => Unpacked::Nan,
        (Unpacked::Infinite { negative: x }, Unpacked::Infinite { negative: y }) => if x == y {
            a
        } else {
            Unpacked::Nan
        },
        (Unpacked::Infinite { .. }, Unpacked::Finite { .. }) => a,
        (Unpacked::Finite { .. }, Unpacked::Infinite { .. }) => b,
        (
            Unpacked::Finite { negative: x, magnitude: m },
            Unpacked::Finite { negative: y, magnitude: n },
        ) => {
            let p = f.digits();
            if x == y {
                unpacked(f, x, add_magnitudes(m, n, p))
            } else if less(n, m, p) {
                unpacked(f, x, subtract_magnitudes(m, n, p))
            } else if less(m, n, p) {
                unpacked(f, y, subtract_magnitudes(n, m, p))
            } else {
                proof {
                    lemma_zero_units();
                    lemma_pow2_pos(f.precision());
                }
                Unpacked::Finite {
                    negative: false,
                    magnitude: Magnitude { mantissa: 0, exponent: 0 },
                }
            }
        },
    }
}

proof fn lemma_zero_units()
    ensures
        (Magnitude { mantissa: 0, exponent: 0 }).units() == 0,
{
    assert(0 * pow2(0) == 0);
}

/// A magnitude is zero exactly if its mantissa is.
pub proof fn lemma_units_zero(m: Magnitude)
    ensures
        m.units() == 0 <==> m.mantissa == 0,
{
    lemma_pow2_pos(m.exponent as nat);
    let x = pow2(m.exponent as nat);
    assert(m.mantissa as nat * x == 0 <==> m.mantissa == 0) by (nonlinear_arith)
        requires
            x > 0,
    ;
}

/// `a * b`.
pub fn multiply_values(f: Format, a: Unpacked, b: Unpacked) -> (r: Unpacked)
    requires
        a.fits(f),
        b.fits(f),
    ensures
        r.value() == product(f, a.value(), b.value()),
        r.fits(f),
{
    match (a, b) {
        (Unpacked::Nan, _) => Unpacked::Nan,
        (_, Unpacked::Nan) => Unpacked::Nan,
        (
            Unpacked::Infinite { negative: x },
            Unpacked::Infinite { negative: y },
        ) => Unpacked::Infinite { negative: x != y },
        (Unpacked::Infinite { negative: x }, Unpacked::Finite { negative: y, magnitude: m }) => {
            proof {
                lemma_units_zero(m);
            }
            if m.mantissa == 0 {
                Unpacked::Nan
            } else {
                Unpacked::Infinite { negative: x != y }
            }
        },
        (Unpacked::Finite { negative: x, magnitude: m }, Unpacked::Infinite { negative: y }) => {
            proof {
                lemma_units_zero(m);
            }
            if m.mantissa == 0 {
                Unpacked::Nan
            } else {
                Unpacked::Infinite { negative: x != y }
            }
        },
        (
            Unpacked::Finite { negative: x, magnitude: m },
            Unpacked::Finite { negative: y, magnitude: n },
        ) => unpacked(f, x != y, multiply(m, n, f.unit_exponent(), f.digits())),
    }
}

/// `a / b`.
pub fn divide_values(f: Format, a: Unpacked, b: Unpacked) -> (r: Unpacked)
    requires
        a.fits(f),
        b.fits(f),
    ensures
        r.value() == quotient(f, a.value(), b.value()),
        r.fits(f),
{
    match (a, b) {
        (Unpacked::Nan, _) => Unpacked::Nan,
        (_, Unpacked::Nan) => Unpacked::Nan,
        (Unpacked::Infinite { .. }, Unpacked::Infinite { .. }) => Unpacked::Nan,
        (
            Unpacked::Infinite { negative: x },
            Unpacked::Finite { negative: y, .. },
        ) => Unpacked::Infinite { negative: x != y },
        (Unpacked::Finite { negative: x, .. }, Unpacked::Infinite { negative: y }) => {
            proof {
                lemma_zero_units();
                lemma_pow2_pos(f.precision());
            }
            Unpacked::Finite {
                negative: x != y,
                magnitude: Magnitude { mantissa: 0, exponent: 0 },
            }
        },
        (
            Unpacked::Finite { negative: x, magnitude: m },
            Unpacked::Finite { negative: y, magnitude: n },
        ) => {
            proof {
                lemma_units_zero(m);
                lemma_units_zero(n);
            }
            if n.mantissa == 0 {
                if m.mantissa == 0 {
                    Unpacked::Nan
                } else {
                    Unpacked::Infinite { negative: x != y }
                }
            } else {
                unpacked(f, x != y, divide(m, n, f.unit_exponent(), f.digits()))
            }
        },
    }
}

/// The square root of `a`.
pub fn root_of_value(f: Format, a: Unpacked) -> (r: Unpacked)
    requires
        a.fits(f),
    ensures
        r.value() == root(f, a.value()),
        r.fits(f),
{
    match a {
        Unpacked::Nan => Unpacked::Nan,
        Unpacked::Infinite { negative } => if negative {
            Unpacked::Nan
        } else {
            a
        },
        Unpacked::Finite { negative, magnitude: m } => {
            proof {
                lemma_units_zero(m);
            }
            if m.mantissa == 0 {
                a
            } else if negative {
                Unpacked::Nan
            } else {
                unpacked(f, false, square_root(m, f.unit_exponent(), f.digits()))
            }
        },
    }
}

/// The value nearest to `n`.
pub fn value_of_natural(f: Format, n: u64) -> (r: Unpacked)
    ensures
        r.value() == of_natural(f, n as nat),
        r.fits(f),
{
    unpacked(f, false, round_magnitude(n as u128, f.unit_exponent() as i32, f.digits()))
}

/// Whether `a < b`.
pub fn value_below(f: Format, a: Unpacked, b: Unpacked) -> (r: bool)
    requires
        a.fits(f),
        b.fits(f),
    ensures
        r == below(f, a.value(), b.value()),
{
    proof {
        lemma_pow2_pos(f.top());
        if let Unpacked::Finite { magnitude, .. } = a {
            lemma_bounded_by_exponent(f, magnitude);
            lemma_units_zero(magnitude);
        }
        if let Unpacked::Finite { magnitude, .. } = b {
            lemma_bounded_by_exponent(f, magnitude);
            lemma_units_zero(magnitude);
        }
    }
    match (a, b) {
        (Unpacked::Nan, _) => false,
        (_, Unpacked::Nan) => false,
        (Unpacked::Infinite { negative: x }, Unpacked::Infinite { negative: y }) => x && !y,
        (Unpacked::Infinite { negative: x }, Unpacked::Finite { .. }) => x,
        (Unpacked::Finite { .. }, Unpacked::Infinite { negative: y }) => !y,
        (
            Unpacked::Finite { negative: x, magnitude: m },
            Unpacked::Finite { negative: y, magnitude: n },
        ) => if x {
            if y {
                less(n, m, f.digits())
            } else {
                m.mantissa != 0 || n.mantissa != 0
            }
        } else {
            if y {
                false
            } else {
                less(m, n, f.digits())
            }
        },
    }
}

/// The integer nearest to a magnitude, the larger one of two equally near.
pub open spec fn nearest_natural(f: Format, units: nat) -> nat {
    (2 * units + pow2(f.unit())) / (2 * pow2(f.unit()))
}

/// `a` rounded to an integer, half-way cases away from zero.
pub open spec fn rounded(f: Format, a: Value) -> Value {
    match a {
        Value::Finite { negative, units } => Value::Finite {
            negative,
            units: nearest_natural(f, units) * pow2(f.unit()),
        },
        _ => a,
    }
}

/// The integer part of `a`, kept within `0..=limit`; zero for a NaN.
pub open spec fn truncated(f: Format, a: Value, limit: nat) -> nat {
    match a {
        Value::Nan => 0,
        Value::Infinite { negative } => if negative {
            0
        } else {
            limit
        },
        Value::Finite { negative, units } => if negative {
            0
        } else if units / pow2(f.unit()) > limit {
            limit
        } else {
            units / pow2(f.unit())
        },
    }
}

proof fn lemma_whole_units(f: Format, m: Magnitude)
    requires
        m.exponent >= f.unit(),
    ensures
        nearest_natural(f, m.units()) * pow2(f.unit()) == m.units(),
        m.units() / pow2(f.unit()) == m.mantissa as nat * pow2((m.exponent - f.unit()) as nat),
{
    let u = pow2(f.unit());
    let d = pow2((m.exponent - f.unit()) as nat);
    let x = pow2(m.exponent as nat);
    lemma_pow2_pos(f.unit());
    lemma_pow2_adds((m.exponent - f.unit()) as nat, f.unit());
    let n = m.mantissa as nat * d;
    assert(m.mantissa as nat * x == n * u) by (nonlinear_arith)
        requires
            x == d * u,
            n == m.mantissa as nat * d,
    ;
    assert(2 * (n * u) + u == n * (2 * u) + u) by (nonlinear_arith);
    lemma_fundamental_div_mod_converse((2 * (n * u) + u) as int, (2 * u) as int, n as int, u as int);
    lemma_fundamental_div_mod_converse((n * u) as int, u as int, n as int, 0);
}

/// Below the integers: the mantissa counts `2^k`-ths.
proof fn lemma_split_units(f: Format, m: Magnitude, k: nat)
    requires
        m.exponent + k == f.unit(),
        k > 0,
    ensures
        nearest_natural(f, m.units()) == (m.mantissa as nat + pow2((k - 1) as nat)) / pow2(k),
        m.units() / pow2(f.unit()) == m.mantissa as nat / pow2(k),
{
    let x = pow2(m.exponent as nat);
    let t = pow2(k);
    let h = pow2((k - 1) as nat);
    let u = pow2(f.unit());
    let n = m.mantissa as nat;
    lemma_pow2_pos(m.exponent as nat);
    lemma_pow2_pos(k);
    lemma_pow2_unfold(k);
    lemma_pow2_adds(m.exponent as nat, k);
    assert(2 * (n * x) + u == (2 * x) * (n + h)) by (nonlinear_arith)
        requires
            u == x * t,
            t == 2 * h,
    ;
    assert(2 * u == (2 * x) * t) by (nonlinear_arith)
        requires
            u == x * t,
    ;
    lemma_quotient_scale(n + h, t, 2 * x);
    assert(n * x == x * n) by (nonlinear_arith);
    lemma_quotient_scale(n, t, x);
}

proof fn lemma_quotient_scale(a: nat, b: nat, c: nat)
    requires
        b > 0,
        c > 0,
    ensures
        (c * a) / (c * b) == a / b,
{
    let q = a / b;
    let r = a % b;
    lemma_fundamental_div_mod(a as int, b as int);
    assert(c * a == q * (c * b) + c * r) by (nonlinear_arith)
        requires
            a == b * q + r,
    ;
    assert(c * r < c * b) by (nonlinear_arith)
        requires
            r < b,
            c > 0,
    ;
    lemma_fundamental_div_mod_converse(
        (c * a) as int,
        (c * b) as int,
        q as int,
        (c * r) as int,
    );
}

/// Rounds to an integer, half-way cases away from zero.
pub fn round_value(f: Format, a: Unpacked) -> (r: Unpacked)
    requires
        a.fits(f),
    ensures
        r.value() == rounded(f, a.value()),
        r.fits(f),
{
    if let Unpacked::Finite { negative, magnitude: m } = a {
        let unit = f.unit_exponent();
        if m.exponent >= unit {
            proof {
                lemma_whole_units(f, m);
            }
            a
        } else {
            let k: u32 = unit - m.exponent;
            let ghost p = f.precision();
            proof {
                lemma_split_units(f, m, k as nat);
                lemma2_to64();
                lemma2_to64_rest();
                lemma_pow2_le(p, 53);
                lemma_pow2_unfold(k as nat);
                lemma_pow2_pos((k - 1) as nat);
            }
            let n: u64 = if k > 60 {
                proof {
                    lemma_pow2_le(60, (k - 1) as nat);
                    lemma_fundamental_div_mod_converse(
                        (m.mantissa + pow2((k - 1) as nat)) as int,
                        pow2(k as nat) as int,
                        0,
                        (m.mantissa + pow2((k - 1) as nat)) as int,
                    );
                }
                0
            } else {
                proof {
                    lemma_pow2_le(k as nat, 60);
                }
                let t = power_of_two(k) as u64;
                (m.mantissa + t / 2) / t
            };
            proof {
                let t = pow2(k as nat);
                let h = pow2((k - 1) as nat);
                let top = pow2(p);
                assert(n as nat == (m.mantissa as nat + h) / t);
                lemma_fundamental_div_mod((m.mantissa + h) as int, t as int);
                lemma_mod_bound((m.mantissa + h) as int, t as int);
                assert(n < top) by (nonlinear_arith)
                    requires
                        m.mantissa + h >= t * n,
                        m.mantissa < top,
                        t == 2 * h,
                        h >= 1,
                        top >= 2,
                        n >= 0,
                ;
                lemma_pow2_le(1, p);
                lemma_round_units_exact(n as nat, f.unit(), 1, p);
                assert(n as nat * pow2(f.unit()) * 1 == n as nat * pow2(f.unit()));
            }
            let w = round_magnitude(n as u128, unit as i32, f.digits());
            proof {
                lemma_bounded_by_exponent(f, w);
                lemma_pow2_adds(p, f.unit());
                lemma_pow2_le(p + f.unit(), f.top());
                let u = pow2(f.unit());
                let top = pow2(p);
                assert(n as nat * u <= top * u) by (nonlinear_arith)
                    requires
                        n <= top,
                ;
                lemma_pow2_pos(f.unit());
                assert(n as nat * u < top * u) by (nonlinear_arith)
                    requires
                        n < top,
                        u > 0,
                ;
            }
            Unpacked::Finite { negative, magnitude: w }
        }
    } else {
        a
    }
}

/// The integer part as a `u32`, saturating; zero for a NaN.
pub fn value_to_u32(f: Format, a: Unpacked) -> (r: u32)
    requires
        a.fits(f),
    ensures
        r == truncated(f, a.value(), u32::MAX as nat),
{
    match a {
        Unpacked::Nan => 0,
        Unpacked::Infinite { negative } => if negative {
            0
        } else {
            u32::MAX
        },
        Unpacked::Finite { negative, magnitude: m } => {
            if negative {
                return 0;
            }
            let unit = f.unit_exponent();
            proof {
                lemma2_to64();
                lemma2_to64_rest();
                lemma_pow2_le(f.precision(), 53);
            }
            if m.exponent >= unit {
                let d: u32 = m.exponent - unit;
                proof {
                    lemma_whole_units(f, m);
                }
                if m.mantissa == 0 {
                    proof {
                        assert(0 * pow2(d as nat) == 0);
                    }
                    0
                } else if d >= 32 {
                    proof {
                        lemma_pow2_le(32, d as nat);
                        assert(m.mantissa as nat * pow2(d as nat) >= pow2(d as nat))
                            by (nonlinear_arith)
                            requires
                                m.mantissa >= 1,
                        ;
                    }
                    u32::MAX
                } else {
                    proof {
                        lemma_pow2_le(d as nat, 32);
                        assert(m.mantissa as nat * pow2(d as nat) <= 0x20_0000_0000_0000
                            * 0x1_0000_0000) by (nonlinear_arith)
                            requires
                                m.mantissa <= 0x20_0000_0000_0000,
                                pow2(d as nat) <= 0x1_0000_0000,
                        ;
                    }
                    let n: u128 = m.mantissa as u128 * power_of_two(d);
                    if n > 0xffff_ffff {
                        u32::MAX
                    } else {
                        n as u32
                    }
                }
            } else {
                let k: u32 = unit - m.exponent;
                proof {
                    lemma_split_units(f, m, k as nat);
                    lemma_pow2_pos(k as nat);
                }
                if k > 60 {
                    proof {
                        lemma_pow2_le(60, k as nat);
                        lemma_fundamental_div_mod_converse(
                            m.mantissa as int,
                            pow2(k as nat) as int,
                            0,
                            m.mantissa as int,
                        );
                    }
                    0
                } else {
                    proof {
                        lemma_pow2_le(k as nat, 60);
                    }
                    let n: u64 = m.mantissa / power_of_two(k) as u64;
                    if n > 0xffff_ffff {
                        u32::MAX
                    } else {
                        n as u32
                    }
                }
            }
        },
    }
}

/// A value that the format can hold.
pub open spec fn held(f: Format, v: Value) -> bool {
    match v {
        Value::Finite { units, .. } => {
            &&& units < pow2(f.top())
            &&& exists|m: nat, e: nat| #[trigger] written_as(units, m, e, f.precision())
        },
        _ => true,
    }
}

/// A mantissa and an exponent show that a value can be held.
pub proof fn lemma_written_held(f: Format, negative: bool, units: nat, m: nat, e: nat)
    requires
        written_as(units, m, e, f.precision()),
        units < pow2(f.top()),
    ensures
        held(f, Value::Finite { negative, units }),
{
}

/// What is rounded can be held.
pub proof fn lemma_bounded_held(f: Format, negative: bool, num: nat, den: nat)
    requires
        den > 0,
    ensures
        held(f, bounded(f, negative, round_units(num, den, f.precision()))),
{
    let (m, e) = lemma_round_units_written(num, den, f.precision());
    assert(written_as(round_units(num, den, f.precision()), m, e, f.precision()));
}

/// The exponent of a finite magnitude has a limit.
pub proof fn lemma_exponent_limit(f: Format, units: nat, m: nat, e: nat)
    requires
        written_as(units, m, e, f.precision()),
        units < pow2(f.top()),
    ensures
        e <= f.top() - f.precision(),
{
    if e > f.top() - f.precision() {
        let p = f.precision();
        lemma_pow2_adds((p - 1) as nat, e);
        lemma_pow2_le(f.top(), (p - 1 + e) as nat);
        let low = pow2((p - 1) as nat);
        let x = pow2(e);
        assert(m * x >= low * x) by (nonlinear_arith)
            requires
                m >= low,
        ;
    }
}

/// An integer can be held, is not negative, and comes before every larger one.
pub proof fn lemma_naturals(f: Format, a: nat, b: nat)
    requires
        a <= b,
    ensures
        held(f, of_natural(f, a)),
        held(f, of_natural(f, b)),
        0 <= rank(f, of_natural(f, a)) <= rank(f, of_natural(f, b)),
        of_natural(f, 0) == (Value::Finite { negative: false, units: 0 }),
{
    let u = pow2(f.unit());
    lemma_pow2_pos(f.unit());
    lemma_pow2_pos(f.top());
    lemma_pow2_pos(f.precision());
    lemma_bounded_held(f, false, a * u, 1);
    lemma_bounded_held(f, false, b * u, 1);
    assert(a * u <= b * u) by (nonlinear_arith)
        requires
            a <= b,
    ;
    lemma_round_units_monotone(a * u, b * u, 1, f.precision());
    lemma_round_units_exact(0, f.unit(), 1, f.precision());
    assert(0 * u == 0 && 0 * u * 1 == 0);
}

/// An integer with no more digits than the format is itself.
pub proof fn lemma_small_natural(f: Format, n: nat)
    requires
        n < pow2(f.precision()),
    ensures
        of_natural(f, n) == (Value::Finite { negative: false, units: n * pow2(f.unit()) }),
{
    lemma_round_units_exact(n, f.unit(), 1, f.precision());
    let u = pow2(f.unit());
    let top = pow2(f.precision());
    assert(n * u * 1 == n * u);
    lemma_pow2_pos(f.unit());
    lemma_pow2_adds(f.precision(), f.unit());
    lemma_pow2_le(f.precision() + f.unit(), f.top());
    assert(n * u < top * u) by (nonlinear_arith)
        requires
            n < top,
            u > 0,
    ;
}

/// An integer nearest to a value that can be held can be held.
pub proof fn lemma_rounded_held(f: Format, v: Value)
    requires
        held(f, v),
    ensures
        held(f, rounded(f, v)),
{
    if let Value::Finite { negative, units } = v {
        let p = f.precision();
        let (m, e) = choose|m: nat, e: nat| #[trigger] written_as(units, m, e, p);
        lemma_exponent_limit(f, units, m, e);
        lemma2_to64_rest();
        lemma_pow2_le(p, 53);
        let a = Magnitude { mantissa: m as u64, exponent: e as u32 };
        if e >= f.unit() {
            lemma_whole_units(f, a);
        } else {
            let k = (f.unit() - e) as nat;
            lemma_split_units(f, a, k);
            let n = nearest_natural(f, units);
            let t = pow2(k);
            let h = pow2((k - 1) as nat);
            let top = pow2(p);
            lemma_pow2_unfold(k);
            lemma_pow2_pos((k - 1) as nat);
            lemma_pow2_le(1, p);
            lemma2_to64();
            lemma_fundamental_div_mod((m + h) as int, t as int);
            lemma_mod_bound((m + h) as int, t as int);
            assert(n < top) by (nonlinear_arith)
                requires
                    m + h >= t * n,
                    m < top,
                    t == 2 * h,
                    h >= 1,
                    top >= 2,
                    n >= 0,
            ;
            lemma_small_natural(f, n);
            lemma_naturals(f, n, n);
            let w = n * pow2(f.unit());
            let (m2, e2) = choose|m2: nat, e2: nat| #[trigger] written_as(w, m2, e2, p);
            lemma_written_held(f, negative, w, m2, e2);
        }
    }
}

} // verus!
