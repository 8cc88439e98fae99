//! The remainder of a truncated division.

use crate::binary::arithmetic::{lemma_order, operand};
use crate::binary::magnitude::{lemma_pow2_le, round_magnitude, Magnitude};
use crate::binary::rounding::lemma_round_units_exact;
use crate::binary::value::{lemma_bounded_by_exponent, lemma_units_zero, Format, Unpacked, Value};
use vstd::arithmetic::div_mod::{
    lemma_fundamental_div_mod, lemma_fundamental_div_mod_converse, lemma_mod_bound, lemma_small_mod,
};
use vstd::arithmetic::power2::{
    lemma2_to64, lemma2_to64_rest, lemma_pow2_adds, lemma_pow2_pos, lemma_pow2_unfold, pow2,
};
use vstd::prelude::*;

verus! {

/// What `a` leaves when `b` is taken from it as often as it goes in; it has the
/// sign of `a`, and no digit is lost.
pub open spec fn remainder(a: Value, b: Value) -> Value {
    match (a, b) {
        (Value::Nan, _) => Value::Nan,
        (_, Value::Nan) => Value::Nan,
        (Value::Infinite { .. }, _) => Value::Nan,
        (Value::Finite { .. }, Value::Infinite { .. }) => a,
        (
            Value::Finite { negative, units: u },
            Value::Finite { units: v, .. },
        ) => if v == 0 {
            Value::Nan
        } else {
            Value::Finite { negative, units: u % v }
        },
    }
}

/// Doubling the dividend doubles the remainder, which may overflow the divisor.
proof fn lemma_mod_double(a: nat, m: nat)
    requires
        m > 0,
    ensures
        (2 * a) % m == (2 * (a % m)) % m,
{
    let q = a as int / m as int;
    let r = a as int % m as int;
    lemma_fundamental_div_mod(a as int, m as int);
    let q2 = (2 * r) / m as int;
    let r2 = (2 * r) % m as int;
    lemma_fundamental_div_mod(2 * r, m as int);
    lemma_mod_bound(2 * r, m as int);
    assert(2 * a == (2 * q + q2) * m + r2) by (nonlinear_arith)
        requires
            a == m * q + r,
            2 * r == m * q2 + r2,
    ;
    lemma_fundamental_div_mod_converse(2 * a as int, m as int, 2 * q + q2, r2);
}

/// A common factor of dividend and divisor is one of the remainder.
proof fn lemma_mod_scaled(a: nat, m: nat, c: nat)
    requires
        m > 0,
        c > 0,
    ensures
        m * c > 0,
        (a * c) % (m * c) == (a % m) * c,
{
    let q = a as int / m as int;
    let r = a as int % m as int;
    lemma_fundamental_div_mod(a as int, m as int);
    lemma_mod_bound(a as int, m as int);
    assert(a * c == q * (m * c) + r * c && 0 <= r * c < m * c) by (nonlinear_arith)
        requires
            a == m * q + r,
            0 <= r < m,
            c > 0,
    ;
    lemma_fundamental_div_mod_converse((a * c) as int, (m * c) as int, q, r * c);
}

/// The remainder of two magnitudes.
pub fn remainder_magnitude(a: Magnitude, b: Magnitude, precision: u32) -> (r: Magnitude)
    requires
        operand(a, precision),
        operand(b, precision),
        b.units() > 0,
    ensures
        r.units() == a.units() % b.units(),
        r.normal(precision as nat),
{
    let ghost p = precision as nat;
    proof {
        lemma_pow2_pos(b.exponent as nat);
        lemma_units_zero(b);
        lemma_order(a, b, precision);
        lemma_pow2_le(p, 53);
        lemma2_to64_rest();
    }
    if a.exponent < b.exponent {
        proof {
            lemma_small_mod(a.units(), b.units());
        }
        return a;
    }
    let d: u32 = a.exponent - b.exponent;
    let m: u64 = b.mantissa;
    let mut r: u64 = a.mantissa % m;
    let mut k: u32 = 0;
    proof {
        lemma2_to64();
        assert(a.mantissa as nat * 1 == a.mantissa);
    }
    while k < d
        invariant
            k <= d,
            0 < m < 0x20_0000_0000_0000,
            r == (a.mantissa as nat * pow2(k as nat)) % (m as nat),
        decreases d - k,
    {
        proof {
            let x = a.mantissa as nat * pow2(k as nat);
            lemma_mod_bound(x as int, m as int);
            lemma_mod_double(x, m as nat);
            lemma_pow2_unfold((k + 1) as nat);
            assert(a.mantissa as nat * (2 * pow2(k as nat)) == 2 * x) by (nonlinear_arith)
                requires
                    x == a.mantissa as nat * pow2(k as nat),
            ;
        }
        r = (2 * r) % m;
        k = k + 1;
    }
    proof {
        let x = a.mantissa as nat * pow2(d as nat);
        let c = pow2(b.exponent as nat);
        lemma_mod_bound(x as int, m as int);
        lemma_mod_scaled(x, m as nat, c);
        lemma_pow2_adds(d as nat, b.exponent as nat);
        assert(x * c == a.units()) by (nonlinear_arith)
            requires
                x == a.mantissa as nat * pow2(d as nat),
                pow2(d as nat) * c == pow2(a.exponent as nat),
                a.units() == a.mantissa as nat * pow2(a.exponent as nat),
        ;
        lemma_round_units_exact(r as nat, b.exponent as nat, 1, p);
        assert(r as nat * c * 1 == r as nat * c);
    }
    round_magnitude(r as u128, b.exponent as i32, precision)
}

/// The remainder of two values.
pub fn remainder_of_values(f: Format, a: Unpacked, b: Unpacked) -> (r: Unpacked)
    requires
        a.fits(f),
        b.fits(f),
    ensures
        r.value() == remainder(a.value(), b.value()),
        r.fits(f),
{
    match (a, b) {
        (Unpacked::Nan, _) => Unpacked::Nan,
        (_, Unpacked::Nan) => Unpacked::Nan,
        (Unpacked::Infinite { .. }, _) => Unpacked::Nan,
        (Unpacked::Finite { .. }, Unpacked::Infinite { .. }) => a,
        (
            Unpacked::Finite { negative, magnitude: m },
            Unpacked::Finite { magnitude: n, .. },
        ) => {
            proof {
                lemma_units_zero(n);
            }
            if n.mantissa == 0 {
                Unpacked::Nan
            } else {
                let precision: u32 = match f {
                    Format::Binary32 => 24,
                    Format::Binary64 => 53,
                };
                let magnitude = remainder_magnitude(m, n, precision);
                proof {
                    lemma_mod_bound(m.units() as int, n.units() as int);
                    lemma_bounded_by_exponent(f, n);
                    lemma_bounded_by_exponent(f, magnitude);
                }
                Unpacked::Finite { negative, magnitude }
            }
        },
    }
}

} // verus!
