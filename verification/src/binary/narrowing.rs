//! From double precision to single.

use crate::binary::double::Double;
use crate::binary::magnitude::{lemma_pow2_le, round_magnitude};
use crate::binary::rounding::{
    lemma_round_units_exact, lemma_round_units_scale, lemma_scaled_round_of, round_units,
    written_as,
};
use crate::binary::single::Single;
use crate::binary::value::{
    bounded, lemma_bounded_by_exponent, lemma_bounded_held, Format, Unpacked, Value,
};
use vstd::arithmetic::power2::{lemma_pow2_adds, lemma_pow2_pos, pow2};
use vstd::prelude::*;

verus! {

/// The single-precision value nearest to a double-precision one. The unit of single
/// precision is `2^925` units of double precision.
pub open spec fn narrowed(a: Value) -> Value {
    match a {
        Value::Nan => Value::Nan,
        Value::Infinite { negative } => Value::Infinite { negative },
        Value::Finite { negative, units } => bounded(
            Format::Binary32,
            negative,
            round_units(units, pow2(925), 24),
        ),
    }
}

/// Rounds an unpacked value to single precision.
pub fn narrow_value(a: Unpacked) -> (r: Unpacked)
    requires
        a.fits(Format::Binary64),
    ensures
        r.value() == narrowed(a.value()),
        r.fits(Format::Binary32),
{
    match a {
        Unpacked::Nan => Unpacked::Nan,
        Unpacked::Infinite { negative } => Unpacked::Infinite { negative },
        Unpacked::Finite { negative, magnitude: m } => {
            let e: i32 = m.exponent as i32 - 925;
            let r = round_magnitude(m.mantissa as u128, e, 24);
            proof {
                lemma_scaled_round_of(m.mantissa as nat, 1, m.exponent as nat, 925, 24);
                lemma_bounded_by_exponent(Format::Binary32, r);
            }
            if r.exponent > 253 {
                Unpacked::Infinite { negative }
            } else {
                Unpacked::Finite { negative, magnitude: r }
            }
        },
    }
}

impl Single {
    /// The nearest single-precision value as a specification.
    #[verifier::opaque]
    pub open spec fn narrowed(d: Double) -> Single {
        Single::of(narrowed(d.value()))
    }

    /// The nearest single-precision value.
    pub fn from_double(d: Double) -> (r: Single)
        ensures
            r == Single::narrowed(d),
            r.value() == narrowed(d.value()),
    {
        proof {
            reveal(Single::narrowed);
        }
        Single::pack(narrow_value(d.unpack()))
    }
}

/// A single-precision number that is widened and narrowed again is what it was.
pub proof fn law_widening_loses_nothing(s: Single)
    requires
        s.value() !is Nan,
    ensures
        Single::narrowed(Double::widened(s)) == s,
{
    reveal(Single::narrowed);
    s.lemma_value_held();
    lemma_pow2_pos(925);
    if let Value::Finite { negative, units } = s.value() {
        let (m, e) = choose|m: nat, e: nat| #[trigger] written_as(units, m, e, 24);
        let c = pow2(925);
        let wide = units * c;
        lemma_pow2_le(24, 53);
        lemma_pow2_adds(e, 925);
        assert(m * pow2(e + 925) == wide) by (nonlinear_arith)
            requires
                wide == units * c,
                units == m * pow2(e),
                pow2(e + 925) == pow2(e) * c,
        ;
        lemma_round_units_exact(m, e + 925, 1, 53);
        lemma_pow2_adds(277, 925);
        lemma_pow2_le(1202, 2098);
        assert(wide < pow2(1202)) by (nonlinear_arith)
            requires
                wide == units * c,
                units < pow2(277),
                pow2(1202) == pow2(277) * c,
                c > 0,
        ;
        lemma_bounded_held(Format::Binary64, negative, wide, 1);
        Double::lemma_of_value(Value::Finite { negative, units: wide });
        lemma_round_units_exact(m, e, 1, 24);
        lemma_round_units_scale(units, 1, c, 24);
        assert(c * units == wide && c * 1 == c) by (nonlinear_arith)
            requires
                wide == units * c,
        ;
    } else {
        Double::lemma_of_value(s.value());
    }
    Single::lemma_of_value(s.value());
    Single::lemma_injective(Single::of(s.value()), s);
}

} // verus!
