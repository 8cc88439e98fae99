//! Double-precision values, stored as their bits.

use crate::binary::arithmetic::lemma_units_injective;
use crate::binary::magnitude::{lemma_pow2_le, round_magnitude, Magnitude};
use crate::binary::single::Single;
use crate::binary::rounding::{lemma_round_units_exact, written_as};
use crate::binary::value::{
    add_values, at_most, below, divide_values, held, lemma_bounded_by_exponent,
    lemma_exponent_limit, lemma_naturals, lemma_written_held, multiply_values, of_natural, product,
    quotient, sum, value_below, value_of_natural, Format, Unpacked, Value,
};
use vstd::arithmetic::power2::{
    lemma2_to64, lemma2_to64_rest, lemma_pow2_adds, lemma_pow2_pos, pow2,
};
use vstd::prelude::*;

verus! {

/// A double-precision value.
///
/// The derived equality is that of the bits: the two zeros differ, and a NaN
/// equals itself. The order of the numbers is [`Double::below`].
#[derive(Clone, Copy, Debug, PartialEq, Eq, Structural)]
pub struct Double {
    pub bits: u64,
}

impl Double {
    /// The value that the bits stand for.
    pub open spec fn value(self) -> Value {
        let negative = self.bits >= 0x8000_0000_0000_0000;
        let rest = self.bits % 0x8000_0000_0000_0000;
        let field = rest / 0x10_0000_0000_0000;
        let fraction = rest % 0x10_0000_0000_0000;
        if field == 0x7ff {
            if fraction == 0 {
                Value::Infinite { negative }
            } else {
                Value::Nan
            }
        } else if field == 0 {
            Value::Finite { negative, units: fraction as nat }
        } else {
            Value::Finite {
                negative,
                units: (0x10_0000_0000_0000 + fraction) as nat * pow2((field - 1) as nat),
            }
        }
    }

    /// The bits of a value; of a NaN, those of the quiet NaN without payload.
    pub open spec fn of(v: Value) -> Double {
        choose|s: Double| s.value() == v && (v is Nan ==> s.bits == 0x7ff8_0000_0000_0000)
    }

    /// Bits that give the value are the bits of the value.
    proof fn lemma_of(s: Double, v: Value)
        requires
            s.value() == v,
            v is Nan ==> s.bits == 0x7ff8_0000_0000_0000,
        ensures
            s == Double::of(v),
    {
        let t = Double::of(v);
        assert(t.value() == v && (v is Nan ==> t.bits == 0x7ff8_0000_0000_0000));
        if v !is Nan {
            Double::lemma_injective(s, t);
        }
    }

    /// Two numbers of one value have the same bits.
    pub proof fn lemma_injective(s: Double, t: Double)
        requires
            s.value() == t.value(),
            s.value() !is Nan,
        ensures
            s == t,
    {
        if s.value() is Finite {
            s.lemma_parts();
            t.lemma_parts();
            lemma_units_injective(s.parts(), t.parts(), 53);
        }
    }

    /// A value that the format can hold has bits.
    pub proof fn lemma_of_value(v: Value)
        requires
            held(Format::Binary64, v),
        ensures
            Double::of(v).value() == v,
            v is Nan ==> Double::of(v).bits == 0x7ff8_0000_0000_0000,
    {
        let s = match v {
            Value::Nan => Double { bits: 0x7ff8_0000_0000_0000 },
            Value::Infinite { negative } => Double {
                bits: if negative {
                    0xfff0_0000_0000_0000
                } else {
                    0x7ff0_0000_0000_0000
                },
            },
            Value::Finite { negative, units } => {
                let (m, e) = choose|m: nat, e: nat| #[trigger] written_as(units, m, e, 53);
                lemma_exponent_limit(Format::Binary64, units, m, e);
                lemma2_to64();
                lemma2_to64_rest();
        let rest = e * 0x10_0000_0000_0000 + m;
                let t = Double {
                    bits: (if negative {
                        0x8000_0000_0000_0000 + rest
                    } else {
                        rest
                    }) as u64,
                };
                assert(rest / 0x10_0000_0000_0000 < 0x7ff && t.bits % 0x8000_0000_0000_0000 == rest);
                if m < 0x10_0000_0000_0000 {
                    assert(m * 1 == m);
                } else {
                    assert(rest / 0x10_0000_0000_0000 == e + 1);
                    assert(rest % 0x10_0000_0000_0000 == m - 0x10_0000_0000_0000);
                }
                t
            },
        };
        assert(s.value() == v && (v is Nan ==> s.bits == 0x7ff8_0000_0000_0000));
    }

    /// What the bits stand for can be held.
    pub proof fn lemma_value_held(self)
        ensures
            held(Format::Binary64, self.value()),
    {
        if self.value() is Finite {
            self.lemma_parts();
            let m = self.parts();
            lemma_bounded_by_exponent(Format::Binary64, m);
            lemma_written_held(
                Format::Binary64,
                self.bits >= 0x8000_0000_0000_0000,
                m.units(),
                m.mantissa as nat,
                m.exponent as nat,
            );
        }
    }

    /// Mantissa and exponent of a finite value.
    spec fn parts(self) -> Magnitude {
        let rest = self.bits % 0x8000_0000_0000_0000;
        let field = rest / 0x10_0000_0000_0000;
        let fraction = rest % 0x10_0000_0000_0000;
        if field == 0 {
            Magnitude { mantissa: fraction as u64, exponent: 0 }
        } else {
            Magnitude { mantissa: (0x10_0000_0000_0000 + fraction) as u64, exponent: (field - 1) as u32 }
        }
    }

    proof fn lemma_parts(self)
        requires
            self.value() is Finite,
        ensures
            self.parts().normal(53),
            self.parts().exponent <= 2045,
            self.value() == (Value::Finite {
                negative: self.bits >= 0x8000_0000_0000_0000,
                units: self.parts().units(),
            }),
    {
        lemma2_to64();
        lemma2_to64_rest();
        let rest = self.bits % 0x8000_0000_0000_0000;
        if rest / 0x10_0000_0000_0000 == 0 {
            assert((rest % 0x10_0000_0000_0000) as nat * 1 == (rest % 0x10_0000_0000_0000) as nat);
        }
    }

    /// Takes the bits apart.
    pub fn unpack(self) -> (r: Unpacked)
        ensures
            r.value() == self.value(),
            r.fits(Format::Binary64),
    {
        let negative = self.bits >= 0x8000_0000_0000_0000;
        let rest: u64 = self.bits % 0x8000_0000_0000_0000;
        let field: u64 = rest / 0x10_0000_0000_0000;
        let fraction: u64 = rest % 0x10_0000_0000_0000;
        if field == 0x7ff {
            if fraction == 0 {
                Unpacked::Infinite { negative }
            } else {
                Unpacked::Nan
            }
        } else {
            proof {
                self.lemma_parts();
            }
            let magnitude = if field == 0 {
                Magnitude { mantissa: fraction as u64, exponent: 0 }
            } else {
                Magnitude { mantissa: (0x10_0000_0000_0000 + fraction) as u64, exponent: (field - 1) as u32 }
            };
            Unpacked::Finite { negative, magnitude }
        }
    }

    /// Puts the bits together.
    pub fn pack(u: Unpacked) -> (r: Double)
        requires
            u.fits(Format::Binary64),
        ensures
            r == Double::of(u.value()),
            r.value() == u.value(),
    {
        let r = match u {
            Unpacked::Nan => Double { bits: 0x7ff8_0000_0000_0000 },
            Unpacked::Infinite { negative } => Double {
                bits: if negative {
                    0x8000_0000_0000_0000 + 0x7ff0_0000_0000_0000
                } else {
                    0x7ff0_0000_0000_0000
                },
            },
            Unpacked::Finite { negative, magnitude } => {
                proof {
                    lemma2_to64();
                    lemma2_to64_rest();
        
                }
                let rest: u64 = magnitude.exponent as u64 * 0x10_0000_0000_0000 + magnitude.mantissa as u64;
                let r = Double {
                    bits: if negative {
                        0x8000_0000_0000_0000 + rest
                    } else {
                        rest
                    },
                };
                proof {
                    assert(rest / 0x10_0000_0000_0000 < 0x7ff && r.bits % 0x8000_0000_0000_0000 == rest);
                    if magnitude.mantissa < 0x10_0000_0000_0000 {
                        assert(magnitude.mantissa as nat * 1 == magnitude.mantissa as nat);
                    } else {
                        assert(rest / 0x10_0000_0000_0000 == magnitude.exponent + 1);
                        assert(rest % 0x10_0000_0000_0000 == magnitude.mantissa - 0x10_0000_0000_0000);
                    }
                }
                r
            },
        };
        proof {
            Double::lemma_of(r, u.value());
        }
        r
    }

    /// The value with these bits.
    pub fn from_bits(bits: u64) -> (r: Double)
        ensures
            r.bits == bits,
    {
        Double { bits }
    }

    /// The bits of this value.
    pub fn to_bits(self) -> (r: u64)
        ensures
            r == self.bits,
    {
        self.bits
    }

    /// `self + rhs` as a specification.
    #[verifier::opaque]
    pub open spec fn plus_spec(self, rhs: Double) -> Double {
        Double::of(sum(Format::Binary64, self.value(), rhs.value()))
    }

    /// `self + rhs`.
    #[verifier::when_used_as_spec(plus_spec)]
    pub fn plus(self, rhs: Double) -> (r: Double)
        ensures
            r == self.plus_spec(rhs),
            r.value() == sum(Format::Binary64, self.value(), rhs.value()),
    {
        proof {
            reveal(Double::plus_spec);
        }
        Double::pack(add_values(Format::Binary64, self.unpack(), rhs.unpack()))
    }

    /// `self * rhs` as a specification.
    #[verifier::opaque]
    pub open spec fn times_spec(self, rhs: Double) -> Double {
        Double::of(product(Format::Binary64, self.value(), rhs.value()))
    }

    /// `self * rhs`.
    #[verifier::when_used_as_spec(times_spec)]
    pub fn times(self, rhs: Double) -> (r: Double)
        ensures
            r == self.times_spec(rhs),
            r.value() == product(Format::Binary64, self.value(), rhs.value()),
    {
        proof {
            reveal(Double::times_spec);
        }
        Double::pack(multiply_values(Format::Binary64, self.unpack(), rhs.unpack()))
    }

    /// `self / rhs` as a specification.
    #[verifier::opaque]
    pub open spec fn over_spec(self, rhs: Double) -> Double {
        Double::of(quotient(Format::Binary64, self.value(), rhs.value()))
    }

    /// `self / rhs`.
    #[verifier::when_used_as_spec(over_spec)]
    pub fn over(self, rhs: Double) -> (r: Double)
        ensures
            r == self.over_spec(rhs),
            r.value() == quotient(Format::Binary64, self.value(), rhs.value()),
    {
        proof {
            reveal(Double::over_spec);
        }
        Double::pack(divide_values(Format::Binary64, self.unpack(), rhs.unpack()))
    }

    /// The value nearest to `n`, as a specification.
    #[verifier::opaque]
    pub open spec fn natural(n: nat) -> Double {
        Double::of(of_natural(Format::Binary64, n))
    }

    /// The value nearest to `n`.
    pub fn from_u64(n: u64) -> (r: Double)
        ensures
            r == Double::natural(n as nat),
            r.value() == of_natural(Format::Binary64, n as nat),
    {
        proof {
            reveal(Double::natural);
        }
        Double::pack(value_of_natural(Format::Binary64, n))
    }

    /// Integers keep their order.
    pub proof fn lemma_naturals(a: nat, b: nat)
        requires
            a <= b,
        ensures
            Double::natural(a).value() == of_natural(Format::Binary64, a),
            Double::natural(a).at_most_spec(Double::natural(b)),
            Double::natural(0).at_most_spec(Double::natural(b)),
    {
        reveal(Double::natural);
        lemma_naturals(Format::Binary64, a, b);
        lemma_naturals(Format::Binary64, 0, b);
        Double::lemma_of_value(of_natural(Format::Binary64, 0));
        Double::lemma_of_value(of_natural(Format::Binary64, a));
        Double::lemma_of_value(of_natural(Format::Binary64, b));
    }

    /// `self < rhs` as a specification.
    pub open spec fn below_spec(self, rhs: Double) -> bool {
        below(Format::Binary64, self.value(), rhs.value())
    }

    /// `self < rhs`; false with a NaN.
    #[verifier::when_used_as_spec(below_spec)]
    pub fn below(self, rhs: Double) -> (r: bool)
        ensures
            r == self.below_spec(rhs),
    {
        value_below(Format::Binary64, self.unpack(), rhs.unpack())
    }

    /// `self <= rhs` as a specification.
    pub open spec fn at_most_spec(self, rhs: Double) -> bool {
        at_most(Format::Binary64, self.value(), rhs.value())
    }

    /// `self <= rhs`; false with a NaN.
    #[verifier::when_used_as_spec(at_most_spec)]
    pub fn at_most(self, rhs: Double) -> (r: bool)
        ensures
            r == self.at_most_spec(rhs),
    {
        let (a, b) = (self.unpack(), rhs.unpack());
        match (a, b) {
            (Unpacked::Nan, _) => false,
            (_, Unpacked::Nan) => false,
            _ => !value_below(Format::Binary64, b, a),
        }
    }

    /// The same number in the wider format, as a specification.
    pub open spec fn widened(s: Single) -> Double {
        Double::of(
            match s.value() {
                Value::Finite { negative, units } => Value::Finite {
                    negative,
                    units: units * pow2(925),
                },
                other => other,
            },
        )
    }

    /// The same number in the wider format.
    pub fn from_single(s: Single) -> (r: Double)
        ensures
            r == Double::widened(s),
    {
        let u = match s.unpack() {
            Unpacked::Nan => Unpacked::Nan,
            Unpacked::Infinite { negative } => Unpacked::Infinite { negative },
            Unpacked::Finite { negative, magnitude: m } => {
                let w = round_magnitude(m.mantissa as u128, m.exponent as i32 + 925, 53);
                proof {
                    lemma2_to64();
                    lemma2_to64_rest();
                    lemma_round_units_exact(m.mantissa as nat, m.exponent as nat + 925, 1, 53);
                    lemma_pow2_adds(m.exponent as nat, 925);
                    let x = pow2(m.exponent as nat);
                    let y = pow2(925);
                    let z = pow2(m.exponent as nat + 925);
                    let n = m.mantissa as nat;
                    assert(n * z * 1 == (n * x) * y) by (nonlinear_arith)
                        requires
                            z == x * y,
                    ;
                    assert(n * z * 1 == n * z);
                    lemma_bounded_by_exponent(Format::Binary64, w);
                    lemma_pow2_adds(24, m.exponent as nat + 925);
                    lemma_pow2_le(24 + m.exponent as nat + 925, 2098);
                    lemma_pow2_pos(m.exponent as nat + 925);
                    assert(n * z < pow2(24) * z) by (nonlinear_arith)
                        requires
                            n < pow2(24),
                            z > 0,
                    ;
                }
                Unpacked::Finite { negative, magnitude: w }
            },
        };
        Double::pack(u)
    }
}

} // verus!
