//! Single-precision values, stored as their bits.

use crate::binary::arithmetic::lemma_units_injective;
use crate::binary::magnitude::Magnitude;
use crate::binary::remainder::{remainder, remainder_of_values};
use crate::binary::rounding::written_as;
use crate::binary::value::{
    add_values, at_most, below, divide_values, held, lemma_bounded_by_exponent,
    lemma_exponent_limit, lemma_naturals, lemma_written_held, multiply_values, negated, of_natural,
    product, quotient, root, root_of_value, round_value, rounded, sum, truncated, value_below,
    value_of_natural, value_to_u32, Format, Unpacked, Value,
};
use vstd::arithmetic::power2::{lemma2_to64, pow2};
use vstd::prelude::*;

verus! {

/// A single-precision value.
///
/// The derived equality is that of the bits: the two zeros differ, and a NaN
/// equals itself. The order of the numbers is [`Single::below`].
#[derive(Clone, Copy, Debug, PartialEq, Eq, Structural)]
pub struct Single {
    pub bits: u32,
}

impl Single {
    /// The value that the bits stand for.
    pub open spec fn value(self) -> Value {
        let negative = self.bits >= 0x8000_0000;
        let rest = self.bits % 0x8000_0000;
        let field = rest / 0x80_0000;
        let fraction = rest % 0x80_0000;
        if field == 0xff {
            if fraction == 0 {
                Value::Infinite { negative }
            } else {
                Value::Nan
            }
        } else if field == 0 {
            Value::Finite { negative, units: fraction as nat }
        } else {
            Value::Finite {
                negative,
                units: (0x80_0000 + fraction) as nat * pow2((field - 1) as nat),
            }
        }
    }

    /// The bits of a value; of a NaN, those of the quiet NaN without payload.
    pub open spec fn of(v: Value) -> Single {
        choose|s: Single| s.value() == v && (v is Nan ==> s.bits == 0x7fc0_0000)
    }

    /// Bits that give the value are the bits of the value.
    proof fn lemma_of(s: Single, v: Value)
        requires
            s.value() == v,
            v is Nan ==> s.bits == 0x7fc0_0000,
        ensures
            s == Single::of(v),
    {
        let t = Single::of(v);
        assert(t.value() == v && (v is Nan ==> t.bits == 0x7fc0_0000));
        if v !is Nan {
            Single::lemma_injective(s, t);
        }
    }

    /// Two numbers of one value have the same bits.
    pub proof fn lemma_injective(s: Single, t: Single)
        requires
            s.value() == t.value(),
            s.value() !is Nan,
        ensures
            s == t,
    {
        if s.value() is Finite {
            s.lemma_parts();
            t.lemma_parts();
            lemma_units_injective(s.parts(), t.parts(), 24);
        }
    }

    /// A value that the format can hold has bits.
    pub proof fn lemma_of_value(v: Value)
        requires
            held(Format::Binary32, v),
        ensures
            Single::of(v).value() == v,
            v is Nan ==> Single::of(v).bits == 0x7fc0_0000,
    {
        let s = match v {
            Value::Nan => Single { bits: 0x7fc0_0000 },
            Value::Infinite { negative } => Single {
                bits: if negative {
                    0xff80_0000
                } else {
                    0x7f80_0000
                },
            },
            Value::Finite { negative, units } => {
                let (m, e) = choose|m: nat, e: nat| #[trigger] written_as(units, m, e, 24);
                lemma_exponent_limit(Format::Binary32, units, m, e);
                lemma2_to64();
                let rest = e * 0x80_0000 + m;
                let t = Single {
                    bits: (if negative {
                        0x8000_0000 + rest
                    } else {
                        rest
                    }) as u32,
                };
                assert(rest / 0x80_0000 < 0xff && t.bits % 0x8000_0000 == rest);
                if m < 0x80_0000 {
                    assert(m * 1 == m);
                } else {
                    assert(rest / 0x80_0000 == e + 1);
                    assert(rest % 0x80_0000 == m - 0x80_0000);
                }
                t
            },
        };
        assert(s.value() == v && (v is Nan ==> s.bits == 0x7fc0_0000));
    }

    /// What the bits stand for can be held.
    pub proof fn lemma_value_held(self)
        ensures
            held(Format::Binary32, self.value()),
    {
        if self.value() is Finite {
            self.lemma_parts();
            let m = self.parts();
            lemma_bounded_by_exponent(Format::Binary32, m);
            lemma_written_held(
                Format::Binary32,
                self.bits >= 0x8000_0000,
                m.units(),
                m.mantissa as nat,
                m.exponent as nat,
            );
        }
    }

    /// Mantissa and exponent of a finite value.
    spec fn parts(self) -> Magnitude {
        let rest = self.bits % 0x8000_0000;
        let field = rest / 0x80_0000;
        let fraction = rest % 0x80_0000;
        if field == 0 {
            Magnitude { mantissa: fraction as u64, exponent: 0 }
        } else {
            Magnitude { mantissa: (0x80_0000 + fraction) as u64, exponent: (field - 1) as u32 }
        }
    }

    proof fn lemma_parts(self)
        requires
            self.value() is Finite,
        ensures
            self.parts().normal(24),
            self.parts().exponent <= 253,
            self.value() == (Value::Finite {
                negative: self.bits >= 0x8000_0000,
                units: self.parts().units(),
            }),
    {
        lemma2_to64();
        let rest = self.bits % 0x8000_0000;
        if rest / 0x80_0000 == 0 {
            assert((rest % 0x80_0000) as nat * 1 == (rest % 0x80_0000) as nat);
        }
    }

    /// Takes the bits apart.
    pub fn unpack(self) -> (r: Unpacked)
        ensures
            r.value() == self.value(),
            r.fits(Format::Binary32),
    {
        let negative = self.bits >= 0x8000_0000;
        let rest: u32 = self.bits % 0x8000_0000;
        let field: u32 = rest / 0x80_0000;
        let fraction: u32 = rest % 0x80_0000;
        if field == 0xff {
            if fraction == 0 {
                Unpacked::Infinite { negative }
            } else {
                Unpacked::Nan
            }
        } else {
            proof {
                self.lemma_parts();
            }
            let magnitude = if field == 0 {
                Magnitude { mantissa: fraction as u64, exponent: 0 }
            } else {
                Magnitude { mantissa: (0x80_0000 + fraction) as u64, exponent: (field - 1) as u32 }
            };
            Unpacked::Finite { negative, magnitude }
        }
    }

    /// Puts the bits together.
    pub fn pack(u: Unpacked) -> (r: Single)
        requires
            u.fits(Format::Binary32),
        ensures
            r == Single::of(u.value()),
            r.value() == u.value(),
    {
        let r = match u {
            Unpacked::Nan => Single { bits: 0x7fc0_0000 },
            Unpacked::Infinite { negative } => Single {
                bits: if negative {
                    0x8000_0000 + 0x7f80_0000
                } else {
                    0x7f80_0000
                },
            },
            Unpacked::Finite { negative, magnitude } => {
                proof {
                    lemma2_to64();
                    
                }
                let rest: u32 = magnitude.exponent as u32 * 0x80_0000 + magnitude.mantissa as u32;
                let r = Single {
                    bits: if negative {
                        0x8000_0000 + rest
                    } else {
                        rest
                    },
                };
                proof {
                    assert(rest / 0x80_0000 < 0xff && r.bits % 0x8000_0000 == rest);
                    if magnitude.mantissa < 0x80_0000 {
                        assert(magnitude.mantissa as nat * 1 == magnitude.mantissa as nat);
                    } else {
                        assert(rest / 0x80_0000 == magnitude.exponent + 1);
                        assert(rest % 0x80_0000 == magnitude.mantissa - 0x80_0000);
                    }
                }
                r
            },
        };
        proof {
            Single::lemma_of(r, u.value());
        }
        r
    }

    /// The value with these bits.
    pub fn from_bits(bits: u32) -> (r: Single)
        ensures
            r.bits == bits,
    {
        Single { bits }
    }

    /// The bits of this value.
    pub fn to_bits(self) -> (r: u32)
        ensures
            r == self.bits,
    {
        self.bits
    }

    /// `self + rhs` as a specification.
    #[verifier::opaque]
    pub open spec fn plus_spec(self, rhs: Single) -> Single {
        Single::of(sum(Format::Binary32, self.value(), rhs.value()))
    }

    /// `self + rhs`.
    #[verifier::when_used_as_spec(plus_spec)]
    pub fn plus(self, rhs: Single) -> (r: Single)
        ensures
            r == self.plus_spec(rhs),
            r.value() == sum(Format::Binary32, self.value(), rhs.value()),
    {
        proof {
            reveal(Single::plus_spec);
        }
        Single::pack(add_values(Format::Binary32, self.unpack(), rhs.unpack()))
    }

    /// `self * rhs` as a specification.
    #[verifier::opaque]
    pub open spec fn times_spec(self, rhs: Single) -> Single {
        Single::of(product(Format::Binary32, self.value(), rhs.value()))
    }

    /// `self * rhs`.
    #[verifier::when_used_as_spec(times_spec)]
    pub fn times(self, rhs: Single) -> (r: Single)
        ensures
            r == self.times_spec(rhs),
            r.value() == product(Format::Binary32, self.value(), rhs.value()),
    {
        proof {
            reveal(Single::times_spec);
        }
        Single::pack(multiply_values(Format::Binary32, self.unpack(), rhs.unpack()))
    }

    /// `self / rhs` as a specification.
    #[verifier::opaque]
    pub open spec fn over_spec(self, rhs: Single) -> Single {
        Single::of(quotient(Format::Binary32, self.value(), rhs.value()))
    }

    /// `self / rhs`.
    #[verifier::when_used_as_spec(over_spec)]
    pub fn over(self, rhs: Single) -> (r: Single)
        ensures
            r == self.over_spec(rhs),
            r.value() == quotient(Format::Binary32, self.value(), rhs.value()),
    {
        proof {
            reveal(Single::over_spec);
        }
        Single::pack(divide_values(Format::Binary32, self.unpack(), rhs.unpack()))
    }

    /// The value nearest to `n`, as a specification.
    #[verifier::opaque]
    pub open spec fn natural(n: nat) -> Single {
        Single::of(of_natural(Format::Binary32, n))
    }

    /// The value nearest to `n`.
    pub fn from_u64(n: u64) -> (r: Single)
        ensures
            r == Single::natural(n as nat),
            r.value() == of_natural(Format::Binary32, n as nat),
    {
        proof {
            reveal(Single::natural);
        }
        Single::pack(value_of_natural(Format::Binary32, n))
    }

    /// Integers keep their order.
    pub proof fn lemma_naturals(a: nat, b: nat)
        requires
            a <= b,
        ensures
            Single::natural(a).value() == of_natural(Format::Binary32, a),
            Single::natural(a).at_most_spec(Single::natural(b)),
            Single::natural(0).at_most_spec(Single::natural(b)),
    {
        reveal(Single::natural);
        lemma_naturals(Format::Binary32, a, b);
        lemma_naturals(Format::Binary32, 0, b);
        Single::lemma_of_value(of_natural(Format::Binary32, 0));
        Single::lemma_of_value(of_natural(Format::Binary32, a));
        Single::lemma_of_value(of_natural(Format::Binary32, b));
    }

    /// `self < rhs` as a specification.
    pub open spec fn below_spec(self, rhs: Single) -> bool {
        below(Format::Binary32, self.value(), rhs.value())
    }

    /// `self < rhs`; false with a NaN.
    #[verifier::when_used_as_spec(below_spec)]
    pub fn below(self, rhs: Single) -> (r: bool)
        ensures
            r == self.below_spec(rhs),
    {
        value_below(Format::Binary32, self.unpack(), rhs.unpack())
    }

    /// `self <= rhs` as a specification.
    pub open spec fn at_most_spec(self, rhs: Single) -> bool {
        at_most(Format::Binary32, self.value(), rhs.value())
    }

    /// `self <= rhs`; false with a NaN.
    #[verifier::when_used_as_spec(at_most_spec)]
    pub fn at_most(self, rhs: Single) -> (r: bool)
        ensures
            r == self.at_most_spec(rhs),
    {
        let (a, b) = (self.unpack(), rhs.unpack());
        match (a, b) {
            (Unpacked::Nan, _) => false,
            (_, Unpacked::Nan) => false,
            _ => !value_below(Format::Binary32, b, a),
        }
    }

    /// `-self` as a specification.
    #[verifier::opaque]
    pub open spec fn opposite_spec(self) -> Single {
        Single::of(negated(self.value()))
    }

    /// `-self`.
    #[verifier::when_used_as_spec(opposite_spec)]
    pub fn opposite(self) -> (r: Single)
        ensures
            r == self.opposite_spec(),
            r.value() == negated(self.value()),
    {
        proof {
            reveal(Single::opposite_spec);
        }
        let u = match self.unpack() {
            Unpacked::Nan => Unpacked::Nan,
            Unpacked::Infinite { negative } => Unpacked::Infinite { negative: !negative },
            Unpacked::Finite { negative, magnitude } => Unpacked::Finite {
                negative: !negative,
                magnitude,
            },
        };
        Single::pack(u)
    }

    /// `self - rhs` as a specification.
    #[verifier::opaque]
    pub open spec fn minus_spec(self, rhs: Single) -> Single {
        Single::of(sum(Format::Binary32, self.value(), negated(rhs.value())))
    }

    /// `self - rhs`.
    #[verifier::when_used_as_spec(minus_spec)]
    pub fn minus(self, rhs: Single) -> (r: Single)
        ensures
            r == self.minus_spec(rhs),
            r.value() == sum(Format::Binary32, self.value(), negated(rhs.value())),
    {
        proof {
            reveal(Single::minus_spec);
            reveal(Single::plus_spec);
        }
        self.plus(rhs.opposite())
    }

    /// The square root as a specification.
    #[verifier::opaque]
    pub open spec fn square_root_spec(self) -> Single {
        Single::of(root(Format::Binary32, self.value()))
    }

    /// The square root.
    #[verifier::when_used_as_spec(square_root_spec)]
    pub fn square_root(self) -> (r: Single)
        ensures
            r == self.square_root_spec(),
            r.value() == root(Format::Binary32, self.value()),
    {
        proof {
            reveal(Single::square_root_spec);
        }
        Single::pack(root_of_value(Format::Binary32, self.unpack()))
    }

    /// The remainder as a specification.
    #[verifier::opaque]
    pub open spec fn remainder_spec(self, rhs: Single) -> Single {
        Single::of(remainder(self.value(), rhs.value()))
    }

    /// What is left when `rhs` is taken away as often as it goes in, with the sign
    /// of `self`.
    #[verifier::when_used_as_spec(remainder_spec)]
    pub fn remainder(self, rhs: Single) -> (r: Single)
        ensures
            r == self.remainder_spec(rhs),
            r.value() == remainder(self.value(), rhs.value()),
    {
        proof {
            reveal(Single::remainder_spec);
        }
        Single::pack(remainder_of_values(Format::Binary32, self.unpack(), rhs.unpack()))
    }

    /// Rounding to an integer, half-way cases away from zero, as a specification.
    #[verifier::opaque]
    pub open spec fn rounded_spec(self) -> Single {
        Single::of(rounded(Format::Binary32, self.value()))
    }

    /// Rounds to an integer, half-way cases away from zero.
    #[verifier::when_used_as_spec(rounded_spec)]
    pub fn rounded(self) -> (r: Single)
        ensures
            r == self.rounded_spec(),
            r.value() == rounded(Format::Binary32, self.value()),
    {
        proof {
            reveal(Single::rounded_spec);
        }
        Single::pack(round_value(Format::Binary32, self.unpack()))
    }

    /// The integer part within the `u32` range as a specification.
    #[verifier::opaque]
    pub open spec fn to_u32_spec(self) -> u32 {
        truncated(Format::Binary32, self.value(), u32::MAX as nat) as u32
    }

    /// The integer part, saturating; zero for a NaN.
    #[verifier::when_used_as_spec(to_u32_spec)]
    pub fn to_u32(self) -> (r: u32)
        ensures
            r == self.to_u32_spec(),
            r == truncated(Format::Binary32, self.value(), u32::MAX as nat),
    {
        proof {
            reveal(Single::to_u32_spec);
        }
        value_to_u32(Format::Binary32, self.unpack())
    }

    /// Whether the value is neither infinite nor a NaN.
    pub fn is_finite(self) -> (r: bool)
        ensures
            r == (self.value() is Finite),
    {
        match self.unpack() {
            Unpacked::Finite { .. } => true,
            _ => false,
        }
    }

    /// Whether the value is a NaN.
    pub fn is_nan(self) -> (r: bool)
        ensures
            r == (self.value() is Nan),
    {
        match self.unpack() {
            Unpacked::Nan => true,
            _ => false,
        }
    }

    /// `self` kept between `lo` and `hi`, as a specification.
    pub open spec fn clamped_spec(self, lo: Single, hi: Single) -> Single {
        if self.below_spec(lo) {
            lo
        } else if hi.below_spec(self) {
            hi
        } else {
            self
        }
    }

    /// `self` kept between `lo` and `hi`; a NaN stays one.
    #[verifier::when_used_as_spec(clamped_spec)]
    pub fn clamped(self, lo: Single, hi: Single) -> (r: Single)
        requires
            lo.at_most_spec(hi),
        ensures
            r == self.clamped_spec(lo, hi),
    {
        if self.below(lo) {
            lo
        } else if hi.below(self) {
            hi
        } else {
            self
        }
    }

    /// The smaller one as a specification.
    pub open spec fn lesser_spec(self, rhs: Single) -> Single {
        if self.value() is Nan || rhs.below_spec(self) {
            rhs
        } else {
            self
        }
    }

    /// The smaller one; a NaN gives way to the other.
    #[verifier::when_used_as_spec(lesser_spec)]
    pub fn lesser(self, rhs: Single) -> (r: Single)
        ensures
            r == self.lesser_spec(rhs),
    {
        if self.is_nan() || rhs.below(self) {
            rhs
        } else {
            self
        }
    }

    /// The position in the total order of all bit patterns, which runs from the
    /// negative NaNs through the numbers, negative zero before positive zero,
    /// to the positive NaNs.
    pub open spec fn total_rank(self) -> int {
        if self.bits < 0x8000_0000 {
            self.bits as int
        } else {
            0x7fff_ffff - self.bits
        }
    }

    /// Whether `self` comes before `rhs` in the total order.
    pub fn total_before(self, rhs: Single) -> (r: bool)
        ensures
            r == (self.total_rank() < rhs.total_rank()),
    {
        let negative = self.bits >= 0x8000_0000;
        if negative != (rhs.bits >= 0x8000_0000) {
            negative
        } else if negative {
            self.bits > rhs.bits
        } else {
            self.bits < rhs.bits
        }
    }
}

} // verus!
