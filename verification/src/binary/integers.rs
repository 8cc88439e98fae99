//! Integers in single precision.

use crate::binary::magnitude::lemma_pow2_le;
use crate::binary::rounding::lemma_round_units_exact;
use crate::binary::single::Single;
use crate::binary::value::{
    lemma_naturals, lemma_small_natural, nearest_natural, of_natural, rounded, Format, Value,
};
use vstd::arithmetic::div_mod::{lemma_fundamental_div_mod, lemma_fundamental_div_mod_converse};
use vstd::arithmetic::power2::{
    lemma2_to64, lemma_pow2_adds, lemma_pow2_pos, lemma_pow2_unfold, pow2,
};
use vstd::prelude::*;

verus! {

/// An integer of at most 24 digits is held exactly.
pub proof fn lemma_exact_integer(n: nat)
    requires
        n < 0x100_0000,
    ensures
        of_natural(Format::Binary32, n) == (Value::Finite {
            negative: false,
            units: n * pow2(149),
        }),
        Single::natural(n).value() == of_natural(Format::Binary32, n),
        Single::natural(n) == Single::of(of_natural(Format::Binary32, n)),
        n * pow2(149) < pow2(277),
{
    lemma2_to64();
    reveal(Single::natural);
    lemma_small_natural(Format::Binary32, n);
    lemma_naturals(Format::Binary32, n, n);
    Single::lemma_of_value(of_natural(Format::Binary32, n));
    lemma_pow2_pos(149);
    lemma_pow2_adds(24, 149);
    lemma_pow2_le(173, 276);
    lemma_pow2_unfold(277);
    assert(n * pow2(149) < pow2(173)) by (nonlinear_arith)
        requires
            n < 16777216,
            pow2(173) == 16777216 * pow2(149),
            pow2(149) > 0,
    ;
}

/// Sums, differences, products and quotients of integers of at most 24 digits are
/// exact wherever they are such integers themselves.
pub proof fn law_small_integers_are_exact(a: nat, b: nat)
    requires
        a < 0x100_0000,
        b < 0x100_0000,
    ensures
        a + b < 0x100_0000 ==> Single::natural(a).plus(Single::natural(b)) == Single::natural(
            a + b,
        ),
        a >= b ==> Single::natural(a).minus(Single::natural(b)) == Single::natural((a - b) as nat),
        a * b < 0x100_0000 ==> Single::natural(a).times(Single::natural(b)) == Single::natural(
            a * b,
        ),
        b > 0 && a % b == 0 ==> Single::natural(a).over(Single::natural(b)) == Single::natural(
            a / b,
        ),
        Single::natural(a).below(Single::natural(b)) <==> a < b,
        Single::natural(a).at_most(Single::natural(b)) <==> a <= b,
{
    let f = Format::Binary32;
    let u = pow2(149);
    lemma2_to64();
    lemma_pow2_pos(149);
    lemma_exact_integer(a);
    lemma_exact_integer(b);
    reveal(Single::plus_spec);
    reveal(Single::minus_spec);
    reveal(Single::times_spec);
    reveal(Single::over_spec);
    assert((a + b) * u == a * u + b * u) by (nonlinear_arith);
    assert(a < b <==> a * u < b * u) by (nonlinear_arith)
        requires
            u > 0,
    ;
    assert(a <= b <==> a * u <= b * u) by (nonlinear_arith)
        requires
            u > 0,
    ;
    if a + b < 0x100_0000 {
        lemma_exact_integer(a + b);
        lemma_round_units_exact(a + b, 149, 1, 24);
        assert((a + b) * u * 1 == (a + b) * u);
    }
    if a >= b {
        let d = (a - b) as nat;
        lemma_exact_integer(d);
        assert(d * u == a * u - b * u) by (nonlinear_arith)
            requires
                d == a - b,
        ;
        assert(a == b <==> a * u == b * u) by (nonlinear_arith)
            requires
                u > 0,
        ;
        lemma_round_units_exact(d, 149, 1, 24);
        assert(d * u * 1 == d * u);
        assert(0 * u == 0);
    }
    if a * b < 0x100_0000 {
        lemma_exact_integer(a * b);
        lemma_round_units_exact(a * b, 149, u, 24);
        assert((a * u) * (b * u) == (a * b) * u * u) by (nonlinear_arith);
    }
    if b > 0 && a % b == 0 {
        let q = a / b;
        lemma_fundamental_div_mod(a as int, b as int);
        assert(q * b == a && q <= a) by (nonlinear_arith)
            requires
                a == b * q,
                b >= 1,
        ;
        lemma_exact_integer(q);
        assert(b * u > 0) by (nonlinear_arith)
            requires
                b > 0,
                u > 0,
        ;
        lemma_round_units_exact(q, 149, b * u, 24);
        assert((a * u) * u == q * u * (b * u)) by (nonlinear_arith)
            requires
                a == q * b,
        ;
    }
}

/// An integer of at most 24 digits is its own nearest integer, and comes back as it
/// is.
pub proof fn law_small_integers_come_back(n: nat)
    requires
        n < 0x100_0000,
    ensures
        Single::natural(n).rounded() == Single::natural(n),
        Single::natural(n).to_u32() == n,
{
    let f = Format::Binary32;
    let u = pow2(149);
    lemma_pow2_pos(149);
    lemma_exact_integer(n);
    reveal(Single::rounded_spec);
    reveal(Single::to_u32_spec);
    assert(2 * (n * u) + u == n * (2 * u) + u) by (nonlinear_arith);
    lemma_fundamental_div_mod_converse(
        (2 * (n * u) + u) as int,
        (2 * u) as int,
        n as int,
        u as int,
    );
    assert(nearest_natural(f, n * u) == n);
    lemma_fundamental_div_mod_converse((n * u) as int, u as int, n as int, 0);
}

} // verus!
