//! Magnitudes as a mantissa and an exponent, and their rounding in machine
//! integers.

use crate::binary::rounding::{
    lemma_round_even_bounds, lemma_round_even_from, lemma_round_even_scale, lemma_round_units_at,
    lemma_round_units_exact, round_even, scaled_round,
};
use vstd::arithmetic::div_mod::lemma_fundamental_div_mod;
use vstd::arithmetic::power2::{
    lemma2_to64, lemma2_to64_rest, lemma_pow2_adds, lemma_pow2_pos, lemma_pow2_strictly_increases,
    lemma_pow2_unfold, pow2,
};
use vstd::prelude::*;

verus! {

/// `mantissa * 2^exponent` units.
#[derive(Clone, Copy, Debug, PartialEq, Eq, Structural)]
pub struct Magnitude {
    pub mantissa: u64,
    pub exponent: u32,
}

impl Magnitude {
    /// The magnitude as a count of units.
    pub open spec fn units(self) -> nat {
        self.mantissa as nat * pow2(self.exponent as nat)
    }

    /// The mantissa fits the precision, and uses all of it unless the magnitude
    /// lies where the format's digits thin out.
    pub open spec fn normal(self, precision: nat) -> bool {
        &&& self.mantissa < pow2(precision)
        &&& self.exponent == 0 || self.mantissa >= pow2((precision - 1) as nat)
    }
}

/// `pow2` is monotone.
pub proof fn lemma_pow2_le(a: nat, b: nat)
    requires
        a <= b,
    ensures
        pow2(a) <= pow2(b),
        pow2(a) > 0,
{
    lemma_pow2_pos(a);
    if a < b {
        lemma_pow2_strictly_increases(a, b);
    }
}

/// `2^k` for every `k` that a `u128` has room for.
pub fn power_of_two(k: u32) -> (r: u128)
    requires
        k <= 127,
    ensures
        r == pow2(k as nat),
{
    let mut r: u128 = 1;
    let mut i: u32 = 0;
    proof {
        lemma2_to64();
    }
    while i < k
        invariant
            i <= k <= 127,
            r == pow2(i as nat),
        decreases k - i,
    {
        proof {
            lemma_pow2_unfold((i + 1) as nat);
            lemma_pow2_le((i + 1) as nat, 127);
            lemma_pow2_127();
        }
        r = r * 2;
        i = i + 1;
    }
    r
}

proof fn lemma_pow2_127()
    ensures
        pow2(127) == 0x8000_0000_0000_0000_0000_0000_0000_0000,
{
    lemma2_to64();
    lemma_pow2_adds(63, 64);
    assert(pow2(63) == 0x8000_0000_0000_0000) by {
        lemma_pow2_unfold(64);
    }
}

/// The number of binary digits of `n`.
pub fn bit_length(n: u128) -> (len: u32)
    requires
        n < 0x8000_0000_0000_0000_0000_0000_0000_0000,
    ensures
        len <= 127,
        n < pow2(len as nat),
        len > 0 ==> n >= pow2((len - 1) as nat),
{
    let mut len: u32 = 0;
    let mut top: u128 = 1;
    proof {
        lemma2_to64();
        lemma_pow2_127();
    }
    while top <= n
        invariant
            n < 0x8000_0000_0000_0000_0000_0000_0000_0000,
            len <= 127,
            top == pow2(len as nat),
            len > 0 ==> n >= pow2((len - 1) as nat),
        decreases 127 - len,
    {
        proof {
            lemma_pow2_127();
            if len >= 127 {
                lemma_pow2_le(127, len as nat);
            }
            lemma_pow2_unfold((len + 1) as nat);
            lemma_pow2_le((len + 1) as nat, 127);
        }
        top = top * 2;
        len = len + 1;
    }
    len
}

/// The integer nearest to `n / 2^s`, ties to even.
fn round_shift(n: u128, len: u32, s: u32) -> (m: u128)
    requires
        n < 0x8000_0000_0000_0000_0000_0000_0000_0000,
        len <= 127,
        n < pow2(len as nat),
        s > 0,
    ensures
        m == round_even(n as nat, pow2(s as nat)),
{
    if s > len {
        proof {
            lemma_pow2_le(len as nat, (s - 1) as nat);
            lemma_pow2_unfold(s as nat);
            lemma_round_even_from(n as nat, pow2(s as nat), 0, n as nat);
        }
        0
    } else {
        let t = power_of_two(s);
        proof {
            lemma_pow2_pos(s as nat);
        }
        let q = n / t;
        let r = n % t;
        proof {
            lemma_pow2_pos(s as nat);
            lemma_pow2_unfold(s as nat);
            lemma_fundamental_div_mod(n as int, t as int);
            assert(q as nat * t as nat == t * q) by (nonlinear_arith);
            lemma_round_even_from(n as nat, t as nat, q as nat, r as nat);
        }
        let rest = t - r;
        if r < rest || (r == rest && q % 2 == 0) {
            q
        } else {
            proof {
                assert(q <= n) by (nonlinear_arith)
                    requires
                        n == t * q + r,
                        t >= 1,
                        r >= 0,
                ;
            }
            q + 1
        }
    }
}

proof fn lemma_pow2_62(k: nat)
    requires
        k <= 62,
    ensures
        pow2(k) <= 0x4000_0000_0000_0000,
        pow2(k) > 0,
{
    lemma2_to64_rest();
    lemma_pow2_le(k, 62);
}

/// Rounds `n * 2^e` where digits are lost: `s` of them.
fn round_longer(n: u128, len: u32, e: i32, precision: u32, s: u32) -> (r: Magnitude)
    requires
        n < 0x8000_0000_0000_0000_0000_0000_0000_0000,
        len <= 127,
        n < pow2(len as nat),
        len > 0 ==> n >= pow2((len - 1) as nat),
        -10000 <= e <= 10000,
        2 <= precision <= 62,
        0 < s <= 10000,
        len <= precision + s,
        e + s >= 0,
        e + s == 0 || len == precision + s,
    ensures
        r.units() == scaled_round(n as nat, 1, e as int, precision as nat),
        r.normal(precision as nat),
        r.exponent <= e + s + 1,
{
    let ghost p = precision as nat;
    let f: u32 = (e + s as i32) as u32;
    let m = round_shift(n, len, s);
    proof {
        lemma_round_magnitude_shifted(n as nat, len as nat, e as int, p, s as nat, f as nat);
        lemma_pow2_62(p);
        lemma_pow2_unfold(p);
        assert(pow2(f as nat) * m as nat == m as nat * pow2(f as nat)) by (nonlinear_arith);
    }
    if m == power_of_two(precision) {
        proof {
            lemma_pow2_unfold((f + 1) as nat);
            assert(pow2((p - 1) as nat) * pow2((f + 1) as nat) == m * pow2(f as nat))
                by (nonlinear_arith)
                requires
                    m == 2 * pow2((p - 1) as nat),
                    pow2((f + 1) as nat) == 2 * pow2(f as nat),
            ;
            lemma_pow2_pos((p - 1) as nat);
        }
        Magnitude { mantissa: (m / 2) as u64, exponent: f + 1 }
    } else {
        Magnitude { mantissa: m as u64, exponent: f }
    }
}

/// Gives `n * 2^e` the digits that the precision has room for.
fn round_shorter(n: u128, len: u32, e: u32, precision: u32) -> (r: Magnitude)
    requires
        0 < n < pow2(len as nat),
        len > 0,
        n >= pow2((len - 1) as nat),
        e <= 10000,
        2 <= precision <= 62,
        len <= precision,
    ensures
        r.units() == scaled_round(n as nat, 1, e as int, precision as nat),
        r.normal(precision as nat),
        r.exponent <= e,
{
    let ghost p = precision as nat;
    let room: u32 = precision - len;
    let d: u32 = if room < e {
        room
    } else {
        e
    };
    let t = power_of_two(d);
    proof {
        lemma_pow2_le(len as nat, p);
        lemma_round_units_exact(n as nat, e as nat, 1, p);
        assert((n as nat) * pow2(e as nat) * 1 == (n as nat) * pow2(e as nat));
        lemma_pow2_adds(d as nat, (e - d) as nat);
        lemma_pow2_adds(len as nat, d as nat);
        lemma_pow2_le((len + d) as nat, p);
        lemma_pow2_62(p);
        lemma_pow2_pos(d as nat);
        let u = pow2((e - d) as nat);
        let top = pow2(len as nat);
        assert((n * t) * u == n * (t * u)) by (nonlinear_arith);
        assert(n * t < top * t) by (nonlinear_arith)
            requires
                n < top,
                t > 0,
        ;
        if d == room {
            lemma_pow2_adds((len - 1) as nat, d as nat);
            let low = pow2((len - 1) as nat);
            assert(n * t >= low * t) by (nonlinear_arith)
                requires
                    n >= low,
            ;
        }
    }
    let m = n * t;
    Magnitude { mantissa: m as u64, exponent: e - d }
}

/// Rounds `n * 2^e` to `precision` digits, and to whole units.
pub fn round_magnitude(n: u128, e: i32, precision: u32) -> (r: Magnitude)
    requires
        n < 0x8000_0000_0000_0000_0000_0000_0000_0000,
        -9000 <= e <= 9000,
        2 <= precision <= 62,
    ensures
        r.units() == scaled_round(n as nat, 1, e as int, precision as nat),
        r.normal(precision as nat),
        r.exponent <= 9200,
{
    let len = bit_length(n);
    let over: u32 = if len > precision {
        len - precision
    } else {
        0
    };
    let under: u32 = if e < 0 {
        (-e) as u32
    } else {
        0
    };
    let s: u32 = if over > under {
        over
    } else {
        under
    };
    if s > 0 {
        round_longer(n, len, e, precision, s)
    } else if n == 0 {
        proof {
            lemma_pow2_pos(precision as nat);
            lemma_round_units_exact(0, e as nat, 1, precision as nat);
            assert(0 * pow2(e as nat) == 0 && 0 * pow2(0) == 0);
        }
        Magnitude { mantissa: 0, exponent: 0 }
    } else {
        proof {
            lemma2_to64();
        }
        round_shorter(n, len, e as u32, precision)
    }
}

proof fn lemma_round_magnitude_shifted(n: nat, len: nat, e: int, p: nat, s: nat, f: nat)
    requires
        p >= 2,
        n < pow2(len),
        len > 0 ==> n >= pow2((len - 1) as nat),
        s > 0,
        len <= p + s,
        f == e + s,
        f == 0 || len == p + s,
    ensures
        scaled_round(n, 1, e, p) == pow2(f) * round_even(n, pow2(s)),
        round_even(n, pow2(s)) <= pow2(p),
        f == 0 || round_even(n, pow2(s)) >= pow2((p - 1) as nat),
{
    let w = pow2(s);
    lemma_pow2_pos(s);
    lemma_pow2_adds(p, s);
    lemma_pow2_le(len, p + s);
    if f == 0 {
        lemma_round_even_bounds(n, w, 0, pow2(p));
    } else {
        lemma_pow2_adds((p - 1) as nat, s);
        lemma_round_even_bounds(n, w, pow2((p - 1) as nat), pow2(p));
    }
    if e >= 0 {
        let x = pow2(e as nat);
        lemma_pow2_pos(e as nat);
        let num = n * x;
        lemma_pow2_adds(p + s, e as nat);
        lemma_pow2_adds(s, e as nat);
        assert(num < pow2(p + s) * x) by (nonlinear_arith)
            requires
                num == n * x,
                n < pow2(p + s),
                x > 0,
        ;
        assert(1 * pow2(p + f) == pow2(p + f));
        lemma_pow2_adds((p + s - 1) as nat, e as nat);
        assert(num >= pow2((p + s - 1) as nat) * x) by (nonlinear_arith)
            requires
                num == n * x,
                n >= pow2((p + s - 1) as nat),
        ;
        assert(1 * pow2((p + f - 1) as nat) == pow2((p + f - 1) as nat));
        lemma_round_units_at(num, 1, p, f);
        lemma_round_even_scale(n, w, x);
        assert(x * n == num && x * w == 1 * pow2(f)) by (nonlinear_arith)
            requires
                num == n * x,
                pow2(f) == w * x,
        ;
    } else {
        let d = (-e) as nat;
        lemma_pow2_pos(d);
        lemma_pow2_adds(d, p + f);
        lemma_pow2_adds(d, f);
        assert(1 * pow2(d) == pow2(d));
        if f > 0 {
            lemma_pow2_adds(d, (p + f - 1) as nat);
        }
        lemma_round_units_at(n, pow2(d), p, f);
    }
}

} // verus!
