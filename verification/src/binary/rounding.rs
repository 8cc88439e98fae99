//! Rounding to nearest, ties to even: the arithmetic behind every operation of
//! [`Single`](crate::binary::single::Single) and
//! [`Double`](crate::binary::double::Double).
//!
//! A finite magnitude is counted in *units*, the smallest positive value of its
//! format, so that every representable magnitude is a natural number and the
//! format's gradual underflow needs no case of its own.

use vstd::arithmetic::div_mod::{
    lemma_fundamental_div_mod, lemma_fundamental_div_mod_converse, lemma_mod_bound,
};
use vstd::arithmetic::power2::{
    lemma2_to64, lemma_pow2_adds, lemma_pow2_pos, lemma_pow2_strictly_increases, lemma_pow2_unfold,
    pow2,
};
use vstd::prelude::*;

verus! {

/// The integer nearest to `num / den`; of two equally near ones, the even one.
pub open spec fn round_even(num: nat, den: nat) -> nat {
    let q = num / den;
    let r = num % den;
    if 2 * r < den || (2 * r == den && q % 2 == 0) {
        q
    } else {
        q + 1
    }
}

/// `num / den` rounded to `precision` significant binary digits, but never finer
/// than a whole unit.
pub open spec fn round_units(num: nat, den: nat, precision: nat) -> nat
    decreases num - den,
{
    if den == 0 || precision == 0 {
        0
    } else if num < den * pow2(precision) {
        round_even(num, den)
    } else {
        proof {
            lemma_doubled_below(num, den, precision);
        }
        2 * round_units(num, 2 * den, precision)
    }
}

/// `r` is the integer part of the square root of `n`.
pub open spec fn is_floor_root(n: nat, r: nat) -> bool {
    r * r <= n < (r + 1) * (r + 1)
}

/// The integer part of the square root of `n`.
pub open spec fn floor_root(n: nat) -> nat {
    choose|r: nat| is_floor_root(n, r)
}

/// The square root of `n` rounded to `precision` significant binary digits, for
/// an `n` whose root has more digits than that: a root that is no integer lies
/// strictly between two integers and rounds as the point half-way between them.
pub open spec fn round_root(n: nat, precision: nat) -> nat {
    let r = floor_root(n);
    round_units(
        if r * r == n {
            2 * r
        } else {
            2 * r + 1
        },
        2,
        precision,
    )
}

/// A magnitude that is halved once more stays at least one unit.
pub proof fn lemma_doubled_below(num: nat, den: nat, precision: nat)
    requires
        den > 0,
        precision > 0,
        num >= den * pow2(precision),
    ensures
        2 * den <= num,
{
    lemma_pow2_unfold(precision);
    lemma_pow2_pos((precision - 1) as nat);
    assert(den * pow2(precision) >= den * 2) by (nonlinear_arith)
        requires
            pow2(precision) >= 2,
            den > 0,
    ;
}

/// A quotient and a remainder fix `round_even`.
pub proof fn lemma_round_even_from(num: nat, den: nat, q: nat, r: nat)
    requires
        num == q * den + r,
        r < den,
    ensures
        round_even(num, den) == if 2 * r < den || (2 * r == den && q % 2 == 0) {
            q
        } else {
            q + 1
        },
{
    lemma_fundamental_div_mod_converse(num as int, den as int, q as int, r as int);
}

/// A common factor does not matter.
pub proof fn lemma_round_even_scale(num: nat, den: nat, c: nat)
    requires
        den > 0,
        c > 0,
    ensures
        round_even(c * num, c * den) == round_even(num, den),
{
    let q = num / den;
    let r = num % den;
    lemma_fundamental_div_mod(num as int, den as int);
    assert(num == q * den + r) by (nonlinear_arith)
        requires
            num == den * q + r,
    ;
    assert(c * num == q * (c * den) + c * r) by (nonlinear_arith)
        requires
            num == q * den + r,
    ;
    assert(c * r < c * den) by (nonlinear_arith)
        requires
            r < den,
            c > 0,
    ;
    lemma_round_even_from(c * num, c * den, q, c * r);
    assert(2 * (c * r) < c * den <==> 2 * r < den) by (nonlinear_arith)
        requires
            c > 0,
    ;
    assert(2 * (c * r) == c * den <==> 2 * r == den) by (nonlinear_arith)
        requires
            c > 0,
    ;
}

/// An integer rounds to itself.
pub proof fn lemma_round_even_whole(n: nat, den: nat)
    requires
        den > 0,
    ensures
        round_even(n * den, den) == n,
{
    lemma_round_even_from(n * den, den, n, 0);
}

/// The rounded value is one of the two neighbours.
pub proof fn lemma_round_even_bounds(num: nat, den: nat, lo: nat, hi: nat)
    requires
        den > 0,
        lo * den <= num <= hi * den,
    ensures
        lo <= round_even(num, den) <= hi,
{
    let q = num / den;
    let r = num % den;
    lemma_fundamental_div_mod(num as int, den as int);
    lemma_mod_bound(num as int, den as int);
    assert(lo <= q) by (nonlinear_arith)
        requires
            lo * den <= den * q + r,
            r < den,
            den > 0,
    ;
    assert(q < hi || (q == hi && r == 0)) by (nonlinear_arith)
        requires
            den * q + r <= hi * den,
            r >= 0,
            den > 0,
    ;
}

/// `round_units` in closed form: `k` is how often the magnitude was halved.
pub proof fn lemma_round_units_at(num: nat, den: nat, precision: nat, k: nat)
    requires
        den > 0,
        precision > 0,
        num < den * pow2(precision + k),
        k == 0 || num >= den * pow2((precision + k - 1) as nat),
    ensures
        round_units(num, den, precision) == pow2(k) * round_even(num, den * pow2(k)),
    decreases k,
{
    if k == 0 {
        lemma2_to64();
        assert(den * 1 == den);
    } else {
        lemma_pow2_pos(precision);
        if k > 1 {
            lemma_pow2_strictly_increases(precision, (precision + k - 1) as nat);
        }
        assert(num >= den * pow2(precision)) by (nonlinear_arith)
            requires
                num >= den * pow2((precision + k - 1) as nat),
                pow2((precision + k - 1) as nat) >= pow2(precision),
        ;
        lemma_doubled_below(num, den, precision);
        lemma_pow2_unfold(precision + k);
        lemma_pow2_unfold(k);
        let j = (k - 1) as nat;
        assert((2 * den) * pow2((precision + k - 1) as nat) == den * pow2(precision + k))
            by (nonlinear_arith)
            requires
                pow2(precision + k) == 2 * pow2((precision + k - 1) as nat),
        ;
        if j > 0 {
            lemma_pow2_unfold((precision + k - 1) as nat);
            assert((2 * den) * pow2((precision + j - 1) as nat) == den * pow2(
                (precision + k - 1) as nat,
            )) by (nonlinear_arith)
                requires
                    pow2((precision + k - 1) as nat) == 2 * pow2((precision + j - 1) as nat),
            ;
        }
        lemma_round_units_at(num, 2 * den, precision, j);
        assert((2 * den) * pow2(j) == den * pow2(k)) by (nonlinear_arith)
            requires
                pow2(k) == 2 * pow2(j),
        ;
        let e = round_even(num, den * pow2(k));
        assert(2 * (pow2(j) * e) == pow2(k) * e) by (nonlinear_arith)
            requires
                pow2(k) == 2 * pow2(j),
        ;
    }
}

/// `num / den * 2^e`, rounded.
pub open spec fn scaled_round(num: nat, den: nat, e: int, precision: nat) -> nat {
    if e >= 0 {
        round_units(num * pow2(e as nat), den, precision)
    } else {
        round_units(num, den * pow2((-e) as nat), precision)
    }
}

/// A common factor does not matter.
pub proof fn lemma_round_units_scale(num: nat, den: nat, c: nat, precision: nat)
    requires
        den > 0,
        c > 0,
        precision > 0,
    ensures
        round_units(c * num, c * den, precision) == round_units(num, den, precision),
    decreases num - den,
{
    let p = pow2(precision);
    assert(c * den > 0) by (nonlinear_arith)
        requires
            c > 0,
            den > 0,
    ;
    assert(c * num < (c * den) * p <==> num < den * p) by (nonlinear_arith)
        requires
            c > 0,
    ;
    if num < den * p {
        lemma_round_even_scale(num, den, c);
    } else {
        lemma_doubled_below(num, den, precision);
        lemma_round_units_scale(num, 2 * den, c, precision);
        assert(2 * (c * den) == c * (2 * den)) by (nonlinear_arith);
    }
}

/// A magnitude with no more digits than the precision is kept.
pub proof fn lemma_round_units_exact(m: nat, f: nat, den: nat, precision: nat)
    requires
        den > 0,
        precision > 0,
        m < pow2(precision),
    ensures
        round_units(m * pow2(f) * den, den, precision) == m * pow2(f),
    decreases f,
{
    let p = pow2(precision);
    let x = m * pow2(f);
    assert(x * den < den * p <==> x < p) by (nonlinear_arith)
        requires
            den > 0,
    ;
    if x < p {
        lemma_round_even_whole(x, den);
    } else {
        if f == 0 {
            lemma2_to64();
            assert(m * 1 == m);
        }
        lemma_pow2_unfold(f);
        let y = m * pow2((f - 1) as nat);
        assert(x == 2 * y) by (nonlinear_arith)
            requires
                x == m * pow2(f),
                y == m * pow2((f - 1) as nat),
                pow2(f) == 2 * pow2((f - 1) as nat),
        ;
        assert(x * den == y * (2 * den)) by (nonlinear_arith)
            requires
                x == 2 * y,
        ;
        lemma_round_units_exact(m, (f - 1) as nat, 2 * den, precision);
    }
}

/// A point strictly between two integers rounds as their middle does, where the
/// quantum is at least two.
proof fn lemma_round_even_sticky(num: nat, den: nat, q: nat, r: nat, j: nat)
    requires
        num == q * den + r,
        0 < r < den,
        j >= 1,
    ensures
        round_even(num, den * pow2(j)) == round_even(2 * q + 1, 2 * pow2(j)),
{
    let t = pow2(j);
    lemma_pow2_pos(j);
    lemma_pow2_unfold(j);
    let h = pow2((j - 1) as nat);
    let a = q / t;
    let b = q % t;
    lemma_fundamental_div_mod(q as int, t as int);
    lemma_mod_bound(q as int, t as int);
    assert(num == a * (den * t) + (b * den + r)) by (nonlinear_arith)
        requires
            num == q * den + r,
            q == t * a + b,
    ;
    assert(b * den + r < den * t) by (nonlinear_arith)
        requires
            b + 1 <= t,
            r < den,
    ;
    assert(2 * q + 1 == a * (2 * t) + (2 * b + 1)) by (nonlinear_arith)
        requires
            q == t * a + b,
    ;
    lemma_round_even_from(num, den * t, a, b * den + r);
    lemma_round_even_from(2 * q + 1, 2 * t, a, 2 * b + 1);
    if b + 1 <= h {
        assert(2 * (b * den + r) < den * t) by (nonlinear_arith)
            requires
                b + 1 <= h,
                t == 2 * h,
                r < den,
        ;
    } else {
        assert(2 * (b * den + r) > den * t) by (nonlinear_arith)
            requires
                b >= h,
                t == 2 * h,
                r > 0,
        ;
    }
}

proof fn lemma_round_units_sticky_from(num: nat, den: nat, q: nat, r: nat, j: nat, precision: nat)
    requires
        num == q * den + r,
        0 < r < den,
        j >= 1,
        precision > 0,
    ensures
        round_units(num, den * pow2(j), precision) == round_units(
            2 * q + 1,
            2 * pow2(j),
            precision,
        ),
    decreases (q + 1) - pow2(j),
{
    let t = pow2(j);
    let p = pow2(precision);
    lemma_pow2_pos(j);
    lemma_pow2_pos(precision);
    lemma_pow2_unfold(precision);
    let d = den * t;
    assert(d > 0) by (nonlinear_arith)
        requires
            d == den * t,
            den > 0,
            t > 0,
    ;
    assert(num < d * p <==> q < t * p) by (nonlinear_arith)
        requires
            d == den * t,
            num == q * den + r,
            0 < r < den,
    ;
    assert(2 * q + 1 < (2 * t) * p <==> q < t * p) by (nonlinear_arith);
    if q < t * p {
        lemma_round_even_sticky(num, den, q, r, j);
    } else {
        lemma_pow2_unfold(j + 1);
        assert(t * p >= 2 * t) by (nonlinear_arith)
            requires
                p >= 2,
                t > 0,
        ;
        lemma_round_units_sticky_from(num, den, q, r, j + 1, precision);
        assert(2 * d == den * pow2(j + 1)) by (nonlinear_arith)
            requires
                d == den * t,
                pow2(j + 1) == 2 * t,
        ;
    }
}

/// Halving the magnitude halves the result, where it has digits to spare.
pub proof fn lemma_round_units_shift(num: nat, den: nat, e: nat, precision: nat)
    requires
        den > 0,
        precision > 0,
        num >= den * pow2((precision - 1) as nat),
    ensures
        round_units(num * pow2(e), den, precision) == pow2(e) * round_units(num, den, precision),
    decreases e,
{
    if e == 0 {
        lemma2_to64();
        assert(num * 1 == num);
    } else {
        let y = num * pow2((e - 1) as nat);
        let x = num * pow2(e);
        lemma_pow2_unfold(e);
        lemma_pow2_unfold(precision);
        lemma_pow2_pos((e - 1) as nat);
        assert(x == 2 * y) by (nonlinear_arith)
            requires
                x == num * pow2(e),
                y == num * pow2((e - 1) as nat),
                pow2(e) == 2 * pow2((e - 1) as nat),
        ;
        assert(y >= num) by (nonlinear_arith)
            requires
                y == num * pow2((e - 1) as nat),
                pow2((e - 1) as nat) >= 1,
        ;
        assert(x >= den * pow2(precision)) by (nonlinear_arith)
            requires
                x >= 2 * num,
                num >= den * pow2((precision - 1) as nat),
                pow2(precision) == 2 * pow2((precision - 1) as nat),
        ;
        lemma_round_units_scale(y, den, 2, precision);
        lemma_round_units_shift(num, den, (e - 1) as nat, precision);
        let w = round_units(num, den, precision);
        assert(2 * (pow2((e - 1) as nat) * w) == pow2(e) * w) by (nonlinear_arith)
            requires
                pow2(e) == 2 * pow2((e - 1) as nat),
        ;
    }
}

/// A quotient that is no integer rounds as the middle between its neighbours,
/// where it has more digits than the precision.
pub proof fn lemma_scaled_round_sticky(
    num: nat,
    den: nat,
    q: nat,
    r: nat,
    e: int,
    precision: nat,
)
    requires
        num == q * den + r,
        0 < r < den,
        precision > 0,
        q >= pow2(precision),
    ensures
        scaled_round(num, den, e, precision) == scaled_round(2 * q + 1, 2, e, precision),
{
    if e < 0 {
        lemma_round_units_sticky_from(num, den, q, r, (-e) as nat, precision);
    } else {
        lemma2_to64();
        lemma_pow2_pos(precision);
        lemma_pow2_unfold(precision);
        assert(num >= den * pow2(precision)) by (nonlinear_arith)
            requires
                num >= q * den,
                q >= pow2(precision),
        ;
        assert(den * pow2(precision) >= den * pow2((precision - 1) as nat)) by (nonlinear_arith)
            requires
                pow2(precision) >= pow2((precision - 1) as nat),
        ;
        lemma_round_units_shift(num, den, e as nat, precision);
        lemma_round_units_shift(2 * q + 1, 2, e as nat, precision);
        lemma_doubled_below(num, den, precision);
        lemma_round_units_sticky_from(num, den, q, r, 1, precision);
        assert(round_units(num, den, precision) == 2 * round_units(num, 2 * den, precision));
        assert(round_units(2 * q + 1, 2, precision) == 2 * round_units(2 * q + 1, 4, precision));
        assert(den * pow2(1) == 2 * den) by (nonlinear_arith)
            requires
                pow2(1) == 2,
        ;
    }
}

/// Powers of two on either side of the fraction bar come together.
pub proof fn lemma_scaled_round_of(a: nat, b: nat, s: nat, t: nat, precision: nat)
    requires
        b > 0,
        precision > 0,
    ensures
        round_units(a * pow2(s), b * pow2(t), precision) == scaled_round(
            a,
            b,
            s - t,
            precision,
        ),
{
    lemma_pow2_pos(s);
    lemma_pow2_pos(t);
    if s >= t {
        let e = (s - t) as nat;
        lemma_pow2_adds(e, t);
        lemma_round_units_scale(a * pow2(e), b, pow2(t), precision);
        assert(pow2(t) * (a * pow2(e)) == a * pow2(s)) by (nonlinear_arith)
            requires
                pow2(e) * pow2(t) == pow2(s),
        ;
        assert(pow2(t) * b == b * pow2(t)) by (nonlinear_arith);
    } else {
        let e = (t - s) as nat;
        lemma_pow2_adds(e, s);
        lemma_pow2_pos(e);
        assert(b * pow2(e) > 0) by (nonlinear_arith)
            requires
                b > 0,
                pow2(e) > 0,
        ;
        lemma_round_units_scale(a, b * pow2(e), pow2(s), precision);
        assert(pow2(s) * (b * pow2(e)) == b * pow2(t)) by (nonlinear_arith)
            requires
                pow2(e) * pow2(s) == pow2(t),
        ;
        assert(pow2(s) * a == a * pow2(s)) by (nonlinear_arith);
    }
}

/// `units` has no more than `precision` significant digits: `m * 2^e` with a
/// mantissa that fits, and that uses all digits unless it counts whole units.
pub open spec fn written_as(units: nat, m: nat, e: nat, precision: nat) -> bool {
    &&& units == m * pow2(e)
    &&& m < pow2(precision)
    &&& e == 0 || m >= pow2((precision - 1) as nat)
}

/// What is rounded has a mantissa and an exponent.
pub proof fn lemma_round_units_written(num: nat, den: nat, precision: nat) -> (r: (nat, nat))
    requires
        den > 0,
        precision >= 2,
    ensures
        written_as(round_units(num, den, precision), r.0, r.1, precision),
        num >= den * pow2((precision - 1) as nat) ==> r.0 >= pow2((precision - 1) as nat),
    decreases num - den,
{
    let p = pow2(precision);
    let low = pow2((precision - 1) as nat);
    lemma_pow2_unfold(precision);
    lemma_pow2_pos((precision - 1) as nat);
    lemma2_to64();
    if num < den * p {
        let n = round_even(num, den);
        assert(num <= p * den) by (nonlinear_arith)
            requires
                num < den * p,
        ;
        lemma_round_even_bounds(num, den, 0, p);
        if num >= den * low {
            assert(low * den <= num) by (nonlinear_arith)
                requires
                    num >= den * low,
            ;
            lemma_round_even_bounds(num, den, low, p);
        }
        if n == p {
            assert(p == low * 2) by (nonlinear_arith)
                requires
                    p == 2 * low,
            ;
            (low, 1)
        } else {
            assert(n * 1 == n);
            (n, 0)
        }
    } else {
        lemma_doubled_below(num, den, precision);
        assert((2 * den) * low == den * p) by (nonlinear_arith)
            requires
                p == 2 * low,
        ;
        let (m, e) = lemma_round_units_written(num, 2 * den, precision);
        lemma_pow2_unfold(e + 1);
        let x = pow2(e);
        assert(2 * (m * x) == m * (2 * x)) by (nonlinear_arith);
        (m, e + 1)
    }
}

/// Rounding keeps the order.
pub proof fn lemma_round_units_monotone(a: nat, b: nat, den: nat, precision: nat)
    requires
        den > 0,
        precision > 0,
        a <= b,
    ensures
        round_units(a, den, precision) <= round_units(b, den, precision),
    decreases b - den,
{
    let p = pow2(precision);
    if b < den * p {
        lemma_round_even_monotone(a, b, den);
    } else {
        lemma_doubled_below(b, den, precision);
        lemma_round_units_monotone(a, b, 2 * den, precision);
        if a < den * p {
            lemma_round_even_monotone(a, b, den);
            lemma_round_units_halved(a, den, b, precision);
        }
    }
}

proof fn lemma_round_even_monotone(a: nat, b: nat, den: nat)
    requires
        den > 0,
        a <= b,
    ensures
        round_even(a, den) <= round_even(b, den),
{
    let qa = a / den;
    let qb = b / den;
    lemma_fundamental_div_mod(a as int, den as int);
    lemma_fundamental_div_mod(b as int, den as int);
    lemma_mod_bound(a as int, den as int);
    lemma_mod_bound(b as int, den as int);
    let ra = a % den;
    let rb = b % den;
    assert(qa < qb || (qa == qb && ra <= rb)) by (nonlinear_arith)
        requires
            den * qa + ra <= den * qb + rb,
            0 <= ra < den,
            0 <= rb < den,
            den > 0,
    ;
}

/// Below and above the point where a digit is dropped.
proof fn lemma_round_units_halved(a: nat, den: nat, b: nat, precision: nat)
    requires
        den > 0,
        precision > 0,
        a < den * pow2(precision) <= b,
    ensures
        round_even(a, den) <= 2 * round_units(b, 2 * den, precision),
    decreases b - den,
{
    let p = pow2(precision);
    let low = pow2((precision - 1) as nat);
    lemma_pow2_unfold(precision);
    lemma_doubled_below(b, den, precision);
    assert(a <= p * den) by (nonlinear_arith)
        requires
            a < den * p,
    ;
    lemma_round_even_bounds(a, den, 0, p);
    assert((2 * den) * low == den * p) by (nonlinear_arith)
        requires
            p == 2 * low,
    ;
    lemma_round_units_at_least(b, 2 * den, precision);
}

/// A magnitude with all digits keeps them.
pub proof fn lemma_round_units_at_least(num: nat, den: nat, precision: nat)
    requires
        den > 0,
        precision > 0,
        num >= den * pow2((precision - 1) as nat),
    ensures
        round_units(num, den, precision) >= pow2((precision - 1) as nat),
    decreases num - den,
{
    let p = pow2(precision);
    let low = pow2((precision - 1) as nat);
    lemma_pow2_unfold(precision);
    if num < den * p {
        assert(low * den <= num && num <= p * den) by (nonlinear_arith)
            requires
                num >= den * low,
                num < den * p,
        ;
        lemma_round_even_bounds(num, den, low, p);
    } else {
        lemma_doubled_below(num, den, precision);
        assert((2 * den) * low == den * p) by (nonlinear_arith)
            requires
                p == 2 * low,
        ;
        lemma_round_units_at_least(num, 2 * den, precision);
    }
}

/// Rounding loses less than one part in `2^precision`.
pub proof fn lemma_round_units_lower(num: nat, den: nat, precision: nat)
    requires
        den > 0,
        precision > 0,
        num >= den * pow2((precision - 1) as nat),
    ensures
        round_units(num, den, precision) * den * pow2(precision) >= num * (pow2(precision) - 1),
    decreases num - den,
{
    let p = pow2(precision);
    let low = pow2((precision - 1) as nat);
    lemma_pow2_unfold(precision);
    lemma_pow2_pos((precision - 1) as nat);
    if num < den * p {
        let n = round_even(num, den);
        lemma_fundamental_div_mod(num as int, den as int);
        lemma_mod_bound(num as int, den as int);
        let q = num / den;
        let r = num % den;
        assert(2 * (n * den) + den >= 2 * num) by (nonlinear_arith)
            requires
                num == den * q + r,
                (n == q && 2 * r <= den) || (n == q + 1 && r < den),
        ;
        assert(n * den * p >= num * (p - 1)) by (nonlinear_arith)
            requires
                2 * (n * den) + den >= 2 * num,
                num >= den * low,
                p == 2 * low,
                low >= 1,
        ;
    } else {
        lemma_doubled_below(num, den, precision);
        assert((2 * den) * low == den * p) by (nonlinear_arith)
            requires
                p == 2 * low,
        ;
        lemma_round_units_lower(num, 2 * den, precision);
        let w = round_units(num, 2 * den, precision);
        assert(2 * w * den * p == w * (2 * den) * p) by (nonlinear_arith);
    }
}

/// Rounding adds no more than half of the last digit that is kept.
pub proof fn lemma_round_units_upper(num: nat, den: nat, precision: nat)
    requires
        den > 0,
        precision > 0,
        num >= den * pow2((precision - 1) as nat),
    ensures
        round_units(num, den, precision) * den * pow2(precision) <= num * (pow2(precision) + 1),
    decreases num - den,
{
    let p = pow2(precision);
    let low = pow2((precision - 1) as nat);
    lemma_pow2_unfold(precision);
    lemma_pow2_pos((precision - 1) as nat);
    if num < den * p {
        let n = round_even(num, den);
        lemma_fundamental_div_mod(num as int, den as int);
        lemma_mod_bound(num as int, den as int);
        let q = num / den;
        let r = num % den;
        assert(2 * (n * den) <= 2 * num + den) by (nonlinear_arith)
            requires
                num == den * q + r,
                (n == q && r >= 0) || (n == q + 1 && 2 * r >= den),
        ;
        assert(n * den * p <= num * (p + 1)) by (nonlinear_arith)
            requires
                2 * (n * den) <= 2 * num + den,
                num >= den * low,
                p == 2 * low,
                low >= 1,
        ;
    } else {
        lemma_doubled_below(num, den, precision);
        assert((2 * den) * low == den * p) by (nonlinear_arith)
            requires
                p == 2 * low,
        ;
        lemma_round_units_upper(num, 2 * den, precision);
        let w = round_units(num, 2 * den, precision);
        assert(2 * w * den * p == w * (2 * den) * p) by (nonlinear_arith);
    }
}

/// The distance of two integers.
pub open spec fn gap(a: int, b: int) -> int {
    if a < b {
        b - a
    } else {
        a - b
    }
}

/// What is rounded is near: within one part in `2^precision`, or half a unit.
pub proof fn lemma_round_units_near(num: nat, den: nat, precision: nat)
    requires
        den > 0,
        precision > 0,
    ensures
        gap((round_units(num, den, precision) * den) as int, num as int) * pow2(precision) <= num
            + den * pow2((precision - 1) as nat),
        den == 1 ==> gap(round_units(num, den, precision) as int, num as int) * pow2(precision)
            <= num,
{
    let p = pow2(precision);
    let low = pow2((precision - 1) as nat);
    let q = round_units(num, den, precision);
    lemma_pow2_unfold(precision);
    lemma_pow2_pos((precision - 1) as nat);
    if num >= den * low {
        lemma_round_units_lower(num, den, precision);
        lemma_round_units_upper(num, den, precision);
        let x = q * den;
        assert(gap(x as int, num as int) * p <= num) by (nonlinear_arith)
            requires
                x * p >= num * (p - 1),
                x * p <= num * (p + 1),
                gap(x as int, num as int) == x - num || gap(x as int, num as int) == num - x,
        ;
        assert(den * low >= 0) by (nonlinear_arith);
        if den == 1 {
            assert(q * 1 == q);
        }
    } else {
        assert(num < den * p) by (nonlinear_arith)
            requires
                num < den * low,
                p == 2 * low,
                low > 0,
        ;
        let r = num % den;
        let d = num / den;
        lemma_fundamental_div_mod(num as int, den as int);
        lemma_mod_bound(num as int, den as int);
        let x = q * den;
        assert(2 * gap(x as int, num as int) <= den) by (nonlinear_arith)
            requires
                x == q * den,
                num == den * d + r,
                (q == d && 2 * r <= den) || (q == d + 1 && 2 * r >= den),
                0 <= r < den,
                gap(x as int, num as int) == x - num || gap(x as int, num as int) == num - x,
        ;
        let g = gap(x as int, num as int);
        assert(g * p <= den * low) by (nonlinear_arith)
            requires
                2 * g <= den,
                p == 2 * low,
                low > 0,
        ;
        if den == 1 {
            assert(g == 0);
            assert(q * 1 == q);
            assert(0 * p == 0);
        }
    }
}

} // verus!
