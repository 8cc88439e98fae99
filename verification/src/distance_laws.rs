//! Distances in an image are those of the plane, and what follows for the choice among
//! candidates.

use crate::binary::magnitude::lemma_pow2_le;
use crate::binary::nearness::{
    finite, lemma_minus_near, lemma_plus_near, lemma_square_root_near, lemma_times_near,
    lemma_values, size, units,
};
use crate::binary::rounding::gap;
use crate::binary::single::Single;
use crate::binary::value::{negated, product, sum, Format, Value};
use crate::detection::Detection;
use crate::recovery::observation_score;
use crate::recovery_filter::distance_between;
use vstd::arithmetic::power2::{lemma2_to64, lemma_pow2_adds, lemma_pow2_pos, pow2};
use vstd::prelude::*;

verus! {

/// Both coordinates are numbers of a usual size: not beyond 1024 either way.
pub open spec fn usual_place(p: (Single, Single)) -> bool {
    &&& finite(p.0) && size(units(p.0)) <= 1024 * pow2(149)
    &&& finite(p.1) && size(units(p.1)) <= 1024 * pow2(149)
}

/// The square of an integer.
pub open spec fn square(n: int) -> int {
    n * n
}

/// The square of the distance of two points in the plane: the squares of the two
/// differences, added up.
pub open spec fn square_apart(a: (Single, Single), b: (Single, Single)) -> int {
    square(units(a.0) - units(b.0)) + square(units(a.1) - units(b.1))
}

/// The chain of inequalities from a difference to its square.
proof fn lemma_square_chain(u: int, d: int, x: int, p: int)
    requires
        u > 0,
        gap(x, d) * 16777216 <= size(d),
        gap(p * u, x * x) * 16777216 <= size(x * x) + 8388608 * u,
    ensures
        p >= 0,
        gap(p * u, d * d) * 16777216 <= 5 * (d * d) + 16777216 * u,
        x * x <= 2 * (d * d),
{
    let e = 16777216int;
    let dd = d * d;
    let xx = x * x;
    let g = gap(x, d);
    let s = size(d);
    assert(xx >= 0 && dd >= 0 && dd == s * s) by (nonlinear_arith)
        requires
            xx == x * x,
            dd == d * d,
            s == d || s == -d,
    ;
    assert(gap(xx, dd) * e <= 3 * dd) by (nonlinear_arith)
        requires
            xx == x * x,
            dd == d * d,
            dd == s * s,
            g * e <= s,
            e == 16777216,
            g == x - d || g == d - x,
            g >= 0,
            s == d || s == -d,
            s >= 0,
            gap(xx, dd) == xx - dd || gap(xx, dd) == dd - xx,
    ;
    let pu = p * u;
    assert(gap(pu, dd) * e <= 5 * dd + e * u);
    assert(p >= 0) by (nonlinear_arith)
        requires
            pu == p * u,
            pu * 2 > -2 * u,
            u > 0,
    ;
}

/// The chain of inequalities from two squares to their sum.
proof fn lemma_sum_chain(u: int, dd: int, gg: int, p: int, q: int, s: int)
    requires
        u > 0,
        dd >= 0,
        gg >= 0,
        p >= 0,
        q >= 0,
        gap(p * u, dd) * 16777216 <= 5 * dd + 16777216 * u,
        gap(q * u, gg) * 16777216 <= 5 * gg + 16777216 * u,
        gap(s, p + q) * 16777216 <= p + q,
    ensures
        s >= 0,
        gap(s * u, dd + gg) * 16777216 <= 7 * (dd + gg) + 50331648 * u,
{
    let e = 16777216int;
    let pu = p * u;
    let qu = q * u;
    let su = s * u;
    let t = (p + q) * u;
    assert(t == pu + qu) by (nonlinear_arith)
        requires
            t == (p + q) * u,
            pu == p * u,
            qu == q * u,
    ;
    let g = gap(s, p + q);
    let k = p + q;
    assert(gap(su, t) * e <= t) by (nonlinear_arith)
        requires
            su == s * u,
            t == k * u,
            g * e <= k,
            s >= k ==> g == s - k,
            s < k ==> g == k - s,
            e > 0,
            u > 0,
            gap(su, t) == su - t || gap(su, t) == t - su,
            gap(su, t) >= 0,
    ;
    assert(gap(t, dd + gg) * e <= 5 * (dd + gg) + 2 * e * u);
    assert(t <= 2 * (dd + gg) + 3 * u);
    assert(3 * u <= e * u) by (nonlinear_arith)
        requires
            u > 0,
            e == 16777216,
    ;
}

/// How far the sum of the squares of two differences is rounded away.
#[verifier::rlimit(40)]
proof fn lemma_squares_near(a: (Single, Single), b: (Single, Single))
    requires
        usual_place(a),
        usual_place(b),
    ensures
        ({
            let dx = a.0.minus(b.0);
            let dy = a.1.minus(b.1);
            let s = dx.times(dx).plus(dy.times(dy));
            &&& finite(s)
            &&& units(s) >= 0
            &&& gap(units(s) * pow2(149), square_apart(a, b)) * 16777216 <= 7 * square_apart(a, b)
                + 50331648 * pow2(149)
        }),
{
    let u = pow2(149) as int;
    let big = pow2(276) as int;
    lemma2_to64();
    lemma_pow2_pos(149);
    lemma_pow2_adds(24, 149);
    lemma_pow2_adds(50, 149);
    lemma_pow2_le(173, 276);
    lemma_pow2_le(199, 276);
    lemma_pow2_le(48, 50);
    lemma_pow2_adds(24, 24);
    assert(pow2(173) == 16777216 * u);
    let dx = a.0.minus(b.0);
    let dy = a.1.minus(b.1);
    let d = units(a.0) - units(b.0);
    let g = units(a.1) - units(b.1);
    lemma_minus_near(a.0, b.0);
    lemma_minus_near(a.1, b.1);
    let x = units(dx);
    let y = units(dy);
    assert(size(d) <= 2048 * u && size(g) <= 2048 * u);
    assert(size(x) <= 4096 * u && size(y) <= 4096 * u);
    let sx = size(x);
    let sy = size(y);
    assert(sx * sx <= big * u && sy * sy <= big * u) by (nonlinear_arith)
        requires
            0 <= sx <= 4096 * u,
            0 <= sy <= 4096 * u,
            16777216 * u <= big,
            u > 0,
    ;
    lemma_times_near(dx, dx);
    lemma_times_near(dy, dy);
    let p = units(dx.times(dx));
    let q = units(dy.times(dy));
    lemma_square_chain(u, d, x, p);
    lemma_square_chain(u, g, y, q);
    let dd = d * d;
    let gg = g * g;
    assert(dd >= 0 && dd <= 4194304 * (u * u) && gg >= 0 && gg <= 4194304 * (u * u))
        by (nonlinear_arith)
        requires
            dd == d * d,
            gg == g * g,
            -(2048 * u) <= d <= 2048 * u,
            -(2048 * u) <= g <= 2048 * u,
    ;
    let pu = p * u;
    let qu = q * u;
    let uu = u * u;
    assert(u <= uu) by (nonlinear_arith)
        requires
            uu == u * u,
            u >= 1,
    ;
    assert(pu <= 8388610 * uu && qu <= 8388610 * uu);
    assert(p <= 8388610 * u && q <= 8388610 * u) by (nonlinear_arith)
        requires
            pu == p * u,
            qu == q * u,
            uu == u * u,
            pu <= 8388610 * uu,
            qu <= 8388610 * uu,
            u > 0,
    ;
    assert(pow2(199) == pow2(50) * u);
    assert(16777220 * u <= big) by (nonlinear_arith)
        requires
            pow2(199) == pow2(50) * u,
            pow2(199) <= big,
            pow2(50) >= 16777220,
            u > 0,
    ;
    lemma_plus_near(dx.times(dx), dy.times(dy));
    lemma_sum_chain(u, dd, gg, p, q, units(dx.times(dx).plus(dy.times(dy))));
}

/// The distance between two points is that of the plane: its square is within one part
/// in `2^19` of the sum of the squares of the two differences, but for what is too
/// small to be held.
pub proof fn law_distance_is_that_of_the_plane(a: (Single, Single), b: (Single, Single))
    requires
        usual_place(a),
        usual_place(b),
    ensures
        finite(distance_between(a, b)),
        units(distance_between(a, b)) >= 0,
        distance_between(a, b).bits < 0x7f80_0000,
        gap(square(units(distance_between(a, b))), square_apart(a, b)) * 524288 <= square_apart(
            a,
            b,
        ) + 2097152 * pow2(149),
{
    let u = pow2(149) as int;
    lemma_pow2_pos(149);
    lemma_squares_near(a, b);
    let dx = a.0.minus(b.0);
    let dy = a.1.minus(b.1);
    let s = dx.times(dx).plus(dy.times(dy));
    assert(distance_between(a, b) == s.square_root());
    lemma_values(dx, dx);
    lemma_values(dy, dy);
    lemma_values(dx.times(dx), dy.times(dy));
    lemma_square_root_near(s);
    let r = units(distance_between(a, b));
    let su = units(s) * u;
    let rr = r * r;
    let t = square_apart(a, b);
    assert(t >= 0) by {
        let d = units(a.0) - units(b.0);
        let g = units(a.1) - units(b.1);
        assert(d * d >= 0 && g * g >= 0) by (nonlinear_arith);
    }
    assert(gap(su, t) * 16777216 <= 7 * t + 50331648 * u);
    assert(gap(rr, su) * 2097152 <= su);
    assert(gap(rr, t) * 524288 <= t + 2097152 * u);
}

/// The score by which a seen ball is chosen is the square of its distance from the
/// expected place, but for rounding.
pub proof fn law_score_is_square_of_distance(d: Detection, expected: (Single, Single))
    requires
        usual_place((d.center_x, d.center_y)),
        usual_place(expected),
    ensures
        ({
            let s = observation_score(d, Some(expected));
            let t = square_apart((d.center_x, d.center_y), expected);
            &&& finite(s)
            &&& units(s) >= 0
            &&& s.bits < 0x7f80_0000
            &&& gap(units(s) * pow2(149), t) * 16777216 <= 7 * t + 50331648 * pow2(149)
        }),
{
    lemma_squares_near((d.center_x, d.center_y), expected);
    let dx = d.center_x.minus(expected.0);
    let dy = d.center_y.minus(expected.1);
    lemma_values(dx, dx);
    lemma_values(dy, dy);
    lemma_values(dx.times(dx), dy.times(dy));
}

/// A difference taken the other way round is the same or the opposite.
#[verifier::rlimit(40)]
proof fn lemma_opposite_difference(v: Value, w: Value)
    ensures
        ({
            let f = Format::Binary32;
            let p = sum(f, v, negated(w));
            let q = sum(f, w, negated(v));
            p == q || p == negated(q)
        }),
{
}

/// The square of a value is that of the opposite value.
proof fn lemma_square_of_value(v: Value)
    ensures
        product(Format::Binary32, v, v) == product(Format::Binary32, negated(v), negated(v)),
{
}

/// The square of a difference does not depend on its direction.
proof fn lemma_square_of_opposite(a: Single, b: Single)
    ensures
        a.minus(b).times(a.minus(b)) == b.minus(a).times(b.minus(a)),
{
    let x = a.minus(b);
    let y = b.minus(a);
    lemma_values(a, b);
    lemma_values(b, a);
    lemma_opposite_difference(a.value(), b.value());
    lemma_square_of_value(y.value());
    reveal(Single::times_spec);
}

/// The distance does not depend on the order of the points, nor on which of the
/// coordinates comes first.
pub proof fn law_distance_is_symmetric(a: (Single, Single), b: (Single, Single))
    ensures
        distance_between(a, b) == distance_between(b, a),
        distance_between(a, b) == distance_between((a.1, a.0), (b.1, b.0)),
{
    lemma_square_of_opposite(a.0, b.0);
    lemma_square_of_opposite(a.1, b.1);
    let dx = a.0.minus(b.0);
    let dy = a.1.minus(b.1);
    let f = Format::Binary32;
    let (v, w) = (dx.times(dx).value(), dy.times(dy).value());
    assert(sum(f, v, w) == sum(f, w, v));
    reveal(Single::plus_spec);
}

} // verus!
