//! Distances between directions: the short way round, and as on a plane.

use crate::binary::magnitude::lemma_pow2_le;
use crate::binary::nearness::{
    finite, lemma_minus_near, lemma_plus_near, lemma_times_near, size, units,
};
use crate::binary::rounding::{gap, lemma_round_units_exact, round_units, written_as};
use crate::binary::remainder::remainder;
use crate::binary::single::Single;
use crate::binary::value::{bounded, lemma_bounded_held, Format, Value};
use crate::distance_laws::square;
use crate::recovery_engine::{distance_measured, within_turn, yaw_between, DEGREES, PI, TAU};
use vstd::arithmetic::div_mod::{lemma_fundamental_div_mod, lemma_mod_bound, lemma_small_mod};
use vstd::arithmetic::power2::{
    lemma2_to64, lemma_pow2_adds, lemma_pow2_pos, lemma_pow2_unfold, pow2,
};
use vstd::prelude::*;

verus! {

/// Half a turn, a turn and the degrees in a radian, as numbers.
proof fn lemma_constants()
    ensures
        (Single { bits: PI }).value() == (Value::Finite {
            negative: false,
            units: 13176795 * pow2(127),
        }),
        (Single { bits: TAU }).value() == (Value::Finite {
            negative: false,
            units: 13176795 * pow2(128),
        }),
        units(Single { bits: PI }) * 4194304 == 13176795 * pow2(149),
        units(Single { bits: TAU }) == 2 * units(Single { bits: PI }),
        finite(Single { bits: DEGREES }),
        units(Single { bits: DEGREES }) * 262144 == 15019745 * pow2(149),
{
    lemma2_to64();
    lemma_pow2_unfold(128);
    lemma_pow2_adds(22, 127);
    lemma_pow2_adds(18, 131);
    assert((Single { bits: DEGREES }).value() == (Value::Finite {
        negative: false,
        units: 15019745 * pow2(131),
    }));
}

/// What is left of an angle when whole turns are taken from it.
proof fn lemma_turns_taken(z: Single)
    requires
        finite(z),
    ensures
        z.remainder(Single { bits: TAU }).value() == (Value::Finite {
            negative: z.value()->Finite_negative,
            units: z.value()->Finite_units % (13176795 * pow2(128)),
        }),
{
    let f = Format::Binary32;
    let c = pow2(128);
    let t = 13176795 * c;
    let v = z.value()->Finite_units;
    let neg = z.value()->Finite_negative;
    lemma_constants();
    lemma2_to64();
    lemma_pow2_pos(128);
    lemma_pow2_pos(149);
    reveal(Single::remainder_spec);
    z.lemma_value_held();
    let (m, e) = choose|m: nat, e: nat| #[trigger] written_as(v, m, e, 24);
    let r = v % t;
    lemma_mod_bound(v as int, t as int);
    lemma_fundamental_div_mod(v as int, t as int);
    if e >= 128 {
        let x = pow2((e - 128) as nat);
        lemma_pow2_adds(128, (e - 128) as nat);
        let n = m * x;
        assert(v == n * c) by (nonlinear_arith)
            requires
                v == m * pow2(e),
                pow2(e) == c * x,
                n == m * x,
        ;
        let k = n % 13176795;
        let q = n / 13176795;
        lemma_fundamental_div_mod(n as int, 13176795);
        assert(v == q * t + k * c) by (nonlinear_arith)
            requires
                v == n * c,
                n == 13176795 * q + k,
                t == 13176795 * c,
        ;
        assert(k * c < t) by (nonlinear_arith)
            requires
                k < 13176795,
                t == 13176795 * c,
                c > 0,
        ;
        vstd::arithmetic::div_mod::lemma_fundamental_div_mod_converse(
            v as int,
            t as int,
            q as int,
            (k * c) as int,
        );
        lemma_round_units_exact(k, 128, 1, 24);
        assert(k * c * 1 == r);
    } else {
        lemma_pow2_le(e, 127);
        lemma_pow2_unfold(128);
        assert(v < t) by (nonlinear_arith)
            requires
                v == m * pow2(e),
                m < 16777216,
                pow2(e) <= pow2(127),
                c == 2 * pow2(127),
                t == 13176795 * c,
                pow2(127) > 0,
        ;
        lemma_small_mod(v, t);
        lemma_round_units_exact(m, e, 1, 24);
        assert(m * pow2(e) * 1 == r);
    }
    lemma_bounded_held(f, neg, r, 1);
    lemma_pow2_pos(277);
    assert(r <= v);
    assert(bounded(f, neg, round_units(r, 1, 24)) == (Value::Finite { negative: neg, units: r }));
    Single::lemma_of_value(Value::Finite { negative: neg, units: r });
}

/// An angle brought into one turn is the angle, but for whole turns and for rounding.
#[verifier::rlimit(40)]
proof fn lemma_within_turn(z: Single) -> (k: int)
    requires
        finite(z),
    ensures
        ({
            let t = 13176795 * pow2(128);
            let w = units(within_turn(z));
            &&& finite(within_turn(z))
            &&& gap(w, units(z) - k * t) * 16777216 <= t
            &&& 0 <= w
            &&& (w - t) * 16777216 <= t
        }),
{
    lemma2_to64();
    lemma_pow2_pos(128);
    lemma_pow2_pos(149);
    lemma_constants();
    let tau = Single { bits: TAU };
    let t = 13176795 * pow2(128) as int;
    let zu = units(z);
    lemma_turns_taken(z);
    let r = z.remainder(tau);
    let m = z.value()->Finite_units as int;
    lemma_fundamental_div_mod(m, t);
    lemma_mod_bound(m, t);
    let q = m / t;
    let rest = m % t;
    let neg = z.value()->Finite_negative;
    let ru = units(r);
    crate::binary::integers::lemma_exact_integer(0);
    assert(0 * pow2(149) == 0);
    let k0 = if neg {
        -q
    } else {
        q
    };
    assert(zu == ru + k0 * t) by (nonlinear_arith)
        requires
            m == t * q + rest,
            zu == if neg {
                -m
            } else {
                m
            },
            ru == if neg {
                -rest
            } else {
                rest
            },
            k0 == if neg {
                -q
            } else {
                q
            },
    ;
    if ru < 0 {
        lemma_pow2_adds(24, 128);
        lemma_pow2_le(153, 276);
        lemma_pow2_unfold(153);
        lemma_plus_near(r, tau);
        assert((k0 - 1) * t == k0 * t - t) by (nonlinear_arith);
        k0 - 1
    } else {
        k0
    }
}

/// The way from one yaw to another is their difference, but for whole turns and for
/// rounding, and it is not more than half a turn.
#[verifier::rlimit(40)]
proof fn lemma_yaw_between(a: Single, b: Single) -> (k: int)
    requires
        finite(a),
        finite(b),
        size(units(a)) <= 9 * pow2(149),
        size(units(b)) <= 9 * pow2(149),
    ensures
        ({
            let w = units(yaw_between(a, b));
            let p = units(Single { bits: PI });
            &&& finite(yaw_between(a, b))
            &&& gap(w, units(b) - units(a) - k * (2 * p)) * 262144 <= pow2(149)
            &&& (size(w) - p) * 262144 <= pow2(149)
        }),
{
    let u = pow2(149) as int;
    lemma2_to64();
    lemma_pow2_pos(149);
    lemma_pow2_adds(24, 149);
    lemma_pow2_le(173, 276);
    lemma_constants();
    let pi = Single { bits: PI };
    let p = units(pi);
    let (x, y) = (units(a), units(b));
    assert(3 * u <= p <= 4 * u);
    lemma_minus_near(b, a);
    let d = units(b.minus(a));
    assert(size(d) <= 19 * u);
    lemma_plus_near(b.minus(a), pi);
    let z = b.minus(a).plus(pi);
    let k = lemma_within_turn(z);
    let w = within_turn(z);
    let wu = units(w);
    assert(0 <= wu <= 9 * u);
    lemma_minus_near(w, pi);
    let kt = k * (2 * p);
    assert(k * (13176795 * pow2(128)) == kt);
    lemma_yaw_chain(u, p, x, y, d, units(z), kt, wu, units(yaw_between(a, b)));
    k
}

/// The chain of inequalities from two yaws to the way between them.
proof fn lemma_yaw_chain(
    u: int,
    p: int,
    a: int,
    b: int,
    d: int,
    z: int,
    kt: int,
    w: int,
    y: int,
)
    requires
        u > 0,
        3 * u <= p <= 4 * u,
        size(a) <= 9 * u,
        size(b) <= 9 * u,
        gap(d, b - a) * 16777216 <= size(b - a),
        gap(z, d + p) * 16777216 <= size(d + p),
        gap(w, z - kt) * 16777216 <= 2 * p,
        0 <= w,
        (w - 2 * p) * 16777216 <= 2 * p,
        gap(y, w - p) * 16777216 <= size(w - p),
    ensures
        gap(y, b - a - kt) * 262144 <= u,
        (size(y) - p) * 262144 <= u,
{
    assert(gap(d, b - a) * 16777216 <= 18 * u);
    assert(gap(z, d + p) * 16777216 <= 24 * u);
    assert(gap(w, z - kt) * 16777216 <= 8 * u);
    assert(gap(y, w - p) * 16777216 <= 5 * u);
}

/// What a hypotenuse is taken to be: its square is, but for rounding, the sum of the
/// squares of the two sides.
pub open spec fn measures<H: Fn(Single, Single) -> Single>(hypot: H) -> bool {
    forall|x: Single, y: Single, h: Single| #[trigger]
        hypot.ensures((x, y), h) && finite(x) && finite(y) && size(units(x)) <= 64 * pow2(149)
            && size(units(y)) <= 64 * pow2(149) ==> {
            &&& finite(h)
            &&& units(h) >= 0
            &&& gap(square(units(h)), square(units(x)) + square(units(y))) * 1048576 <= square(
                units(x),
            ) + square(units(y)) + 1099511627776 * pow2(149)
        }
}

/// A distance in degrees is the one that two differences in radians make.
pub open spec fn degrees_of(d: Single, yaw: int, pitch: int) -> bool {
    let s = square(yaw) + square(pitch);
    &&& finite(d)
    &&& units(d) >= 0
    &&& gap(square(units(d)) * 68719476736, 225592739865025 * s) * 1000000 <= 225592739865025 * (
    1000 * s + square(pow2(149) as int))
}

/// The chain of inequalities from a difference to the square of what it is taken for.
proof fn lemma_taken_square(u: int, d: int, x: int)
    requires
        u > 0,
        gap(x, d) * 262144 <= u,
    ensures
        gap(x * x, d * d) * 8388608 <= 2048 * (d * d) + u * u,
{
    let g = x - d;
    let dd = d * d;
    let xx = x * x;
    let uu = u * u;
    let gd = g * d;
    let gg = g * g;
    assert(xx == dd + 2 * gd + gg) by (nonlinear_arith)
        requires
            xx == x * x,
            dd == d * d,
            g == x - d,
            gd == g * d,
            gg == g * g,
    ;
    assert(gg * 68719476736 <= uu) by (nonlinear_arith)
        requires
            gg == g * g,
            -u <= g * 262144 <= u,
            uu == u * u,
            u > 0,
    ;
    assert(gg >= 0) by (nonlinear_arith)
        requires
            gg == g * g,
    ;
    let both = 2 * gd;
    assert(both * 4096 <= dd + 16777216 * gg && -(both * 4096) <= dd + 16777216 * gg)
        by (nonlinear_arith)
        requires
            both == 2 * gd,
            gd == g * d,
            dd == d * d,
            gg == g * g,
    ;
    assert(gap(xx, dd) <= size(both) + gg);
    assert(size(both) * 4096 <= dd + 16777216 * gg);
}

/// The chain of inequalities from the sides of a triangle to degrees.
#[verifier::rlimit(40)]
proof fn lemma_degrees_chain(u: int, s: int, xy: int, h: int, k: int, d: int)
    requires
        u >= 1208925819614629174706176,
        s >= 0,
        xy >= 0,
        h >= 0,
        s <= 1000 * (u * u),
        gap(xy, s) * 8388608 <= 2048 * s + 2 * (u * u),
        gap(h * h, xy) * 1048576 <= xy + 1099511627776 * u,
        k * 262144 == 15019745 * u,
        gap(d * u, h * k) * 16777216 <= h * k + 8388608 * u,
    ensures
        d >= 0,
        gap(d * d * 68719476736, 225592739865025 * s) * 1000000 <= 225592739865025 * (1000 * s + u
            * u),
{
    let uu = u * u;
    let hh = h * h;
    assert(1099511627776 * u * 16777216 <= uu) by (nonlinear_arith)
        requires
            uu == u * u,
            u >= 1208925819614629174706176,
    ;
    assert(gap(hh, s) * 8388608 <= 2060 * s + 3 * uu);
    let hk = h * k;
    let du = d * u;
    let kk = k * k;
    assert(k > 0 && hk >= 0) by (nonlinear_arith)
        requires
            k * 262144 == 15019745 * u,
            u > 0,
            hk == h * k,
            h >= 0,
    ;
    assert(kk * 68719476736 == 225592739865025 * uu) by (nonlinear_arith)
        requires
            kk == k * k,
            uu == u * u,
            k * 262144 == 15019745 * u,
    ;
    assert(d >= 0) by (nonlinear_arith)
        requires
            du == d * u,
            gap(du, hk) * 16777216 <= hk + 8388608 * u,
            gap(du, hk) >= hk - du,
            hk >= 0,
            u > 0,
    ;
    lemma_near_squares(u, hk, du);
    let xx = hk * hk;
    let yy = du * du;
    let dd = d * d;
    let c = 225592739865025int;
    let w = 68719476736int;
    let dw = dd * w;
    let hc = hh * c;
    assert(xx * w == hc * uu) by (nonlinear_arith)
        requires
            xx == hk * hk,
            hk == h * k,
            hh == h * h,
            kk == k * k,
            kk * w == c * uu,
            hc == hh * c,
    ;
    assert(yy * w == dw * uu) by (nonlinear_arith)
        requires
            yy == du * du,
            du == d * u,
            dd == d * d,
            uu == u * u,
            dw == dd * w,
    ;
    let tiny = 72057594037927936 * w;
    assert(hc >= 0) by (nonlinear_arith)
        requires
            hc == hh * c,
            hh == h * h,
            c > 0,
    ;
    assert(uu > 0) by (nonlinear_arith)
        requires
            uu == u * u,
            u > 0,
    ;
    assert(gap(dw, hc) * 16777216 <= 8 * hc + tiny) by (nonlinear_arith)
        requires
            gap(yy, xx) * 16777216 <= 8 * xx + 72057594037927936 * uu,
            xx * w == hc * uu,
            yy * w == dw * uu,
            tiny == 72057594037927936 * w,
            w == 68719476736,
            uu > 0,
            dw >= hc ==> gap(dw, hc) == dw - hc,
            dw < hc ==> gap(dw, hc) == hc - dw,
            gap(yy, xx) == yy - xx || gap(yy, xx) == xx - yy,
            gap(yy, xx) >= 0,
    ;
    assert(tiny <= uu) by (nonlinear_arith)
        requires
            tiny == 72057594037927936 * 68719476736,
            uu == u * u,
            u >= 1208925819614629174706176,
    ;
    let cs = c * s;
    let cuu = c * uu;
    assert(gap(hc, cs) * 8388608 <= 2060 * cs + 3 * cuu) by (nonlinear_arith)
        requires
            gap(hh, s) * 8388608 <= 2060 * s + 3 * uu,
            hc == hh * c,
            cs == c * s,
            cuu == c * uu,
            c > 0,
            hh >= s ==> gap(hh, s) == hh - s,
            hh < s ==> gap(hh, s) == s - hh,
            gap(hc, cs) == hc - cs || gap(hc, cs) == cs - hc,
            gap(hc, cs) >= 0,
    ;
    assert(cs >= 0 && cuu >= uu) by (nonlinear_arith)
        requires
            cs == c * s,
            cuu == c * uu,
            c >= 1,
            s >= 0,
            uu > 0,
    ;
    assert(c * (1000 * s + uu) == 1000 * cs + cuu) by (nonlinear_arith)
        requires
            cs == c * s,
            cuu == c * uu,
    ;
    assert(gap(dw, cs) * 1000000 <= 1000 * cs + cuu);
}

/// Two numbers that are near each other have squares that are.
proof fn lemma_near_squares(u: int, x: int, y: int)
    requires
        u > 0,
        x >= 0,
        gap(y, x) * 16777216 <= x + 8388608 * u,
    ensures
        gap(y * y, x * x) * 16777216 <= 8 * (x * x) + 72057594037927936 * (u * u),
{
    let g = y - x;
    let s = size(g);
    let xx = x * x;
    let yy = y * y;
    let uu = u * u;
    let gx = g * x;
    let gg = g * g;
    let ux = u * x;
    assert(yy == xx + 2 * gx + gg) by (nonlinear_arith)
        requires
            yy == y * y,
            xx == x * x,
            g == y - x,
            gx == g * x,
            gg == g * g,
    ;
    assert(s * 16777216 <= x + 8388608 * u);
    assert(size(gx) * 16777216 <= xx + 8388608 * ux) by (nonlinear_arith)
        requires
            s * 16777216 <= x + 8388608 * u,
            s == g || s == -g,
            s >= 0,
            gx == g * x,
            xx == x * x,
            ux == u * x,
            x >= 0,
            size(gx) == gx || size(gx) == -gx,
    ;
    assert(gg * 281474976710656 <= xx + 16777216 * ux + 70368744177664 * uu) by (nonlinear_arith)
        requires
            s * 16777216 <= x + 8388608 * u,
            s == g || s == -g,
            s >= 0,
            x >= 0,
            u > 0,
            gg == g * g,
            xx == x * x,
            ux == u * x,
            uu == u * u,
    ;
    assert(16777216 * ux <= xx + 70368744177664 * uu) by (nonlinear_arith)
        requires
            ux == u * x,
            xx == x * x,
            uu == u * u,
    ;
    assert(gg >= 0 && uu >= 0 && xx >= 0) by (nonlinear_arith)
        requires
            gg == g * g,
            uu == u * u,
            xx == x * x,
    ;
}

/// How far two directions lie apart, in degrees: as on a plane, and the short way round.
/// Their yaws differ, but for whole turns, by not more than half a turn.
#[verifier::rlimit(40)]
pub proof fn law_angular_distance_goes_the_short_way<H: Fn(Single, Single) -> Single>(
    hypot: H,
    yaw_a: Single,
    pitch_a: Single,
    yaw_b: Single,
    pitch_b: Single,
    d: Single,
) -> (turns: int)
    requires
        measures(hypot),
        finite(yaw_a) && size(units(yaw_a)) <= 9 * pow2(149),
        finite(yaw_b) && size(units(yaw_b)) <= 9 * pow2(149),
        finite(pitch_a) && size(units(pitch_a)) <= 9 * pow2(149),
        finite(pitch_b) && size(units(pitch_b)) <= 9 * pow2(149),
        distance_measured(hypot, yaw_a, pitch_a, yaw_b, pitch_b, d),
    ensures
        ({
            let half_turn = 13176795 * pow2(127);
            let way = units(yaw_b) - units(yaw_a) - turns * (2 * half_turn);
            &&& degrees_of(d, way, units(pitch_b) - units(pitch_a))
            &&& (size(way) - half_turn) * 131072 <= pow2(149)
        }),
{
    let u = pow2(149) as int;
    lemma2_to64();
    lemma_pow2_pos(149);
    lemma_pow2_le(80, 149);
    lemma_pow2_adds(64, 16);
    lemma_pow2_adds(24, 149);
    lemma_pow2_le(173, 276);
    lemma_constants();
    let k = lemma_yaw_between(yaw_a, yaw_b);
    let x = yaw_between(yaw_a, yaw_b);
    let y = pitch_b.minus(pitch_a);
    lemma_minus_near(pitch_b, pitch_a);
    let h = choose|h: Single|
        #![trigger hypot.ensures((yaw_between(yaw_a, yaw_b), pitch_b.minus(pitch_a)), h)]
        hypot.ensures((yaw_between(yaw_a, yaw_b), pitch_b.minus(pitch_a)), h) && d == h.times(
            Single { bits: DEGREES },
        );
    assert(hypot.ensures((x, y), h));
    let p = units(Single { bits: PI });
    let way = units(yaw_b) - units(yaw_a) - k * (2 * p);
    let up = units(pitch_b) - units(pitch_a);
    let (xu, yu, hu) = (units(x), units(y), units(h));
    let deg = Single { bits: DEGREES };
    let ku = units(deg);
    lemma_taken_square(u, way, xu);
    lemma_taken_square(u, up, yu);
    let s = square(way) + square(up);
    let xy = square(xu) + square(yu);
    let uu = u * u;
    assert(square(way) >= 0 && square(up) >= 0 && square(xu) >= 0 && square(yu) >= 0) by {
        assert(way * way >= 0 && up * up >= 0 && xu * xu >= 0 && yu * yu >= 0) by (nonlinear_arith);
    }
    assert(square(way) <= 25 * uu && square(up) <= 324 * uu) by {
        assert(way * way <= 25 * uu && up * up <= 324 * uu) by (nonlinear_arith)
            requires
                -(5 * u) <= way <= 5 * u,
                -(18 * u) <= up <= 18 * u,
                uu == u * u,
        ;
    }
    assert(finite(h) && hu >= 0);
    assert(u <= uu) by (nonlinear_arith)
        requires
            uu == u * u,
            u >= 1,
    ;
    assert(1099511627776 * u <= uu) by (nonlinear_arith)
        requires
            uu == u * u,
            u >= 1208925819614629174706176,
    ;
    assert(square(hu) <= 1000 * uu);
    assert(hu <= 40 * u) by (nonlinear_arith)
        requires
            square(hu) == hu * hu,
            square(hu) <= 1000 * uu,
            uu == u * u,
            u > 0,
            hu >= 0,
    ;
    let big = pow2(276) as int;
    assert(ku <= 64 * u);
    assert(size(hu) * size(ku) <= big * u) by (nonlinear_arith)
        requires
            0 <= hu <= 40 * u,
            0 <= ku <= 64 * u,
            size(hu) == hu,
            size(ku) == ku,
            16777216 * u <= big,
            u > 0,
    ;
    lemma_times_near(h, deg);
    let hk = hu * ku;
    assert(hk >= 0) by (nonlinear_arith)
        requires
            hk == hu * ku,
            hu >= 0,
            ku >= 0,
    ;
    lemma_degrees_chain(u, s, xy, hu, ku, units(d));
    k
}

/// How far two directions lie apart whose yaws differ by no more than three radians: as
/// on a plane.
pub proof fn law_angular_distance_is_that_of_the_plane<H: Fn(Single, Single) -> Single>(
    hypot: H,
    yaw_a: Single,
    pitch_a: Single,
    yaw_b: Single,
    pitch_b: Single,
    d: Single,
)
    requires
        measures(hypot),
        finite(yaw_a) && size(units(yaw_a)) <= 9 * pow2(149),
        finite(yaw_b) && size(units(yaw_b)) <= 9 * pow2(149),
        finite(pitch_a) && size(units(pitch_a)) <= 9 * pow2(149),
        finite(pitch_b) && size(units(pitch_b)) <= 9 * pow2(149),
        size(units(yaw_b) - units(yaw_a)) <= 3 * pow2(149),
        distance_measured(hypot, yaw_a, pitch_a, yaw_b, pitch_b, d),
    ensures
        degrees_of(d, units(yaw_b) - units(yaw_a), units(pitch_b) - units(pitch_a)),
{
    let u = pow2(149) as int;
    lemma_constants();
    lemma_pow2_pos(149);
    let k = law_angular_distance_goes_the_short_way(hypot, yaw_a, pitch_a, yaw_b, pitch_b, d);
    let half = 13176795 * pow2(127);
    let way = units(yaw_b) - units(yaw_a) - k * (2 * half);
    let w = units(yaw_b) - units(yaw_a);
    let kk = k * (2 * half);
    assert(314 * u <= 100 * half <= 315 * u);
    assert(size(way) * 100 <= 316 * u);
    if k >= 1 {
        assert(kk >= 2 * half) by (nonlinear_arith)
            requires
                kk == k * (2 * half),
                k >= 1,
                half > 0,
        ;
        assert(size(way) * 100 >= 328 * u);
    }
    if k <= -1 {
        assert(kk <= -(2 * half)) by (nonlinear_arith)
            requires
                kk == k * (2 * half),
                k <= -1,
                half > 0,
        ;
        assert(size(way) * 100 >= 328 * u);
    }
    assert(k == 0);
    assert(0 * (2 * half) == 0);
}

} // verus!
