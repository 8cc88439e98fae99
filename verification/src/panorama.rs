//! The two mappings between the output and its directions undo each other.

use crate::binary::integers::lemma_exact_integer;
use crate::binary::magnitude::lemma_pow2_le;
use crate::binary::nearness::{
    finite, lemma_minus_near, lemma_over_near, lemma_plus_near, lemma_times_near, size, units,
};
use crate::binary::rounding::gap;
use crate::binary::single::Single;
use crate::binary::value::Value;
use crate::cylindrical::{
    column_yaw, directed, half_tangent, height_row, placed, row_height, yaw_column,
    CylindricalStereoProjectionConfig, HALF,
};
use crate::remapping::is_share;
use vstd::arithmetic::power2::{
    lemma2_to64, lemma_pow2_adds, lemma_pow2_pos, lemma_pow2_unfold, pow2,
};
use vstd::prelude::*;

verus! {

/// Two numbers differ by less than one part in a hundred thousand of one.
pub open spec fn near(a: Single, b: Single) -> bool {
    &&& finite(a)
    &&& finite(b)
    &&& gap(units(a), units(b)) * 100000 < pow2(149)
}

/// A positive number that is neither very small nor very large: from `2^-20` to
/// `2^20`.
pub open spec fn moderate(s: Single) -> bool {
    &&& finite(s)
    &&& pow2(129) <= units(s) <= pow2(169)
}

proof fn lemma_half()
    ensures
        (Single { bits: HALF }).value() == (Value::Finite { negative: false, units: pow2(148) }),
        finite(Single { bits: HALF }),
        units(Single { bits: HALF }) == pow2(148),
        pow2(149) == 2 * pow2(148),
        pow2(148) > 0,
{
    lemma2_to64();
    lemma_pow2_adds(23, 125);
    lemma_pow2_unfold(149);
    lemma_pow2_pos(148);
}

/// The powers of two that the bounds are made of.
proof fn lemma_powers()
    ensures
        pow2(149) == 1048576 * pow2(129),
        pow2(169) == 1048576 * pow2(149),
        pow2(129) >= 16777216,
        pow2(180) == 2048 * pow2(169),
        pow2(180) <= pow2(276),
        pow2(149) * pow2(149) <= pow2(276) * pow2(149),
{
    lemma2_to64();
    lemma_pow2_adds(20, 129);
    lemma_pow2_adds(20, 149);
    lemma_pow2_adds(11, 169);
    lemma_pow2_le(24, 129);
    lemma_pow2_le(180, 276);
    lemma_pow2_le(149, 276);
    lemma_pow2_pos(149);
    let u = pow2(149);
    assert(u * u <= pow2(276) * u) by (nonlinear_arith)
        requires
            u <= pow2(276),
            u >= 0,
    ;
}

/// The chain of inequalities along a column.
proof fn lemma_column_chain(
    u: int,
    v: int,
    s: int,
    k: int,
    d: int,
    m: int,
    y: int,
    e: int,
    q: int,
    b: int,
)
    requires
        u > 0,
        u % 2 == 0,
        u >= 16777216,
        0 <= v <= u,
        s >= 16777216,
        size(k) <= 16 * s,
        gap(d, v - u / 2) * 16777216 <= size(v - u / 2),
        gap(m * u, d * s) * 16777216 <= size(d * s) + 8388608 * u,
        gap(y, k + m) * 16777216 <= size(k + m),
        gap(e, y - k) * 16777216 <= size(y - k),
        gap(q * s, e * u) * 16777216 <= size(e) * u + 8388608 * s,
        gap(b, u / 2 + q) * 16777216 <= size(u / 2 + q),
    ensures
        gap(b, v) * 100000 < u,
{
    let c = 16777216int;
    assert(size(d) <= u);
    let ds = d * s;
    let mu = m * u;
    let us = u * s;
    assert(size(ds) <= us) by (nonlinear_arith)
        requires
            ds == d * s,
            us == u * s,
            -u <= d <= u,
            s > 0,
            size(ds) == ds || size(ds) == -ds,
    ;
    assert(8388608 * u <= us) by (nonlinear_arith)
        requires
            us == u * s,
            s >= 16777216,
            u > 0,
    ;
    assert(8388608 * s <= us) by (nonlinear_arith)
        requires
            us == u * s,
            u >= 16777216,
            s > 0,
    ;
    assert(gap(mu, ds) * c <= 2 * us);
    assert(size(mu) <= 2 * us);
    assert(size(m) <= 2 * s) by (nonlinear_arith)
        requires
            size(mu) <= 2 * us,
            mu == m * u,
            us == u * s,
            u > 0,
            size(mu) == mu || size(mu) == -mu,
            size(mu) >= 0,
            size(m) == m || size(m) == -m,
            size(m) >= 0,
    ;
    assert(gap(y, k + m) * c <= 18 * s);
    assert(size(y - k) <= 3 * s);
    assert(gap(e, y - k) * c <= 3 * s);
    assert(gap(e, m) * c <= 21 * s);
    assert(size(e) <= 4 * s);
    let eu = e * u;
    let qs = q * s;
    assert(gap(eu, mu) * c <= 21 * us) by (nonlinear_arith)
        requires
            gap(e, m) * c <= 21 * s,
            eu == e * u,
            mu == m * u,
            us == u * s,
            u > 0,
            c > 0,
            e >= m ==> gap(e, m) == e - m,
            e < m ==> gap(e, m) == m - e,
            gap(eu, mu) == eu - mu || gap(eu, mu) == mu - eu,
            gap(eu, mu) >= 0,
    ;
    assert(size(e) * u <= 4 * us) by (nonlinear_arith)
        requires
            size(e) <= 4 * s,
            us == u * s,
            u > 0,
    ;
    assert(gap(qs, eu) * c <= 5 * us);
    assert(gap(qs, ds) * c <= 28 * us);
    assert(gap(q, d) * c <= 28 * u) by (nonlinear_arith)
        requires
            gap(qs, ds) * c <= 28 * us,
            qs == q * s,
            ds == d * s,
            us == u * s,
            s > 0,
            c > 0,
            q >= d ==> gap(q, d) == q - d,
            q < d ==> gap(q, d) == d - q,
            gap(qs, ds) == qs - ds || gap(qs, ds) == ds - qs,
            gap(qs, ds) >= 0,
    ;
    assert(size(u / 2 + q) <= 3 * u);
    assert(gap(b, v) * c <= 32 * u);
}

/// One column: the yaw of a column leads back to the column.
proof fn lemma_column_comes_back(v: Single, c: CylindricalStereoProjectionConfig)
    requires
        is_share(v),
        moderate(c.yaw_span_rad),
        finite(c.yaw_center_rad),
        size(units(c.yaw_center_rad)) <= 16 * units(c.yaw_span_rad),
    ensures
        near(yaw_column(column_yaw(v, c), c), v),
{
    let u = pow2(149) as int;
    let half = Single { bits: HALF };
    let span = c.yaw_span_rad;
    let center = c.yaw_center_rad;
    let s = units(span);
    let k = units(center);
    let w = units(v);
    lemma2_to64();
    lemma_half();
    lemma_powers();
    lemma_exact_integer(0);
    lemma_exact_integer(1);
    assert(0 * u == 0 && 1 * u == u);
    assert(finite(v) && 0 <= w <= u);
    assert(u / 2 == pow2(148) && u % 2 == 0);
    let big = pow2(276) as int;
    lemma_minus_near(v, half);
    let d = v.minus(half);
    assert(size(units(d)) <= u);
    assert(size(units(d)) * s <= big * u) by (nonlinear_arith)
        requires
            0 <= size(units(d)) <= u,
            0 <= s <= big,
            u > 0,
    ;
    lemma_times_near(d, span);
    let m = d.times(span);
    let ds = units(d) * s;
    assert(size(ds) <= u * s) by (nonlinear_arith)
        requires
            ds == units(d) * s,
            -u <= units(d) <= u,
            s > 0,
            size(ds) == ds || size(ds) == -ds,
    ;
    let mu = units(m) * u;
    assert(size(units(m)) <= 2 * s) by {
        assert(8388608 * u <= u * s) by (nonlinear_arith)
            requires
                s >= 16777216,
                u > 0,
        ;
        assert(size(mu) <= 2 * (u * s));
        assert(size(units(m)) <= 2 * s) by (nonlinear_arith)
            requires
                size(mu) <= 2 * (u * s),
                mu == units(m) * u,
                u > 0,
                size(mu) == mu || size(mu) == -mu,
                size(mu) >= 0,
                size(units(m)) == units(m) || size(units(m)) == -units(m),
                size(units(m)) >= 0,
        ;
    }
    lemma_plus_near(center, m);
    let y = center.plus(m);
    assert(size(units(y)) <= 40 * s);
    lemma_minus_near(y, center);
    let e = y.minus(center);
    assert(size(units(e)) <= 80 * s);
    assert(size(units(e)) * u <= big * s) by (nonlinear_arith)
        requires
            0 <= size(units(e)) <= 80 * s,
            80 * u <= big,
            u > 0,
            s > 0,
    ;
    lemma_over_near(e, span);
    let q = e.over(span);
    let qs = units(q) * s;
    assert(size(units(q)) <= 200 * u) by {
        assert(size(units(e)) * u <= 80 * (u * s)) by (nonlinear_arith)
            requires
                size(units(e)) <= 80 * s,
                u > 0,
        ;
        assert(8388608 * s <= u * s) by (nonlinear_arith)
            requires
                u >= 16777216,
                s > 0,
        ;
        let eu = units(e) * u;
        assert(size(eu) == size(units(e)) * u) by (nonlinear_arith)
            requires
                eu == units(e) * u,
                u > 0,
                units(e) >= 0 ==> size(units(e)) == units(e),
                units(e) < 0 ==> size(units(e)) == -units(e),
                eu >= 0 ==> size(eu) == eu,
                eu < 0 ==> size(eu) == -eu,
        ;
        assert(size(qs) <= 200 * (u * s));
        assert(size(units(q)) <= 200 * u) by (nonlinear_arith)
            requires
                size(qs) <= 200 * (u * s),
                qs == units(q) * s,
                s > 0,
                size(qs) == qs || size(qs) == -qs,
                size(qs) >= 0,
                size(units(q)) == units(q) || size(units(q)) == -units(q),
                size(units(q)) >= 0,
        ;
    }
    lemma_plus_near(half, q);
    lemma_column_chain(
        u,
        w,
        s,
        k,
        units(d),
        units(m),
        units(y),
        units(e),
        units(q),
        units(half.plus(q)),
    );
}

/// The chain of inequalities along a row, from the place in the output to the height
/// on the cylinder.
proof fn lemma_height_chain(u: int, t: int, d: int, g: int, h: int)
    requires
        u >= 16777216,
        t >= 16777216,
        size(d) <= u,
        gap(g * u, d * (2 * u)) * 16777216 <= size(d * (2 * u)) + 8388608 * u,
        gap(h * u, g * t) * 16777216 <= size(g * t) + 8388608 * u,
    ensures
        gap(g, 2 * d) * 16777216 <= 3 * u,
        size(g) <= 3 * u,
        size(h) <= 4 * t,
        gap(h * u, g * t) * 16777216 <= 4 * (u * t),
        gap(g * t, 2 * d * t) * 16777216 <= 3 * (u * t),
{
    let c = 16777216int;
    let gu = g * u;
    let du = d * (2 * u);
    let dd = 2 * d;
    assert(du == dd * u) by (nonlinear_arith)
        requires
            du == d * (2 * u),
            dd == 2 * d,
    ;
    assert(size(du) <= 2 * (u * u)) by (nonlinear_arith)
        requires
            du == d * (2 * u),
            -u <= d <= u,
            u > 0,
            size(du) == du || size(du) == -du,
    ;
    assert(8388608 * u <= u * u) by (nonlinear_arith)
        requires
            u >= 16777216,
    ;
    assert(gap(gu, du) * c <= 3 * (u * u));
    assert(gap(g, dd) * c <= 3 * u) by (nonlinear_arith)
        requires
            gap(gu, du) * c <= 3 * (u * u),
            gu == g * u,
            du == dd * u,
            u > 0,
            c > 0,
            g >= dd ==> gap(g, dd) == g - dd,
            g < dd ==> gap(g, dd) == dd - g,
            gap(gu, du) == gu - du || gap(gu, du) == du - gu,
            gap(gu, du) >= 0,
    ;
    assert(size(g) <= 3 * u);
    let gt = g * t;
    let hu = h * u;
    let ut = u * t;
    assert(size(gt) <= 3 * ut) by (nonlinear_arith)
        requires
            gt == g * t,
            ut == u * t,
            -(3 * u) <= g <= 3 * u,
            t > 0,
            size(gt) == gt || size(gt) == -gt,
    ;
    assert(8388608 * u <= ut) by (nonlinear_arith)
        requires
            ut == u * t,
            t >= 16777216,
            u > 0,
    ;
    assert(gap(hu, gt) * c <= 4 * ut);
    assert(size(hu) <= 4 * ut);
    assert(size(h) <= 4 * t) by (nonlinear_arith)
        requires
            size(hu) <= 4 * ut,
            hu == h * u,
            ut == u * t,
            u > 0,
            size(hu) == hu || size(hu) == -hu,
            size(hu) >= 0,
            size(h) == h || size(h) == -h,
            size(h) >= 0,
    ;
    let dt = dd * t;
    assert(gap(gt, dt) * c <= 3 * ut) by (nonlinear_arith)
        requires
            gap(g, dd) * c <= 3 * u,
            gt == g * t,
            dt == dd * t,
            ut == u * t,
            t > 0,
            c > 0,
            g >= dd ==> gap(g, dd) == g - dd,
            g < dd ==> gap(g, dd) == dd - g,
            gap(gt, dt) == gt - dt || gap(gt, dt) == dt - gt,
            gap(gt, dt) >= 0,
    ;
}

/// The chain of inequalities back from a height near that one.
proof fn lemma_back_chain(u: int, t: int, d: int, g: int, h: int, a: int, w: int, r: int)
    requires
        u >= 16777216,
        t >= 16777216,
        size(h) <= 4 * t,
        gap(h * u, g * t) * 16777216 <= 4 * (u * t),
        gap(g * t, 2 * d * t) * 16777216 <= 3 * (u * t),
        gap(a, h) * 524288 <= size(h),
        w > 0,
        gap(w, 2 * t) * 16777216 <= 3 * t,
        gap(r * w, a * u) * 16777216 <= size(a) * u + 8388608 * w,
    ensures
        size(a) <= 5 * t,
        size(r) <= 6 * u,
        gap(r, d) * 16777216 <= 80 * u,
{
    let c = 16777216int;
    let ut = u * t;
    let hu = h * u;
    let au = a * u;
    let rw = r * w;
    let gt = g * t;
    let dt = 2 * d * t;
    assert(gap(a, h) * c <= 128 * t);
    assert(size(a) <= 5 * t);
    assert(gap(au, hu) * c <= 128 * ut) by (nonlinear_arith)
        requires
            gap(a, h) * c <= 128 * t,
            au == a * u,
            hu == h * u,
            ut == u * t,
            u > 0,
            c > 0,
            a >= h ==> gap(a, h) == a - h,
            a < h ==> gap(a, h) == h - a,
            gap(au, hu) == au - hu || gap(au, hu) == hu - au,
            gap(au, hu) >= 0,
    ;
    assert(size(a) * u <= 5 * ut) by (nonlinear_arith)
        requires
            size(a) <= 5 * t,
            ut == u * t,
            u > 0,
    ;
    assert(t <= w <= 3 * t);
    assert(8388608 * w <= 2 * ut) by (nonlinear_arith)
        requires
            w <= 3 * t,
            ut == u * t,
            u >= 16777216,
            t > 0,
    ;
    assert(gap(rw, au) * c <= 7 * ut);
    assert(size(au) <= 5 * ut) by (nonlinear_arith)
        requires
            size(a) * u <= 5 * ut,
            au == a * u,
            u > 0,
            size(au) == au || size(au) == -au,
            a >= 0 ==> size(a) == a,
            a < 0 ==> size(a) == -a,
    ;
    assert(size(rw) <= 6 * ut);
    assert(size(r) <= 6 * u) by (nonlinear_arith)
        requires
            size(rw) <= 6 * ut,
            rw == r * w,
            ut == u * t,
            w >= t,
            t > 0,
            u > 0,
            size(rw) == rw || size(rw) == -rw,
            size(rw) >= 0,
            size(r) == r || size(r) == -r,
            size(r) >= 0,
    ;
    let r2t = 2 * r * t;
    assert(gap(r2t, rw) * c <= 18 * ut) by (nonlinear_arith)
        requires
            r2t == 2 * r * t,
            rw == r * w,
            ut == u * t,
            gap(w, 2 * t) * c <= 3 * t,
            -(6 * u) <= r <= 6 * u,
            w >= 2 * t ==> gap(w, 2 * t) == w - 2 * t,
            w < 2 * t ==> gap(w, 2 * t) == 2 * t - w,
            c > 0,
            t > 0,
            u > 0,
            gap(r2t, rw) == r2t - rw || gap(r2t, rw) == rw - r2t,
            gap(r2t, rw) >= 0,
    ;
    assert(gap(r2t, dt) * c <= 160 * ut);
    assert(gap(r, d) * c <= 80 * u) by (nonlinear_arith)
        requires
            gap(r2t, dt) * c <= 160 * ut,
            r2t == 2 * r * t,
            dt == 2 * d * t,
            ut == u * t,
            t > 0,
            c > 0,
            r >= d ==> gap(r, d) == r - d,
            r < d ==> gap(r, d) == d - r,
            gap(r2t, dt) == r2t - dt || gap(r2t, dt) == dt - r2t,
            gap(r2t, dt) >= 0,
    ;
}

/// The tangent of an angle is near the number that the angle was taken of: within one
/// part in `2^19`.
pub open spec fn comes_back(height: Single, tangent: Single) -> bool {
    &&& finite(tangent)
    &&& gap(units(tangent), units(height)) * 524288 <= size(units(height))
}

/// One row: its height, and how far rounding leads it away.
#[verifier::rlimit(40)]
proof fn lemma_row_height(v: Single, half_tan: Single)
    requires
        is_share(v),
        moderate(half_tan),
    ensures
        ({
            let u = pow2(149) as int;
            let t = units(half_tan);
            let d = Single { bits: HALF }.minus(v);
            let g = d.times(Single::natural(2));
            let h = row_height(v, half_tan);
            &&& finite(h)
            &&& size(units(h)) <= 4 * t
            &&& gap(units(d), u / 2 - units(v)) * 16777216 <= u
            &&& gap(units(h) * u, units(g) * t) * 16777216 <= 4 * (u * t)
            &&& gap(units(g) * t, 2 * units(d) * t) * 16777216 <= 3 * (u * t)
        }),
{
    let u = pow2(149) as int;
    let half = Single { bits: HALF };
    let two = Single::natural(2);
    let t = units(half_tan);
    let x = units(v);
    let big = pow2(276) as int;
    lemma2_to64();
    lemma_half();
    lemma_powers();
    lemma_exact_integer(0);
    lemma_exact_integer(1);
    lemma_exact_integer(2);
    assert(0 * u == 0 && 1 * u == u);
    assert(finite(v) && 0 <= x <= u);
    assert(u / 2 == pow2(148));
    assert(finite(two) && units(two) == 2 * u);
    lemma_minus_near(half, v);
    let d = half.minus(v);
    let du = units(d);
    assert(size(du) <= u);
    assert(size(du) * (2 * u) <= big * u) by (nonlinear_arith)
        requires
            0 <= size(du) <= u,
            2 * u <= big,
            u > 0,
    ;
    lemma_times_near(d, two);
    let g = d.times(two);
    let gu = units(g);
    assert(size(gu) <= 4 * u) by {
        let p = du * (2 * u);
        let q = gu * u;
        assert(size(p) <= 2 * (u * u)) by (nonlinear_arith)
            requires
                p == du * (2 * u),
                -u <= du <= u,
                u > 0,
                size(p) == p || size(p) == -p,
        ;
        assert(8388608 * u <= u * u) by (nonlinear_arith)
            requires
                u >= 16777216,
        ;
        assert(size(q) <= 4 * (u * u));
        assert(size(gu) <= 4 * u) by (nonlinear_arith)
            requires
                size(q) <= 4 * (u * u),
                q == gu * u,
                u > 0,
                size(q) == q || size(q) == -q,
                size(q) >= 0,
                size(gu) == gu || size(gu) == -gu,
                size(gu) >= 0,
        ;
    }
    assert(size(gu) * t <= big * u) by (nonlinear_arith)
        requires
            0 <= size(gu) <= 4 * u,
            4 * t <= big,
            t > 0,
            u > 0,
    ;
    lemma_times_near(g, half_tan);
    let h = g.times(half_tan);
    assert(h == row_height(v, half_tan));
    lemma_height_chain(u, t, du, gu, units(h));
}

/// One row: a height near that of a row leads back to the row.
#[verifier::rlimit(40)]
proof fn lemma_row_comes_back(v: Single, half_tan: Single, tangent: Single)
    requires
        is_share(v),
        moderate(half_tan),
        comes_back(row_height(v, half_tan), tangent),
    ensures
        near(height_row(tangent, half_tan), v),
{
    let u = pow2(149) as int;
    let half = Single { bits: HALF };
    let two = Single::natural(2);
    let t = units(half_tan);
    let x = units(v);
    let big = pow2(276) as int;
    lemma2_to64();
    lemma_half();
    lemma_powers();
    lemma_exact_integer(0);
    lemma_exact_integer(1);
    lemma_exact_integer(2);
    assert(0 * u == 0 && 1 * u == u);
    assert(finite(v) && 0 <= x <= u);
    assert(u / 2 == pow2(148));
    assert(finite(two) && units(two) == 2 * u);
    lemma_row_height(v, half_tan);
    let d = half.minus(v);
    let du = units(d);
    let gu = units(d.times(two));
    let h = row_height(v, half_tan);
    assert((2 * u) * t <= big * u) by (nonlinear_arith)
        requires
            2 * t <= big,
            u > 0,
    ;
    lemma_times_near(two, half_tan);
    let w = two.times(half_tan);
    let wu = units(w);
    assert(gap(wu, 2 * t) * 16777216 <= 3 * t) by {
        let p = wu * u;
        let q = (2 * u) * t;
        assert(q == 2 * t * u) by (nonlinear_arith)
            requires
                q == (2 * u) * t,
        ;
        assert(8388608 * u <= t * u) by (nonlinear_arith)
            requires
                t >= 16777216,
                u > 0,
        ;
        assert(q >= 0) by (nonlinear_arith)
            requires
                q == 2 * t * u,
                t > 0,
                u > 0,
        ;
        assert(2 * t * u == 2 * (t * u)) by (nonlinear_arith);
        assert(gap(p, q) * 16777216 <= 3 * (t * u));
        let tt = 2 * t;
        assert(gap(wu, tt) * 16777216 <= 3 * t) by (nonlinear_arith)
            requires
                gap(p, q) * 16777216 <= 3 * (t * u),
                p == wu * u,
                q == tt * u,
                u > 0,
                wu >= tt ==> gap(wu, tt) == wu - tt,
                wu < tt ==> gap(wu, tt) == tt - wu,
                gap(p, q) == p - q || gap(p, q) == q - p,
                gap(p, q) >= 0,
        ;
    }
    let a = units(tangent);
    assert(size(a) <= 5 * t);
    assert(wu >= t);
    assert(size(a) * u <= big * wu) by (nonlinear_arith)
        requires
            0 <= size(a) <= 5 * t,
            t <= wu,
            5 * u <= big,
            u > 0,
            t > 0,
    ;
    lemma_over_near(tangent, w);
    let r = tangent.over(w);
    lemma_back_chain(u, t, du, gu, units(h), a, wu, units(r));
    lemma_minus_near(half, r);
    let b = units(half.minus(r));
    let c = 16777216int;
    assert(size(u / 2 - units(r)) <= 7 * u);
    assert(gap(b, u / 2 - units(r)) * c <= 7 * u);
    assert(gap(du, u / 2 - x) * c <= u);
    assert(gap(b, x) * c <= 88 * u);
}

/// The tangent undoes the angle that is taken of a height, for heights of up to
/// sixteen.
pub open spec fn undoes<T: Fn(Single) -> Single, A: Fn(Single) -> Single>(
    tan: T,
    atan: A,
) -> bool {
    forall|height: Single, angle: Single, tangent: Single|
        #![trigger atan.ensures((height,), angle), tan.ensures((angle,), tangent)]
        finite(height) && size(units(height)) <= 16 * pow2(149) && atan.ensures((height,), angle)
            && tan.ensures((angle,), tangent) ==> comes_back(height, tangent)
}

/// The half field of view has one tangent, from `2^-20` to four: a field of view of
/// up to about 150 degrees.
pub open spec fn usual_view<T: Fn(Single) -> Single>(
    tan: T,
    c: CylindricalStereoProjectionConfig,
) -> bool {
    &&& forall|a: Single| #[trigger]
        half_tangent(tan, c, a) ==> moderate(a) && units(a) <= 4 * pow2(149)
    &&& forall|a: Single, b: Single| #[trigger]
        half_tangent(tan, c, a) && #[trigger] half_tangent(tan, c, b) ==> a == b
}

/// The two mappings undo each other: a place in the output that is converted to yaw
/// and pitch, and converted back, is led back to within one part in a hundred thousand
/// of the output's side. This rests on a usual field of view, on a middle that is not
/// far off against the span, and on a tangent that undoes the angle.
pub proof fn law_output_mappings_undo_each_other<
    T: Fn(Single) -> Single,
    A: Fn(Single) -> Single,
>(
    uv: [Single; 2],
    c: CylindricalStereoProjectionConfig,
    tan: T,
    atan: A,
    v: [Single; 2],
    r: [Single; 2],
)
    requires
        is_share(uv@[0]),
        is_share(uv@[1]),
        moderate(c.yaw_span_rad),
        finite(c.yaw_center_rad),
        size(units(c.yaw_center_rad)) <= 16 * units(c.yaw_span_rad),
        usual_view(tan, c),
        undoes(tan, atan),
        directed(uv, c, tan, atan, v),
        placed(v, c, tan, r),
    ensures
        near(r@[0], uv@[0]),
        near(r@[1], uv@[1]),
{
    lemma_column_comes_back(uv@[0], c);
    let half_tan = choose|half_tan: Single|
        #![trigger half_tangent(tan, c, half_tan)]
        half_tangent(tan, c, half_tan) && atan.ensures((row_height(uv@[1], half_tan),), v@[1]);
    let (tangent, again) = choose|height: Single, half_tan: Single|
        #![trigger tan.ensures((v@[1],), height), half_tangent(tan, c, half_tan)]
        tan.ensures((v@[1],), height) && half_tangent(tan, c, half_tan) && r@[1] == height_row(
            height,
            half_tan,
        );
    assert(half_tangent(tan, c, half_tan) && half_tangent(tan, c, again));
    lemma_row_height(uv@[1], half_tan);
    assert(comes_back(row_height(uv@[1], half_tan), tangent));
    lemma_row_comes_back(uv@[1], half_tan, tangent);
}

/// The chain of inequalities from a column to its yaw.
proof fn lemma_yaw_chain(u: int, w: int, s: int, k: int, d: int, m: int, y: int)
    requires
        u >= 16777216,
        u % 2 == 0,
        0 <= w <= u,
        s >= 16777216,
        size(k) <= 16 * s,
        gap(d, w - u / 2) * 16777216 <= size(w - u / 2),
        gap(m * u, d * s) * 16777216 <= size(d * s) + 8388608 * u,
        gap(y, k + m) * 16777216 <= size(k + m),
    ensures
        gap(y * (2 * u), k * (2 * u) + (2 * w - u) * s) * 262144 <= u * s,
{
    let e = 16777216int;
    let us = u * s;
    let ds = d * s;
    let mu = m * u;
    let h = 2 * w - u;
    let hs = h * s;
    assert(size(ds) <= us) by (nonlinear_arith)
        requires
            ds == d * s,
            us == u * s,
            -u <= d <= u,
            s > 0,
            size(ds) == ds || size(ds) == -ds,
    ;
    assert(8388608 * u <= us) by (nonlinear_arith)
        requires
            us == u * s,
            s >= 16777216,
            u > 0,
    ;
    assert(gap(mu, ds) * e <= 2 * us);
    assert(size(mu) <= 2 * us);
    assert(size(m) <= 2 * s) by (nonlinear_arith)
        requires
            size(mu) <= 2 * us,
            mu == m * u,
            us == u * s,
            u > 0,
            size(mu) == mu || size(mu) == -mu,
            size(mu) >= 0,
            size(m) == m || size(m) == -m,
            size(m) >= 0,
    ;
    let d2 = 2 * d;
    assert(gap(d2, h) * e <= u);
    let ds2 = 2 * ds;
    assert(gap(ds2, hs) * e <= us) by (nonlinear_arith)
        requires
            gap(d2, h) * e <= u,
            ds == d * s,
            ds2 == 2 * ds,
            d2 == 2 * d,
            hs == h * s,
            us == u * s,
            s > 0,
            e > 0,
            d2 >= h ==> gap(d2, h) == d2 - h,
            d2 < h ==> gap(d2, h) == h - d2,
            gap(ds2, hs) == ds2 - hs || gap(ds2, hs) == hs - ds2,
            gap(ds2, hs) >= 0,
    ;
    let mu2 = 2 * mu;
    assert(gap(mu2, hs) * e <= 5 * us);
    let yu = y * (2 * u);
    let km = k + m;
    let kmu = km * (2 * u);
    assert(gap(yu, kmu) * e <= 36 * us) by (nonlinear_arith)
        requires
            gap(y, km) * e <= 18 * s,
            yu == y * (2 * u),
            kmu == km * (2 * u),
            us == u * s,
            u > 0,
            e > 0,
            y >= km ==> gap(y, km) == y - km,
            y < km ==> gap(y, km) == km - y,
            gap(yu, kmu) == yu - kmu || gap(yu, kmu) == kmu - yu,
            gap(yu, kmu) >= 0,
    ;
    let ku = k * (2 * u);
    assert(kmu == ku + mu2) by (nonlinear_arith)
        requires
            kmu == km * (2 * u),
            km == k + m,
            ku == k * (2 * u),
            mu2 == 2 * (m * u),
    ;
    assert(us >= 0) by (nonlinear_arith)
        requires
            us == u * s,
            u > 0,
            s > 0,
    ;
}

/// The columns of the output run across the span of the yaw, from left to right, with
/// its middle in the middle; the rows run down the cylinder, from the tangent of half the
/// view to its opposite.
#[verifier::rlimit(40)]
pub proof fn law_output_spans_the_view<T: Fn(Single) -> Single, A: Fn(Single) -> Single>(
    uv: [Single; 2],
    c: CylindricalStereoProjectionConfig,
    tan: T,
    atan: A,
    v: [Single; 2],
)
    requires
        is_share(uv@[0]),
        is_share(uv@[1]),
        moderate(c.yaw_span_rad),
        finite(c.yaw_center_rad),
        size(units(c.yaw_center_rad)) <= 16 * units(c.yaw_span_rad),
        usual_view(tan, c),
        directed(uv, c, tan, atan, v),
    ensures
        ({
            let u = pow2(149) as int;
            let s = units(c.yaw_span_rad);
            &&& finite(v@[0])
            &&& gap(
                units(v@[0]) * (2 * u),
                units(c.yaw_center_rad) * (2 * u) + (2 * units(uv@[0]) - u) * s,
            ) * 262144 <= u * s
            &&& exists|height: Single, half_tan: Single|
                #![trigger atan.ensures((height,), v@[1]), half_tangent(tan, c, half_tan)]
                atan.ensures((height,), v@[1]) && half_tangent(tan, c, half_tan) && finite(height)
                    && gap(units(height) * u, (u - 2 * units(uv@[1])) * units(half_tan)) * 1048576
                    <= u * units(half_tan)
        }),
{
    let u = pow2(149) as int;
    let half = Single { bits: HALF };
    let span = c.yaw_span_rad;
    let center = c.yaw_center_rad;
    let s = units(span);
    let w = units(uv@[0]);
    lemma2_to64();
    lemma_half();
    lemma_powers();
    lemma_exact_integer(0);
    lemma_exact_integer(1);
    assert(0 * u == 0 && 1 * u == u);
    assert(u / 2 == pow2(148) && u % 2 == 0);
    let big = pow2(276) as int;
    lemma_minus_near(uv@[0], half);
    let d = uv@[0].minus(half);
    let sd = size(units(d));
    assert(sd * s <= big * u) by (nonlinear_arith)
        requires
            0 <= sd <= u,
            0 <= s <= big,
            u > 0,
    ;
    lemma_times_near(d, span);
    let m = d.times(span);
    let (du, mm) = (units(d), units(m));
    assert(size(mm) <= 2 * s) by {
        let p = mm * u;
        let q = du * s;
        let us = u * s;
        assert(size(q) <= us) by (nonlinear_arith)
            requires
                q == du * s,
                us == u * s,
                -u <= du <= u,
                s > 0,
                size(q) == q || size(q) == -q,
        ;
        assert(8388608 * u <= us) by (nonlinear_arith)
            requires
                us == u * s,
                s >= 16777216,
                u > 0,
        ;
        assert(size(p) <= 2 * us);
        assert(size(mm) <= 2 * s) by (nonlinear_arith)
            requires
                size(p) <= 2 * us,
                p == mm * u,
                us == u * s,
                u > 0,
                size(p) == p || size(p) == -p,
                size(p) >= 0,
                size(mm) == mm || size(mm) == -mm,
                size(mm) >= 0,
        ;
    }
    lemma_plus_near(center, m);
    lemma_yaw_chain(u, w, s, units(center), du, mm, units(center.plus(m)));
    // The row.
    let half_tan = choose|half_tan: Single|
        #![trigger half_tangent(tan, c, half_tan)]
        half_tangent(tan, c, half_tan) && atan.ensures((row_height(uv@[1], half_tan),), v@[1]);
    assert(half_tangent(tan, c, half_tan));
    let t = units(half_tan);
    let x = units(uv@[1]);
    lemma_row_height(uv@[1], half_tan);
    let h = row_height(uv@[1], half_tan);
    let e = half.minus(uv@[1]);
    let eu = units(e);
    let e2 = 2 * eu;
    let g = u - 2 * x;
    let et = 2 * eu * t;
    let gt = g * t;
    let ut = u * t;
    assert(gap(e2, g) * 16777216 <= 2 * u);
    assert(gap(et, gt) * 16777216 <= 2 * ut) by (nonlinear_arith)
        requires
            gap(e2, g) * 16777216 <= 2 * u,
            e2 == 2 * eu,
            et == 2 * eu * t,
            gt == g * t,
            ut == u * t,
            t > 0,
            e2 >= g ==> gap(e2, g) == e2 - g,
            e2 < g ==> gap(e2, g) == g - e2,
            gap(et, gt) == et - gt || gap(et, gt) == gt - et,
            gap(et, gt) >= 0,
    ;
    assert(ut >= 0) by (nonlinear_arith)
        requires
            ut == u * t,
            u > 0,
            t > 0,
    ;
    assert(gap(units(h) * u, gt) * 1048576 <= ut);
    assert(atan.ensures((h,), v@[1]));
}

} // verus!
