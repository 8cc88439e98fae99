//! Where a ball between two trusted ones is expected, and how far from there a candidate
//! is taken to be.

use crate::angle_laws::{degrees_of, law_angular_distance_is_that_of_the_plane, measures};
use crate::ball_recovery::{BallRecoveryAnchor, BallRecoveryCandidate, BallRecoveryRequest};
use crate::binary::magnitude::lemma_pow2_le;
use crate::binary::nearness::{
    finite, lemma_minus_near, lemma_natural_near, lemma_over_near, lemma_plus_near,
    lemma_times_near, size, units,
};
use crate::binary::rounding::{
    gap, lemma_round_units_exact, lemma_round_units_monotone, round_units,
};
use crate::binary::single::Single;
use crate::binary::value::{lemma_naturals, of_natural, Format};
use crate::distance_laws::square;
use crate::recovery_engine::{
    chosen_candidate, distances_measured, fraction_of_way, interpolated, BallRecoveryConfig,
    BallRecoveryVerdict, RecoveryDistances,
};
use vstd::arithmetic::power2::{lemma2_to64, lemma_pow2_adds, lemma_pow2_pos, pow2};
use vstd::prelude::*;

verus! {

/// A quotient of two integers, the first not larger than the second: it is not above
/// one, it grows with the first, and it is near the true quotient.
#[verifier::rlimit(40)]
proof fn lemma_ratio(i: nat, j: nat, n: nat)
    requires
        i <= j <= n,
        1 <= n <= u64::MAX,
    ensures
        ({
            let d = Single::natural(n);
            let a = Single::natural(i).over(d);
            let b = Single::natural(j).over(d);
            &&& finite(a) && finite(b)
            &&& 0 <= units(a) <= units(b) <= pow2(149)
            &&& i == 0 ==> units(a) == 0
            &&& j == n ==> units(b) == pow2(149)
            &&& gap(units(b) * n, (j * pow2(149)) as int) * 16777216 <= 5 * (n * pow2(149))
        }),
{
    let f = Format::Binary32;
    let u = pow2(149);
    lemma2_to64();
    lemma_pow2_pos(149);
    lemma_pow2_le(24, 149);
    lemma_natural_near(i);
    lemma_natural_near(j);
    lemma_natural_near(n);
    reveal(Single::natural);
    lemma_naturals(f, i, j);
    lemma_naturals(f, j, n);
    Single::lemma_of_value(of_natural(f, i));
    Single::lemma_of_value(of_natural(f, j));
    Single::lemma_of_value(of_natural(f, n));
    let x = units(Single::natural(i)) as nat;
    let y = units(Single::natural(j)) as nat;
    let z = units(Single::natural(n)) as nat;
    assert(x <= y <= z && z >= u);
    lemma_pow2_le(149, 276);
    assert(y * u <= pow2(276) * z && x * u <= pow2(276) * z) by (nonlinear_arith)
        requires
            x <= y <= z,
            u <= pow2(276),
    ;
    let ni = Single::natural(i);
    let nj = Single::natural(j);
    let d = Single::natural(n);
    lemma_over_near(ni, d);
    lemma_over_near(nj, d);
    reveal(Single::over_spec);
    crate::binary::nearness::lemma_no_overflow(false, x * u, z);
    crate::binary::nearness::lemma_no_overflow(false, y * u, z);
    let p = round_units(x * u, z, 24);
    let q = round_units(y * u, z, 24);
    assert(units(ni.over(d)) == p && units(nj.over(d)) == q);
    assert(x * u <= y * u && y * u <= z * u) by (nonlinear_arith)
        requires
            x <= y <= z,
    ;
    assert(1 * u * z == z * u) by (nonlinear_arith);
    lemma_round_units_exact(1, 149, z, 24);
    lemma_round_units_monotone(x * u, y * u, z, 24);
    lemma_round_units_monotone(y * u, z * u, z, 24);
    if i == 0 {
        assert(0 * u == 0);
        lemma_round_units_exact(0, 0, z, 24);
        assert(0 * pow2(0) * z == 0) by (nonlinear_arith);
    }
    lemma_ratio_chain(u as int, j as int, n as int, y as int, z as int, q as int);
}

/// The chain of inequalities behind a quotient of integers.
proof fn lemma_ratio_chain(u: int, j: int, n: int, y: int, z: int, q: int)
    requires
        u >= 16777216,
        0 <= j <= n,
        n >= 1,
        0 <= q <= u,
        y >= 0,
        gap(y, j * u) * 16777216 <= j * u,
        gap(z, n * u) * 16777216 <= n * u,
        gap(q * z, y * u) * 16777216 <= size(y) * u + 8388608 * z,
    ensures
        gap(q * n, j * u) * 16777216 <= 5 * (n * u),
{
    let e = 16777216int;
    let nu = n * u;
    let ju = j * u;
    let qz = q * z;
    let yu = y * u;
    let nuu = nu * u;
    let juu = ju * u;
    let qnu = q * nu;
    assert(0 <= ju <= nu) by (nonlinear_arith)
        requires
            ju == j * u,
            nu == n * u,
            0 <= j <= n,
            u > 0,
    ;
    assert(0 <= juu <= nuu) by (nonlinear_arith)
        requires
            juu == ju * u,
            nuu == nu * u,
            0 <= ju <= nu,
            u > 0,
    ;
    assert(gap(yu, juu) * e <= juu) by (nonlinear_arith)
        requires
            gap(y, ju) * e <= ju,
            yu == y * u,
            juu == ju * u,
            u > 0,
            e > 0,
            y >= ju ==> gap(y, ju) == y - ju,
            y < ju ==> gap(y, ju) == ju - y,
            gap(yu, juu) == yu - juu || gap(yu, juu) == juu - yu,
            gap(yu, juu) >= 0,
    ;
    assert(gap(qz, qnu) * e <= nuu) by (nonlinear_arith)
        requires
            gap(z, nu) * e <= nu,
            0 <= q <= u,
            qz == q * z,
            qnu == q * nu,
            nuu == nu * u,
            e > 0,
            nu >= 0,
            z >= nu ==> gap(z, nu) == z - nu,
            z < nu ==> gap(z, nu) == nu - z,
            gap(qz, qnu) == qz - qnu || gap(qz, qnu) == qnu - qz,
            gap(qz, qnu) >= 0,
    ;
    assert(z <= 2 * nu);
    assert(8388608 * z <= nuu) by (nonlinear_arith)
        requires
            z <= 2 * nu,
            nuu == nu * u,
            u >= 16777216,
            nu >= 0,
    ;
    assert(gap(qnu, juu) * e <= 5 * nuu);
    let qn = q * n;
    assert(qnu == qn * u) by (nonlinear_arith)
        requires
            qnu == q * nu,
            nu == n * u,
            qn == q * n,
    ;
    assert(gap(qn, ju) * e <= 5 * nu) by (nonlinear_arith)
        requires
            gap(qnu, juu) * e <= 5 * nuu,
            qnu == qn * u,
            juu == ju * u,
            nuu == nu * u,
            u > 0,
            e > 0,
            qn >= ju ==> gap(qn, ju) == qn - ju,
            qn < ju ==> gap(qn, ju) == ju - qn,
            gap(qnu, juu) == qnu - juu || gap(qnu, juu) == juu - qnu,
            gap(qnu, juu) >= 0,
    ;
}

/// A frame from that of the earlier ball to that of the later one, which is later.
pub open spec fn lies_between(
    previous: BallRecoveryAnchor,
    future: BallRecoveryAnchor,
    frame: u64,
) -> bool {
    previous.frame_index < future.frame_index && previous.frame_index <= frame
        <= future.frame_index
}

/// The share of the way between two trusted balls that lies behind a frame: nothing at
/// the frame of the earlier ball, all of it at that of the later one, and it never falls
/// as the frames go on.
pub proof fn law_share_of_way_grows_from_nothing_to_all(
    previous: BallRecoveryAnchor,
    future: BallRecoveryAnchor,
    frame: u64,
    later: u64,
)
    requires
        lies_between(previous, future, frame),
        lies_between(previous, future, later),
        frame <= later,
    ensures
        ({
            let a = fraction_of_way(previous, future, frame);
            let b = fraction_of_way(previous, future, later);
            &&& finite(a) && finite(b)
            &&& 0 <= units(a) <= units(b) <= pow2(149)
            &&& frame == previous.frame_index ==> units(a) == 0
            &&& later == future.frame_index ==> units(b) == pow2(149)
        }),
{
    lemma_ratio(
        (frame - previous.frame_index) as nat,
        (later - previous.frame_index) as nat,
        (future.frame_index - previous.frame_index) as nat,
    );
}

/// A direction that is a number of a usual size: not beyond eight radians.
pub open spec fn usual_angle(a: Single) -> bool {
    finite(a) && size(units(a)) <= 8 * pow2(149)
}

/// Where a ball that moves evenly from one angle to another in `n` frames is after `j`
/// of them, times `n`.
pub open spec fn even_motion(from: Single, to: Single, j: int, n: int) -> int {
    units(from) * (n - j) + units(to) * j
}

/// The chain of inequalities along the way.
#[verifier::rlimit(40)]
proof fn lemma_way_chain(u: int, x: int, y: int, j: int, n: int, q: int, d: int, m: int, v: int)
    requires
        u >= 16777216,
        size(x) <= 8 * u,
        size(y) <= 8 * u,
        0 <= j <= n,
        n >= 1,
        0 <= q <= u,
        gap(q * n, j * u) * 16777216 <= 5 * (n * u),
        gap(d, y - x) * 16777216 <= size(y - x),
        gap(m * u, d * q) * 16777216 <= size(d * q) + 8388608 * u,
        gap(v, x + m) * 16777216 <= size(x + m),
    ensures
        size(m) <= 18 * u,
        gap(v * n, x * (n - j) + y * j) * 65536 <= n * u,
{
    let e = 16777216int;
    let w = y - x;
    let dq = d * q;
    let wq = w * q;
    let mu = m * u;
    let uu = u * u;
    assert(size(w) <= 16 * u);
    assert(size(d) <= 17 * u);
    assert(size(dq) <= 17 * uu) by (nonlinear_arith)
        requires
            dq == d * q,
            -(17 * u) <= d <= 17 * u,
            0 <= q <= u,
            uu == u * u,
            size(dq) == dq || size(dq) == -dq,
    ;
    assert(16777216 * u <= uu) by (nonlinear_arith)
        requires
            uu == u * u,
            u >= 16777216,
    ;
    assert(gap(mu, dq) * e <= 18 * uu);
    assert(size(mu) <= 18 * uu);
    assert(size(m) <= 18 * u) by (nonlinear_arith)
        requires
            size(mu) <= 18 * uu,
            mu == m * u,
            uu == u * u,
            u > 0,
            size(mu) == mu || size(mu) == -mu,
            size(mu) >= 0,
            size(m) == m || size(m) == -m,
            size(m) >= 0,
    ;
    assert(gap(dq, wq) * e <= 16 * uu) by (nonlinear_arith)
        requires
            gap(d, w) * e <= 16 * u,
            dq == d * q,
            wq == w * q,
            0 <= q <= u,
            uu == u * u,
            e > 0,
            d >= w ==> gap(d, w) == d - w,
            d < w ==> gap(d, w) == w - d,
            gap(dq, wq) == dq - wq || gap(dq, wq) == wq - dq,
            gap(dq, wq) >= 0,
    ;
    assert(gap(mu, wq) * e <= 34 * uu);
    // Times the number of frames.
    let nuu = n * uu;
    let mun = mu * n;
    let wqn = wq * n;
    let wju = w * (j * u);
    assert(gap(mun, wqn) * e <= 34 * nuu) by (nonlinear_arith)
        requires
            gap(mu, wq) * e <= 34 * uu,
            mun == mu * n,
            wqn == wq * n,
            nuu == n * uu,
            n >= 1,
            e > 0,
            mu >= wq ==> gap(mu, wq) == mu - wq,
            mu < wq ==> gap(mu, wq) == wq - mu,
            gap(mun, wqn) == mun - wqn || gap(mun, wqn) == wqn - mun,
            gap(mun, wqn) >= 0,
    ;
    let qn = q * n;
    let ju = j * u;
    let nu = n * u;
    assert(wqn == w * qn) by (nonlinear_arith)
        requires
            wqn == wq * n,
            wq == w * q,
            qn == q * n,
    ;
    assert(nuu == nu * u) by (nonlinear_arith)
        requires
            nuu == n * uu,
            uu == u * u,
            nu == n * u,
    ;
    assert(gap(wqn, wju) * e <= 80 * nuu) by (nonlinear_arith)
        requires
            gap(qn, ju) * e <= 5 * nu,
            wqn == w * qn,
            wju == w * ju,
            nuu == nu * u,
            -(16 * u) <= w <= 16 * u,
            e > 0,
            u > 0,
            nu >= 0,
            qn >= ju ==> gap(qn, ju) == qn - ju,
            qn < ju ==> gap(qn, ju) == ju - qn,
            gap(wqn, wju) == wqn - wju || gap(wqn, wju) == wju - wqn,
            gap(wqn, wju) >= 0,
    ;
    assert(gap(mun, wju) * e <= 114 * nuu);
    let mn = m * n;
    let wj = w * j;
    assert(mun == mn * u && wju == wj * u) by (nonlinear_arith)
        requires
            mun == mu * n,
            mu == m * u,
            mn == m * n,
            wju == w * ju,
            ju == j * u,
            wj == w * j,
    ;
    assert(gap(mn, wj) * e <= 114 * nu) by (nonlinear_arith)
        requires
            gap(mun, wju) * e <= 114 * nuu,
            mun == mn * u,
            wju == wj * u,
            nuu == nu * u,
            u > 0,
            e > 0,
            mn >= wj ==> gap(mn, wj) == mn - wj,
            mn < wj ==> gap(mn, wj) == wj - mn,
            gap(mun, wju) == mun - wju || gap(mun, wju) == wju - mun,
            gap(mun, wju) >= 0,
    ;
    assert(gap(v, x + m) * e <= 26 * u);
    let vn = v * n;
    let s = x + m;
    let sn = s * n;
    assert(gap(vn, sn) * e <= 26 * nu) by (nonlinear_arith)
        requires
            gap(v, s) * e <= 26 * u,
            vn == v * n,
            sn == s * n,
            nu == n * u,
            n >= 1,
            e > 0,
            v >= s ==> gap(v, s) == v - s,
            v < s ==> gap(v, s) == s - v,
            gap(vn, sn) == vn - sn || gap(vn, sn) == sn - vn,
            gap(vn, sn) >= 0,
    ;
    let even = x * (n - j) + y * j;
    assert(sn - mn == even - wj) by (nonlinear_arith)
        requires
            sn == s * n,
            s == x + m,
            mn == m * n,
            even == x * (n - j) + y * j,
            wj == w * j,
            w == y - x,
    ;
    assert(nu >= 0) by (nonlinear_arith)
        requires
            nu == n * u,
            n >= 1,
            u > 0,
    ;
}

/// The expected place is that of a ball that moves evenly from the earlier trusted ball
/// to the later one: within `2^-16` of a radian.
#[verifier::rlimit(40)]
pub proof fn law_expected_place_moves_evenly(
    previous: BallRecoveryAnchor,
    future: BallRecoveryAnchor,
    frame: u64,
    from: Single,
    to: Single,
)
    requires
        lies_between(previous, future, frame),
        usual_angle(from),
        usual_angle(to),
    ensures
        ({
            let at = interpolated(from, to, fraction_of_way(previous, future, frame));
            let n = future.frame_index - previous.frame_index;
            let j = frame - previous.frame_index;
            &&& finite(at)
            &&& gap(units(at) * n, even_motion(from, to, j, n)) * 65536 <= n * pow2(149)
            &&& size(units(at)) <= 28 * pow2(149)
        }),
{
    let u = pow2(149) as int;
    let n = future.frame_index - previous.frame_index;
    let j = frame - previous.frame_index;
    let big = pow2(276) as int;
    lemma2_to64();
    lemma_pow2_pos(149);
    lemma_pow2_le(24, 149);
    lemma_pow2_adds(24, 149);
    lemma_pow2_le(173, 276);
    lemma_ratio(0, j as nat, n as nat);
    let q = fraction_of_way(previous, future, frame);
    lemma_minus_near(to, from);
    let d = to.minus(from);
    let (sd, uq) = (size(units(d)), units(q));
    assert(sd * size(uq) <= big * u) by (nonlinear_arith)
        requires
            0 <= sd <= 17 * u,
            0 <= uq <= u,
            size(uq) == uq,
            17 * u <= big,
            u > 0,
    ;
    lemma_times_near(d, q);
    let m = d.times(q);
    let (du, mu) = (units(d), units(m));
    assert(size(mu) <= 100 * u) by {
        let p = du * uq;
        let r = mu * u;
        let uu = u * u;
        assert(size(p) <= 17 * uu) by (nonlinear_arith)
            requires
                p == du * uq,
                -(17 * u) <= du <= 17 * u,
                0 <= uq <= u,
                uu == u * u,
                size(p) == p || size(p) == -p,
        ;
        assert(8388608 * u <= uu) by (nonlinear_arith)
            requires
                uu == u * u,
                u >= 16777216,
        ;
        assert(size(r) <= 100 * uu);
        assert(size(mu) <= 100 * u) by (nonlinear_arith)
            requires
                size(r) <= 100 * uu,
                r == mu * u,
                uu == u * u,
                u > 0,
                size(r) == r || size(r) == -r,
                size(r) >= 0,
                size(mu) == mu || size(mu) == -mu,
                size(mu) >= 0,
        ;
    }
    lemma_plus_near(from, m);
    let v = from.plus(m);
    lemma_way_chain(u, units(from), units(to), j, n, uq, du, mu, units(v));
}

/// An angle is where an evenly moving ball would be, within one part in `parts` of a
/// radian.
pub open spec fn moves_evenly(
    angle: Single,
    from: Single,
    to: Single,
    j: int,
    n: int,
    parts: int,
) -> bool {
    gap(units(angle) * n, even_motion(from, to, j, n)) * parts <= n * pow2(149)
}

/// An expected angle is not beyond nine radians, and lies as near to another as an
/// evenly moving ball does, but for rounding.
proof fn lemma_expected_angle(
    previous: BallRecoveryAnchor,
    future: BallRecoveryAnchor,
    frame: u64,
    from: Single,
    to: Single,
    angle: Single,
)
    requires
        lies_between(previous, future, frame),
        usual_angle(from),
        usual_angle(to),
        usual_angle(angle),
    ensures
        ({
            let at = interpolated(from, to, fraction_of_way(previous, future, frame));
            let n = future.frame_index - previous.frame_index;
            let j = frame - previous.frame_index;
            let off = gap(units(angle) * n, even_motion(from, to, j, n));
            &&& finite(at)
            &&& size(units(at)) <= 9 * pow2(149)
            &&& n >= 1
            &&& gap(off, size(units(at) - units(angle)) * n) * 65536 <= n * pow2(149)
        }),
{
    let u = pow2(149) as int;
    let n = future.frame_index - previous.frame_index;
    let j = frame - previous.frame_index;
    lemma_pow2_pos(149);
    law_expected_place_moves_evenly(previous, future, frame, from, to);
    let at = interpolated(from, to, fraction_of_way(previous, future, frame));
    let v = units(at);
    let a = units(angle);
    let (x, y) = (units(from), units(to));
    let even = even_motion(from, to, j, n);
    let nu = n * u;
    assert(size(even) <= 8 * nu) by {
        let p = x * (n - j);
        let q = y * j;
        assert(size(p) <= 8 * (u * (n - j)) && size(q) <= 8 * (u * j)) by (nonlinear_arith)
            requires
                p == x * (n - j),
                q == y * j,
                -(8 * u) <= x <= 8 * u,
                -(8 * u) <= y <= 8 * u,
                0 <= j <= n,
                size(p) == p || size(p) == -p,
                size(q) == q || size(q) == -q,
        ;
        assert(u * (n - j) + u * j == nu) by (nonlinear_arith)
            requires
                nu == n * u,
        ;
    }
    let vn = v * n;
    let an = a * n;
    assert(nu >= 0) by (nonlinear_arith)
        requires
            nu == n * u,
            n >= 1,
            u > 0,
    ;
    assert(size(vn) <= 9 * nu);
    assert(size(v) <= 9 * u) by (nonlinear_arith)
        requires
            size(vn) <= 9 * nu,
            vn == v * n,
            nu == n * u,
            n >= 1,
            size(vn) == vn || size(vn) == -vn,
            size(vn) >= 0,
            size(v) == v || size(v) == -v,
            size(v) >= 0,
    ;
    let s = size(v - a) * n;
    assert(s == gap(vn, an)) by (nonlinear_arith)
        requires
            s == size(v - a) * n,
            vn == v * n,
            an == a * n,
            n >= 1,
            v >= a ==> size(v - a) == v - a,
            v < a ==> size(v - a) == a - v,
            vn >= an ==> gap(vn, an) == vn - an,
            vn < an ==> gap(vn, an) == an - vn,
    ;
}

/// A candidate that is where a ball moving evenly between the two trusted ones would be
/// lies within a quarter of a degree of the path, and is not rejected as off the path by
/// a limit of a degree or more.
pub proof fn law_evenly_moving_candidate_is_on_the_path<H: Fn(Single, Single) -> Single>(
    config: BallRecoveryConfig,
    request: BallRecoveryRequest,
    candidate_id: Option<u32>,
    confidence: Single,
    hypot: H,
    d: RecoveryDistances,
    c: BallRecoveryCandidate,
    previous: BallRecoveryAnchor,
    future: BallRecoveryAnchor,
)
    requires
        measures(hypot),
        distances_measured(request, candidate_id, hypot, d),
        chosen_candidate(request, candidate_id) == Some(c),
        request.previous_trusted == Some(previous),
        request.future_trusted == Some(future),
        lies_between(previous, future, c.frame_index),
        usual_angle(previous.yaw) && usual_angle(previous.pitch),
        usual_angle(future.yaw) && usual_angle(future.pitch),
        usual_angle(c.yaw) && usual_angle(c.pitch),
        ({
            let n = future.frame_index - previous.frame_index;
            let j = c.frame_index - previous.frame_index;
            &&& moves_evenly(c.yaw, previous.yaw, future.yaw, j, n, 1024)
            &&& moves_evenly(c.pitch, previous.pitch, future.pitch, j, n, 1024)
        }),
    ensures
        d.path matches Some(x) && finite(x) && 0 <= units(x) && units(x) * 4 <= pow2(149),
        finite(config.max_interpolation_error_deg) && units(config.max_interpolation_error_deg)
            >= pow2(149) ==> config.verdict(request, candidate_id, confidence, d)
            != BallRecoveryVerdict::OffThePath,
{
    let u = pow2(149) as int;
    lemma_pow2_pos(149);
    let n = future.frame_index - previous.frame_index;
    let along = fraction_of_way(previous, future, c.frame_index);
    let yaw = interpolated(previous.yaw, future.yaw, along);
    let pitch = interpolated(previous.pitch, future.pitch, along);
    lemma_expected_angle(previous, future, c.frame_index, previous.yaw, future.yaw, c.yaw);
    lemma_expected_angle(previous, future, c.frame_index, previous.pitch, future.pitch, c.pitch);
    let dy = units(yaw) - units(c.yaw);
    let dp = units(pitch) - units(c.pitch);
    let (sy, sp) = (size(dy), size(dp));
    let nu = n * u;
    assert(sy * 1000 <= u && sp * 1000 <= u) by (nonlinear_arith)
        requires
            (sy * n) * 1000 <= nu,
            (sp * n) * 1000 <= nu,
            nu == n * u,
            n >= 1,
    ;
    let x = d.path->0;
    law_angular_distance_is_that_of_the_plane(hypot, c.yaw, c.pitch, yaw, pitch, x);
    let uu = square(u);
    let s = square(dy) + square(dp);
    assert(s * 500000 <= uu) by (nonlinear_arith)
        requires
            s == dy * dy + dp * dp,
            -u <= dy * 1000 <= u,
            -u <= dp * 1000 <= u,
            uu == u * u,
    ;
    let w = units(x);
    let ww = square(w);
    assert(ww * 16 <= uu);
    assert(w * 4 <= u) by (nonlinear_arith)
        requires
            ww == w * w,
            uu == u * u,
            ww * 16 <= uu,
            w >= 0,
            u > 0,
    ;
}

/// A candidate that is off by half a radian from where a ball moving evenly between the
/// two trusted ones would be lies at least 28 degrees off the path, and is not accepted
/// under a limit of 28 degrees or less.
pub proof fn law_candidate_off_the_path_is_not_accepted<H: Fn(Single, Single) -> Single>(
    config: BallRecoveryConfig,
    request: BallRecoveryRequest,
    candidate_id: Option<u32>,
    confidence: Single,
    hypot: H,
    d: RecoveryDistances,
    c: BallRecoveryCandidate,
    previous: BallRecoveryAnchor,
    future: BallRecoveryAnchor,
)
    requires
        measures(hypot),
        distances_measured(request, candidate_id, hypot, d),
        chosen_candidate(request, candidate_id) == Some(c),
        request.previous_trusted == Some(previous),
        request.future_trusted == Some(future),
        lies_between(previous, future, c.frame_index),
        usual_angle(previous.yaw) && usual_angle(previous.pitch),
        usual_angle(future.yaw) && usual_angle(future.pitch),
        usual_angle(c.yaw) && usual_angle(c.pitch),
        ({
            let n = future.frame_index - previous.frame_index;
            let j = c.frame_index - previous.frame_index;
            let yaw = gap(units(c.yaw) * n, even_motion(previous.yaw, future.yaw, j, n));
            let pitch = gap(units(c.pitch) * n, even_motion(previous.pitch, future.pitch, j, n));
            &&& 10 * yaw <= 29 * (n * pow2(149))
            &&& 2 * yaw >= n * pow2(149) || 2 * pitch >= n * pow2(149)
        }),
    ensures
        d.path matches Some(x) && finite(x) && units(x) >= 28 * pow2(149),
        finite(config.max_interpolation_error_deg) && units(config.max_interpolation_error_deg) < 28
            * pow2(149) ==> config.verdict(request, candidate_id, confidence, d)
            != BallRecoveryVerdict::Accepted,
{
    let u = pow2(149) as int;
    lemma_pow2_pos(149);
    let n = future.frame_index - previous.frame_index;
    let along = fraction_of_way(previous, future, c.frame_index);
    let yaw = interpolated(previous.yaw, future.yaw, along);
    let pitch = interpolated(previous.pitch, future.pitch, along);
    lemma_expected_angle(previous, future, c.frame_index, previous.yaw, future.yaw, c.yaw);
    lemma_expected_angle(previous, future, c.frame_index, previous.pitch, future.pitch, c.pitch);
    let dy = units(yaw) - units(c.yaw);
    let dp = units(pitch) - units(c.pitch);
    let (sy, sp) = (size(dy), size(dp));
    let nu = n * u;
    assert(sy <= 3 * u) by (nonlinear_arith)
        requires
            sy * n <= 3 * nu,
            nu == n * u,
            n >= 1,
    ;
    assert(sy * 1000 >= 499 * u || sp * 1000 >= 499 * u) by (nonlinear_arith)
        requires
            (sy * n) * 1000 >= 499 * nu || (sp * n) * 1000 >= 499 * nu,
            nu == n * u,
            n >= 1,
    ;
    let x = d.path->0;
    law_angular_distance_is_that_of_the_plane(hypot, c.yaw, c.pitch, yaw, pitch, x);
    let uu = square(u);
    let s = square(dy) + square(dp);
    assert(s * 1000000 >= 249001 * uu) by (nonlinear_arith)
        requires
            s == dy * dy + dp * dp,
            sy == dy || sy == -dy,
            sp == dp || sp == -dp,
            sy * 1000 >= 499 * u || sp * 1000 >= 499 * u,
            uu == u * u,
            u > 0,
    ;
    let w = units(x);
    let ww = square(w);
    assert(ww >= 784 * uu);
    assert(w >= 28 * u) by (nonlinear_arith)
        requires
            ww == w * w,
            uu == u * u,
            ww >= 784 * uu,
            w >= 0,
            u > 0,
    ;
}

/// The distances that speeds are taken from are those between the candidate and the
/// trusted ball before it, and between the candidate and the trusted ball after it.
pub proof fn law_distances_are_those_from_the_trusted_balls<H: Fn(Single, Single) -> Single>(
    request: BallRecoveryRequest,
    candidate_id: Option<u32>,
    hypot: H,
    d: RecoveryDistances,
    c: BallRecoveryCandidate,
)
    requires
        measures(hypot),
        distances_measured(request, candidate_id, hypot, d),
        chosen_candidate(request, candidate_id) == Some(c),
        usual_angle(c.yaw) && usual_angle(c.pitch),
    ensures
        request.previous_trusted matches Some(p) ==> usual_angle(p.yaw) && usual_angle(p.pitch)
            && size(units(c.yaw) - units(p.yaw)) <= 3 * pow2(149) ==> (d.previous matches Some(x)
            && degrees_of(x, units(c.yaw) - units(p.yaw), units(c.pitch) - units(p.pitch))),
        request.future_trusted matches Some(f) ==> usual_angle(f.yaw) && usual_angle(f.pitch)
            && size(units(f.yaw) - units(c.yaw)) <= 3 * pow2(149) ==> (d.future matches Some(x)
            && degrees_of(x, units(f.yaw) - units(c.yaw), units(f.pitch) - units(c.pitch))),
        request.previous_trusted is None ==> d.previous is None,
        request.future_trusted is None ==> d.future is None,
{
    lemma_pow2_pos(149);
    if let Some(p) = request.previous_trusted {
        if usual_angle(p.yaw) && usual_angle(p.pitch) && size(units(c.yaw) - units(p.yaw)) <= 3
            * pow2(149) {
            law_angular_distance_is_that_of_the_plane(
                hypot,
                p.yaw,
                p.pitch,
                c.yaw,
                c.pitch,
                d.previous->0,
            );
        }
    }
    if let Some(f) = request.future_trusted {
        if usual_angle(f.yaw) && usual_angle(f.pitch) && size(units(f.yaw) - units(c.yaw)) <= 3
            * pow2(149) {
            law_angular_distance_is_that_of_the_plane(
                hypot,
                c.yaw,
                c.pitch,
                f.yaw,
                f.pitch,
                d.future->0,
            );
        }
    }
}

} // verus!
