//! A ball is expected where its motion leads.

use crate::binary::integers::lemma_exact_integer;
use crate::binary::magnitude::lemma_pow2_le;
use crate::binary::nearness::{
    finite, lemma_minus_near, lemma_over_near, lemma_plus_near, lemma_rank_order, lemma_times_near,
    size, units,
};
use crate::binary::rounding::gap;
use crate::binary::single::Single;
use crate::binary::value::Value;
use crate::detection::{of_class, Detection};
use crate::distance_laws::{law_score_is_square_of_distance, square_apart, usual_place};
use crate::guard_laws::{centre, lemma_complement};
use crate::recovery::{
    advanced, law_observed_ball_fits_best, observation_keys, observation_score, velocity_between,
    CameraRecoveryState, MAX_VELOCITY, MIN_VELOCITY,
};
use crate::remapping::is_share;
use crate::selection::first_least;
use vstd::arithmetic::power2::{lemma2_to64, lemma_pow2_adds, lemma_pow2_pos, pow2};
use vstd::prelude::*;

verus! {

/// An integer brought between two others.
pub open spec fn kept_between(n: int, lo: int, hi: int) -> int {
    if n < lo {
        lo
    } else if n > hi {
        hi
    } else {
        n
    }
}

/// Bringing a number between two others, in units.
proof fn lemma_clamped(x: Single, lo: Single, hi: Single)
    requires
        finite(x) && finite(lo) && finite(hi),
        units(lo) <= units(hi),
    ensures
        finite(x.clamped(lo, hi)),
        units(x.clamped(lo, hi)) == kept_between(units(x), units(lo), units(hi)),
{
}

/// Zero and one.
proof fn lemma_zero_and_one()
    ensures
        finite(Single::natural(0)) && units(Single::natural(0)) == 0,
        finite(Single::natural(1)) && units(Single::natural(1)) == pow2(149),
        pow2(149) > 0,
{
    lemma_pow2_pos(149);
    lemma_exact_integer(0);
    lemma_exact_integer(1);
    assert(0 * pow2(149) == 0 && 1 * pow2(149) == pow2(149));
}

/// A share is a number from zero to one.
pub proof fn lemma_share(x: Single)
    requires
        is_share(x),
    ensures
        finite(x),
        0 <= units(x) <= pow2(149),
{
    lemma_pow2_pos(149);
    lemma_exact_integer(0);
    lemma_exact_integer(1);
    assert(0 * pow2(149) == 0 && 1 * pow2(149) == pow2(149));
}

/// The chain of inequalities behind a place that is moved on.
proof fn lemma_advance_chain(u: int, x: int, v: int, n: int, t: int, s: int)
    requires
        u >= 16777216,
        size(x) <= 1024 * u,
        size(v) <= u,
        1 <= n <= 1024,
        gap(t * u, v * (n * u)) * 16777216 <= size(v * (n * u)) + 8388608 * u,
        gap(s, x + t) * 16777216 <= size(x + t),
    ensures
        gap(s, x + v * n) * 2048 <= u,
        size(t) <= 1026 * u,
{
    let e = 16777216int;
    let vn = v * n;
    let tu = t * u;
    let vnu = v * (n * u);
    assert(vnu == vn * u) by (nonlinear_arith)
        requires
            vnu == v * (n * u),
            vn == v * n,
    ;
    assert(size(vn) <= 1024 * u) by (nonlinear_arith)
        requires
            vn == v * n,
            -u <= v <= u,
            1 <= n <= 1024,
            size(vn) == vn || size(vn) == -vn,
    ;
    let svn = size(vn);
    assert(size(vnu) == svn * u) by (nonlinear_arith)
        requires
            vnu == vn * u,
            u > 0,
            vn >= 0 ==> svn == vn,
            vn < 0 ==> svn == -vn,
            size(vnu) == vnu || size(vnu) == -vnu,
            size(vnu) >= 0,
    ;
    assert(gap(t, vn) * e <= svn + 8388608) by (nonlinear_arith)
        requires
            gap(tu, vnu) * e <= svn * u + 8388608 * u,
            tu == t * u,
            vnu == vn * u,
            u > 0,
            e > 0,
            t >= vn ==> gap(t, vn) == t - vn,
            t < vn ==> gap(t, vn) == vn - t,
            gap(tu, vnu) == tu - vnu || gap(tu, vnu) == vnu - tu,
            gap(tu, vnu) >= 0,
    ;
}

/// A coordinate is moved on by its velocity, once for each frame, and kept in the image.
#[verifier::rlimit(40)]
proof fn lemma_advanced(at: Single, velocity: Single, frames: nat)
    requires
        finite(at) && size(units(at)) <= 1024 * pow2(149),
        finite(velocity) && size(units(velocity)) <= pow2(149),
        1 <= frames <= 1024,
    ensures
        ({
            let p = advanced(at, velocity, frames);
            let there = units(at) + units(velocity) * frames;
            &&& finite(p)
            &&& gap(units(p), kept_between(there, 0, pow2(149) as int)) * 2048 <= pow2(149)
        }),
{
    let u = pow2(149) as int;
    lemma2_to64();
    lemma_pow2_le(24, 149);
    lemma_pow2_adds(24, 149);
    lemma_pow2_le(173, 276);
    lemma_zero_and_one();
    lemma_exact_integer(frames);
    let n = Single::natural(frames);
    let big = pow2(276) as int;
    let (v, f) = (units(velocity), frames as int);
    assert(size(units(n)) == f * u);
    let sv = size(v);
    assert(sv * (f * u) <= big * u) by (nonlinear_arith)
        requires
            0 <= sv <= u,
            1 <= f <= 1024,
            1024 * u <= big,
            u > 0,
    ;
    lemma_times_near(velocity, n);
    let t = velocity.times(n);
    let tu = units(t);
    assert(size(tu) <= 2048 * u) by {
        let p = tu * u;
        let q = v * (f * u);
        let uu = u * u;
        assert(size(q) <= 1024 * uu) by (nonlinear_arith)
            requires
                q == v * (f * u),
                -u <= v <= u,
                1 <= f <= 1024,
                uu == u * u,
                u > 0,
                size(q) == q || size(q) == -q,
        ;
        assert(8388608 * u <= uu) by (nonlinear_arith)
            requires
                uu == u * u,
                u >= 16777216,
        ;
        assert(size(p) <= 2048 * uu);
        assert(size(tu) <= 2048 * u) by (nonlinear_arith)
            requires
                size(p) <= 2048 * uu,
                p == tu * u,
                uu == u * u,
                u > 0,
                size(p) == p || size(p) == -p,
                size(p) >= 0,
                size(tu) == tu || size(tu) == -tu,
                size(tu) >= 0,
        ;
    }
    lemma_plus_near(at, t);
    let s = at.plus(t);
    lemma_advance_chain(u, units(at), v, f, tu, units(s));
    lemma_clamped(s, Single::natural(0), Single::natural(1));
}

/// The ball is expected where its last place, moved on by its velocity once for every
/// frame since and one more, lies, or at the edge of the image if that is outside it.
pub proof fn law_prediction_continues_the_motion(
    state: CameraRecoveryState,
    x: Single,
    y: Single,
)
    requires
        state.last_center == Some((x, y)),
        usual_place((x, y)),
        finite(state.velocity.0) && size(units(state.velocity.0)) <= pow2(149),
        finite(state.velocity.1) && size(units(state.velocity.1)) <= pow2(149),
        state.misses < 1024,
    ensures
        state.prediction() matches Some(p) && {
            let frames = state.misses + 1;
            let (w, h) = (units(state.velocity.0) * frames, units(state.velocity.1) * frames);
            let one = pow2(149) as int;
            &&& finite(p.0) && gap(units(p.0), kept_between(units(x) + w, 0, one)) * 2048 <= one
            &&& finite(p.1) && gap(units(p.1), kept_between(units(y) + h, 0, one)) * 2048 <= one
        },
{
    lemma_advanced(x, state.velocity.0, (state.misses + 1) as nat);
    lemma_advanced(y, state.velocity.1, (state.misses + 1) as nat);
}

/// The largest velocity: 0.08 of the image in a frame.
proof fn lemma_limits()
    ensures
        finite(Single { bits: MAX_VELOCITY }) && finite(Single { bits: MIN_VELOCITY }),
        units(Single { bits: MAX_VELOCITY }) * 134217728 == 10737418 * pow2(149),
        units(Single { bits: MIN_VELOCITY }) == -units(Single { bits: MAX_VELOCITY }),
{
    lemma2_to64();
    lemma_pow2_adds(27, 122);
    assert((Single { bits: MAX_VELOCITY }).value() == (Value::Finite {
        negative: false,
        units: 10737418 * pow2(122),
    }));
    assert((Single { bits: MIN_VELOCITY }).value() == (Value::Finite {
        negative: true,
        units: 10737418 * pow2(122),
    }));
}

/// A velocity is the way by the number of frames, up to 0.08 of the image in a frame.
pub open spec fn leads(v: Single, way: int, frames: int) -> bool {
    let one = pow2(149) as int;
    &&& finite(v)
    &&& size(way) * 1000 <= 79 * (frames * one) ==> gap(units(v) * frames, way) * 1048576 <= size(
        way,
    ) + 1048576 * frames
    &&& way * 1000 >= 81 * (frames * one) ==> gap(units(v) * 100, 8 * one) * 1048576 <= one
    &&& way * 1000 <= -(81 * (frames * one)) ==> gap(units(v) * 100, -(8 * one)) * 1048576 <= one
    &&& size(units(v)) * 10 <= one
}

/// The chain of inequalities behind a velocity.
proof fn lemma_velocity_chain(u: int, way: int, n: int, d: int, q: int)
    requires
        u >= 16777216,
        1 <= n <= 1024,
        gap(d, way) * 16777216 <= size(way),
        gap(q * (n * u), d * u) * 16777216 <= size(d) * u + 8388608 * (n * u),
    ensures
        gap(q * n, way) * 4194304 <= size(way) + 4194304 * n,
{
    let e = 16777216int;
    let qn = q * n;
    let qnu = q * (n * u);
    let du = d * u;
    let sd = size(d);
    assert(qnu == qn * u) by (nonlinear_arith)
        requires
            qnu == q * (n * u),
            qn == q * n,
    ;
    assert(gap(qn, d) * e <= sd + 8388608 * n) by (nonlinear_arith)
        requires
            gap(qnu, du) * e <= sd * u + 8388608 * (n * u),
            qnu == qn * u,
            du == d * u,
            u > 0,
            e > 0,
            qn >= d ==> gap(qn, d) == qn - d,
            qn < d ==> gap(qn, d) == d - qn,
            gap(qnu, du) == qnu - du || gap(qnu, du) == du - qnu,
            gap(qnu, du) >= 0,
    ;
}

#[verifier::rlimit(40)]
proof fn lemma_velocity(from: Single, to: Single, frames: nat)
    requires
        finite(from) && size(units(from)) <= 1024 * pow2(149),
        finite(to) && size(units(to)) <= 1024 * pow2(149),
        1 <= frames <= 1024,
    ensures
        leads(velocity_between(from, to, frames), units(to) - units(from), frames as int),
{
    let u = pow2(149) as int;
    lemma2_to64();
    lemma_pow2_le(24, 149);
    lemma_pow2_adds(24, 149);
    lemma_pow2_le(173, 276);
    lemma_zero_and_one();
    lemma_exact_integer(frames);
    lemma_limits();
    let n = Single::natural(frames);
    let f = frames as int;
    let big = pow2(276) as int;
    lemma_minus_near(to, from);
    let d = to.minus(from);
    let w = units(to) - units(from);
    let sd = size(units(d));
    let fu = f * u;
    assert(units(n) == fu);
    assert(fu >= u) by (nonlinear_arith)
        requires
            fu == f * u,
            f >= 1,
            u > 0,
    ;
    assert(sd * u <= big * fu) by (nonlinear_arith)
        requires
            0 <= sd <= 4096 * u,
            4096 * u <= big,
            fu >= u,
            u > 0,
    ;
    lemma_over_near(d, n);
    let q = d.over(n);
    let qu = units(q);
    lemma_velocity_chain(u, w, f, units(d), qu);
    let lo = Single { bits: MIN_VELOCITY };
    let hi = Single { bits: MAX_VELOCITY };
    lemma_clamped(q, lo, hi);
    let m = units(hi);
    let mf = m * f;
    let qf = qu * f;
    assert(mf * 134217728 == 10737418 * fu) by (nonlinear_arith)
        requires
            m * 134217728 == 10737418 * u,
            mf == m * f,
            fu == f * u,
    ;
    assert(4194304 * f * 16777216 <= fu * 16777216) by (nonlinear_arith)
        requires
            fu == f * u,
            u >= 16777216,
            f >= 1,
    ;
    assert(f * 16777216 <= fu) by (nonlinear_arith)
        requires
            fu == f * u,
            u >= 16777216,
            f >= 1,
    ;
    if size(w) * 1000 <= 79 * fu {
        assert(-mf < qf < mf);
        assert(-m < qu < m) by (nonlinear_arith)
            requires
                -mf < qf < mf,
                qf == qu * f,
                mf == m * f,
                f >= 1,
        ;
    }
    if w * 1000 >= 81 * fu {
        assert(qf > mf);
        assert(qu > m) by (nonlinear_arith)
            requires
                qf > mf,
                qf == qu * f,
                mf == m * f,
                f >= 1,
        ;
    }
    if w * 1000 <= -(81 * fu) {
        assert(qf < -mf);
        assert(qu < -m) by (nonlinear_arith)
            requires
                qf < -mf,
                qf == qu * f,
                mf == m * f,
                f >= 1,
        ;
    }
}

/// A ball that is seen gives the new place and the way to it, by the frames since the
/// last one, the new velocity.
pub proof fn law_seen_ball_gives_place_and_velocity(
    state: CameraRecoveryState,
    ball: Detection,
    x: Single,
    y: Single,
)
    requires
        state.last_center == Some((x, y)),
        usual_place((x, y)),
        usual_place(centre(ball)),
        state.misses < 1024,
    ensures
        ({
            let now = state.observed(seq![ball], ball.class_id);
            let frames = state.misses + 1;
            &&& now.last_center == Some(centre(ball))
            &&& now.misses == 0
            &&& leads(now.velocity.0, units(ball.center_x) - units(x), frames)
            &&& leads(now.velocity.1, units(ball.center_y) - units(y), frames)
        }),
{
    lemma_alone(ball);
    lemma_velocity(x, ball.center_x, (state.misses + 1) as nat);
    lemma_velocity(y, ball.center_y, (state.misses + 1) as nat);
}

/// One detection is all there is of its class.
proof fn lemma_alone(ball: Detection)
    ensures
        of_class(seq![ball], ball.class_id) =~= seq![ball],
{
    let same = |d: Detection| d.class_id == ball.class_id;
    reveal(Seq::filter);
    assert(seq![ball].drop_last() =~= Seq::<Detection>::empty());
    assert(Seq::<Detection>::empty().filter(same) =~= Seq::<Detection>::empty());
    assert(seq![ball].filter(same) =~= seq![ball]);
}

/// A ball that moves evenly is expected one step further on: seen at one place and in the
/// next frame at another, not more than 0.079 of the image away across and down, it is
/// expected as far beyond the second place as that lies beyond the first, or at the edge
/// of the image.
pub proof fn law_evenly_moving_ball_is_expected_one_step_on(
    first: Detection,
    second: Detection,
)
    requires
        is_share(first.center_x) && is_share(first.center_y),
        is_share(second.center_x) && is_share(second.center_y),
        first.class_id == second.class_id,
        size(units(second.center_x) - units(first.center_x)) * 1000 <= 79 * pow2(149),
        size(units(second.center_y) - units(first.center_y)) * 1000 <= 79 * pow2(149),
    ensures
        ({
            let one = pow2(149) as int;
            let class_id = first.class_id;
            let seen = CameraRecoveryState::fresh().observed(seq![first], class_id).observed(
                seq![second],
                class_id,
            );
            let (x, y) = (
                2 * units(second.center_x) - units(first.center_x),
                2 * units(second.center_y) - units(first.center_y),
            );
            seen.prediction() matches Some(p) && {
                &&& finite(p.0) && gap(units(p.0), kept_between(x, 0, one)) * 1024 <= one
                &&& finite(p.1) && gap(units(p.1), kept_between(y, 0, one)) * 1024 <= one
            }
        }),
{
    let one = pow2(149) as int;
    lemma2_to64();
    lemma_pow2_le(24, 149);
    lemma_zero_and_one();
    lemma_share(first.center_x);
    lemma_share(first.center_y);
    lemma_share(second.center_x);
    lemma_share(second.center_y);
    lemma_alone(first);
    let class_id = first.class_id;
    let a = CameraRecoveryState::fresh().observed(seq![first], class_id);
    assert(a.last_center == Some(centre(first)));
    law_seen_ball_gives_place_and_velocity(a, second, first.center_x, first.center_y);
    let b = a.observed(seq![second], class_id);
    law_prediction_continues_the_motion(b, second.center_x, second.center_y);
    assert(1 * one == one);
    let (v, w) = (units(b.velocity.0), units(b.velocity.1));
    assert(v * 1 == v && w * 1 == w);
}

/// Of several balls the one nearest to the expected place counts as seen: none of the
/// others is nearer, but for rounding.
pub proof fn law_seen_ball_is_nearest(
    state: CameraRecoveryState,
    detections: Seq<Detection>,
    class_id: u16,
    i: int,
)
    requires
        0 <= i < of_class(detections, class_id).len(),
        state.prediction() is Some,
        usual_place(state.prediction()->0),
        forall|k: int|
            0 <= k < of_class(detections, class_id).len() ==> usual_place(
                centre(#[trigger] of_class(detections, class_id)[k]),
            ),
    ensures
        state.observed(detections, class_id).last_center matches Some(c) && {
            let mine = square_apart(c, state.prediction()->0);
            let theirs = square_apart(
                centre(of_class(detections, class_id)[i]),
                state.prediction()->0,
            );
            (mine - theirs) * 16777216 <= 7 * (mine + theirs) + 100663296 * pow2(149)
        },
{
    let balls = of_class(detections, class_id);
    let p = state.prediction()->0;
    law_observed_ball_fits_best(state, detections, class_id, i);
    let k = first_least(observation_keys(balls, Some(p)));
    assert(usual_place(centre(balls[k])) && usual_place(centre(balls[i])));
    law_score_is_square_of_distance(balls[k], p);
    law_score_is_square_of_distance(balls[i], p);
    let a = observation_score(balls[k], Some(p));
    let b = observation_score(balls[i], Some(p));
    lemma_rank_order(a, b);
    let u = pow2(149) as int;
    lemma_pow2_pos(149);
    let (x, y) = (units(a), units(b));
    assert(x * u <= y * u) by (nonlinear_arith)
        requires
            x <= y,
            u > 0,
    ;
}

/// Where no place is expected, the most confident ball counts as seen, but for rounding.
pub proof fn law_seen_ball_is_most_confident(
    state: CameraRecoveryState,
    detections: Seq<Detection>,
    class_id: u16,
    i: int,
)
    requires
        0 <= i < of_class(detections, class_id).len(),
        state.last_center is None,
        forall|k: int|
            0 <= k < of_class(detections, class_id).len() ==> is_share(
                (#[trigger] of_class(detections, class_id)[k]).confidence,
            ),
    ensures
        ({
            let balls = of_class(detections, class_id);
            exists|k: int|
                0 <= k < balls.len() && state.observed(detections, class_id).last_center == Some(
                    centre(#[trigger] balls[k]),
                ) && (units(balls[i].confidence) - units(balls[k].confidence)) * 8388608 <= pow2(
                    149,
                )
        }),
{
    let balls = of_class(detections, class_id);
    law_observed_ball_fits_best(state, detections, class_id, i);
    let k = first_least(observation_keys(balls, None));
    let x = balls[k].confidence;
    let y = balls[i].confidence;
    assert(is_share(balls[k].confidence) && is_share(balls[i].confidence));
    lemma_zero_and_one();
    lemma2_to64();
    lemma_pow2_adds(1, 149);
    lemma_pow2_le(150, 276);
    lemma_share(x);
    lemma_share(y);
    if units(x) < units(y) {
        lemma_complement(x, y);
        let a = Single::natural(1).minus(x);
        let b = Single::natural(1).minus(y);
        if a.bits <= b.bits {
            lemma_rank_order(a, b);
        }
        lemma_minus_near(Single::natural(1), x);
        lemma_minus_near(Single::natural(1), y);
    }
    assert(state.observed(detections, class_id).last_center == Some(centre(balls[k])));
}

/// A ball that was seen once is expected where it was seen, however long ago that is.
pub proof fn law_ball_seen_once_is_expected_there(ball: Detection, misses: u32)
    requires
        is_share(ball.center_x) && is_share(ball.center_y),
        misses < 1024,
    ensures
        ({
            let seen = CameraRecoveryState::fresh().observed(seq![ball], ball.class_id);
            let later = CameraRecoveryState { misses, ..seen };
            &&& CameraRecoveryState::fresh().prediction() is None
            &&& seen.misses == 0
            &&& later.prediction() matches Some(p) && {
                &&& finite(p.0) && gap(units(p.0), units(ball.center_x)) * 2048 <= pow2(149)
                &&& finite(p.1) && gap(units(p.1), units(ball.center_y)) * 2048 <= pow2(149)
            }
        }),
{
    lemma_zero_and_one();
    lemma_alone(ball);
    lemma_share(ball.center_x);
    lemma_share(ball.center_y);
    let seen = CameraRecoveryState::fresh().observed(seq![ball], ball.class_id);
    let later = CameraRecoveryState { misses, ..seen };
    law_prediction_continues_the_motion(later, ball.center_x, ball.center_y);
    let n = misses + 1;
    assert(0 * n == 0);
}

/// Every frame without the ball counts as one more, and leaves the last place and the
/// velocity as they were.
pub proof fn law_missed_frame_counts_once(state: CameraRecoveryState)
    requires
        state.misses < u32::MAX,
    ensures
        state.missed().misses == state.misses + 1,
        state.missed().last_center == state.last_center,
        state.missed().velocity == state.velocity,
{
}

} // verus!
