//! What the guard for ball candidates comes to, in terms of places and confidences.

use crate::binary::integers::lemma_exact_integer;
use crate::binary::magnitude::lemma_pow2_le;
use crate::binary::nearness::{finite, lemma_plus_near, lemma_rank_order, lemma_values, units};
use crate::binary::rounding::{
    gap, lemma_round_units_exact, lemma_round_units_monotone, round_units,
};
use crate::binary::single::Single;
use crate::binary::value::{Format, Value};
use crate::camera::CameraId;
use crate::detection::Detection;
use crate::distance_laws::{law_distance_is_that_of_the_plane, square, square_apart, usual_place};
use crate::recovery_filter::{
    best_candidate, distance_between, followed, law_chosen_candidate_fits_best, BallDecision,
    GuardModel, ProvisionalState, CROSS_CAMERA_CONFIDENCE_MARGIN, PROVISIONAL_LINK_DISTANCE,
    PROVISIONAL_MAX_PREDICTION_DISTANCE, PROVISIONAL_MIN_MOTION,
};
use crate::remapping::is_share;
use vstd::arithmetic::power2::{
    lemma2_to64, lemma2_to64_rest, lemma_pow2_adds, lemma_pow2_pos, lemma_pow2_unfold, pow2,
};
use vstd::prelude::*;

verus! {

/// The centre of a detection.
pub open spec fn centre(d: Detection) -> (Single, Single) {
    (d.center_x, d.center_y)
}

/// Of several candidates the one nearest to the predicted place is chosen: none of the
/// others is nearer, but for rounding.
pub proof fn law_chosen_candidate_is_nearest(
    candidates: Seq<Detection>,
    predicted: (Single, Single),
    i: int,
)
    requires
        0 <= i < candidates.len(),
        usual_place(predicted),
        forall|k: int| 0 <= k < candidates.len() ==> usual_place(centre(#[trigger] candidates[k])),
    ensures
        best_candidate(candidates, Some(predicted)) matches Some(c) && candidates.contains(c) && {
            let mine = square_apart(centre(c), predicted);
            let theirs = square_apart(centre(candidates[i]), predicted);
            (mine - theirs) * 524288 <= mine + theirs + 4194304 * pow2(149)
        },
{
    law_chosen_candidate_fits_best(candidates, Some(predicted), i);
    let c = best_candidate(candidates, Some(predicted))->0;
    let k = choose|k: int| 0 <= k < candidates.len() && candidates[k] == c;
    assert(usual_place(centre(candidates[k])));
    law_distance_is_that_of_the_plane(centre(c), predicted);
    law_distance_is_that_of_the_plane(centre(candidates[i]), predicted);
    let a = distance_between(centre(c), predicted);
    let b = distance_between(centre(candidates[i]), predicted);
    assert(a.bits <= b.bits);
    lemma_rank_order(a, b);
    let (x, y) = (units(a), units(b));
    assert(square(x) <= square(y)) by (nonlinear_arith)
        requires
            0 <= x <= y,
            square(x) == x * x,
            square(y) == y * y,
    ;
}

/// What a share leaves of one, as bits that are not negative.
pub proof fn lemma_complement(x: Single, y: Single)
    requires
        is_share(x),
        is_share(y),
        units(x) <= units(y),
    ensures
        ({
            let a = Single::natural(1).minus(x);
            let b = Single::natural(1).minus(y);
            &&& a.bits < 0x7f80_0000
            &&& b.bits < 0x7f80_0000
            &&& units(b) <= units(a)
            &&& units(a) == units(b) ==> a == b
        }),
{
    let f = Format::Binary32;
    let u = pow2(149);
    let one = Single::natural(1);
    lemma2_to64();
    lemma_pow2_pos(149);
    lemma_pow2_le(149, 276);
    lemma_pow2_unfold(277);
    lemma_exact_integer(0);
    lemma_exact_integer(1);
    assert(0 * u == 0 && 1 * u == u && 1 * u * 1 == u);
    lemma_values(one, x);
    lemma_values(one, y);
    let s = x.value()->Finite_units;
    let t = y.value()->Finite_units;
    assert(x.value() is Finite && y.value() is Finite && s <= t <= u);
    lemma_round_units_exact(1, 149, 1, 24);
    lemma_round_units_exact(0, 0, 1, 24);
    assert(0 * pow2(0) * 1 == 0) by (nonlinear_arith);
    lemma_round_units_monotone((u - t) as nat, (u - s) as nat, 1, 24);
    lemma_round_units_monotone((u - s) as nat, u, 1, 24);
    let a = one.minus(x);
    let b = one.minus(y);
    assert(a.value() == (Value::Finite {
        negative: false,
        units: round_units((u - s) as nat, 1, 24),
    }));
    assert(b.value() == (Value::Finite {
        negative: false,
        units: round_units((u - t) as nat, 1, 24),
    }));
    if units(a) == units(b) {
        Single::lemma_injective(a, b);
    }
}

/// Where no place is predicted, the most confident candidate is chosen.
pub proof fn law_chosen_candidate_is_most_confident(candidates: Seq<Detection>, i: int)
    requires
        0 <= i < candidates.len(),
        forall|k: int| 0 <= k < candidates.len() ==> is_share((#[trigger] candidates[k]).confidence),
    ensures
        best_candidate(candidates, None) matches Some(c) && candidates.contains(c) && units(
            candidates[i].confidence,
        ) <= units(c.confidence),
{
    law_chosen_candidate_fits_best(candidates, None, i);
    let c = best_candidate(candidates, None)->0;
    let k = choose|k: int| 0 <= k < candidates.len() && candidates[k] == c;
    let x = c.confidence;
    let y = candidates[i].confidence;
    assert(is_share(candidates[k].confidence) && is_share(y));
    lemma_exact_integer(0);
    lemma_exact_integer(1);
    lemma_pow2_pos(149);
    assert(0 * pow2(149) == 0);
    if units(x) < units(y) {
        lemma_complement(x, y);
        let a = Single::natural(1).minus(x);
        let b = Single::natural(1).minus(y);
        if a.bits < b.bits {
            lemma_rank_order(a, b);
            assert(a == b);
        }
        assert(y.bits < 0x7f80_0000);
        if x.bits < 0x8000_0000 {
            lemma_rank_order(y, x);
        }
    }
}

/// The limits of the guard, as numbers: 0.12, 0.06 and 0.0015 of the image, and a margin
/// of 0.10, each within one part in `2^24`.
proof fn lemma_limits()
    ensures
        finite(Single { bits: PROVISIONAL_MAX_PREDICTION_DISTANCE }),
        units(Single { bits: PROVISIONAL_MAX_PREDICTION_DISTANCE }) * 134217728 == 16106127 * pow2(
            149,
        ),
        finite(Single { bits: PROVISIONAL_LINK_DISTANCE }),
        units(Single { bits: PROVISIONAL_LINK_DISTANCE }) * 268435456 == 16106127 * pow2(149),
        finite(Single { bits: PROVISIONAL_MIN_MOTION }),
        units(Single { bits: PROVISIONAL_MIN_MOTION }) * 8589934592 == 12884902 * pow2(149),
        finite(Single { bits: CROSS_CAMERA_CONFIDENCE_MARGIN }),
        units(Single { bits: CROSS_CAMERA_CONFIDENCE_MARGIN }) * 134217728 == 13421773 * pow2(149),
{
    lemma2_to64();
    lemma2_to64_rest();
    lemma_pow2_adds(27, 122);
    lemma_pow2_adds(28, 121);
    lemma_pow2_adds(33, 116);
    assert((Single { bits: PROVISIONAL_MAX_PREDICTION_DISTANCE }).value() == (Value::Finite {
        negative: false,
        units: 16106127 * pow2(122),
    }));
    assert((Single { bits: PROVISIONAL_LINK_DISTANCE }).value() == (Value::Finite {
        negative: false,
        units: 16106127 * pow2(121),
    }));
    assert((Single { bits: CROSS_CAMERA_CONFIDENCE_MARGIN }).value() == (Value::Finite {
        negative: false,
        units: 13421773 * pow2(122),
    }));
    assert((Single { bits: PROVISIONAL_MIN_MOTION }).value() == (Value::Finite {
        negative: false,
        units: 12884902 * pow2(116),
    }));
}

/// How a distance stands to a limit, in terms of its square.
#[verifier::rlimit(40)]
proof fn lemma_against_limit(
    a: (Single, Single),
    b: (Single, Single),
    limit: Single,
    m: int,
    k: int,
)
    requires
        usual_place(a),
        usual_place(b),
        finite(limit),
        k > 0,
        m > 0,
        units(limit) * k == m * pow2(149),
        k <= 8589934592,
        m * m * 1000000 > k * k,
    ensures
        square_apart(a, b) * (k * k) * 1000 <= m * m * 999 * square(pow2(149) as int)
            ==> distance_between(a, b).at_most(limit) && !limit.below(distance_between(a, b)),
        square_apart(a, b) * (k * k) * 1000 >= m * m * 1001 * square(pow2(149) as int)
            ==> !distance_between(a, b).at_most(limit) && limit.below(distance_between(a, b)),
{
    let u = pow2(149) as int;
    lemma2_to64();
    lemma2_to64_rest();
    lemma_pow2_pos(149);
    law_distance_is_that_of_the_plane(a, b);
    let r = units(distance_between(a, b));
    let l = units(limit);
    let t = square_apart(a, b);
    let kk = k * k;
    let mm = m * m;
    let uu = u * u;
    let rr = r * r;
    let ll = l * l;
    assert(ll * kk == mm * uu) by (nonlinear_arith)
        requires
            ll == l * l,
            kk == k * k,
            mm == m * m,
            uu == u * u,
            l * k == m * u,
    ;
    assert(kk >= 1 && mm >= 1 && kk <= 73786976294838206464) by (nonlinear_arith)
        requires
            kk == k * k,
            mm == m * m,
            1 <= k <= 8589934592,
            m >= 1,
    ;
    // What cannot be held is small against the limit.
    lemma_pow2_le(100, 149);
    lemma_pow2_adds(66, 34);
    lemma_pow2_adds(33, 33);
    let tiny = 2097152 * u;
    assert(t >= 0) by {
        let d = units(a.0) - units(b.0);
        let g = units(a.1) - units(b.1);
        assert(d * d >= 0 && g * g >= 0) by (nonlinear_arith);
    }
    assert(u >= 73786976294838206464 * 17179869184);
    assert(tiny * kk * 1000 <= mm * uu) by (nonlinear_arith)
        requires
            tiny == 2097152 * u,
            1 <= kk <= 73786976294838206464,
            mm * 1000000 > kk,
            uu == u * u,
            u >= 73786976294838206464 * 17179869184,
            mm >= 1,
    ;
    let tk = t * kk;
    let mu = mm * uu;
    let rk = rr * kk;
    assert(gap(rr, t) * 524288 <= t + tiny);
    assert(gap(rk, tk) * 524288 <= tk + tiny * kk) by (nonlinear_arith)
        requires
            gap(rr, t) * 524288 <= t + tiny,
            rk == rr * kk,
            tk == t * kk,
            kk >= 1,
            rr >= t ==> gap(rr, t) == rr - t,
            rr < t ==> gap(rr, t) == t - rr,
            gap(rk, tk) == rk - tk || gap(rk, tk) == tk - rk,
            gap(rk, tk) >= 0,
    ;
    assert(t * kk * 1000 == tk * 1000);
    assert(mm * 999 * uu == mu * 999) by (nonlinear_arith)
        requires
            mu == mm * uu,
    ;
    assert(mm * 1001 * uu == mu * 1001) by (nonlinear_arith)
        requires
            mu == mm * uu,
    ;
    assert(tk >= 0) by (nonlinear_arith)
        requires
            tk == t * kk,
            t >= 0,
            kk >= 1,
    ;
    let lk = ll * kk;
    assert(mu > 0) by (nonlinear_arith)
        requires
            mu == mm * uu,
            mm >= 1,
            uu == u * u,
            u > 0,
    ;
    if tk * 1000 <= mu * 999 {
        assert(rk < lk);
        assert(rr < ll) by (nonlinear_arith)
            requires
                rk < lk,
                rk == rr * kk,
                lk == ll * kk,
                kk >= 1,
        ;
        assert(r < l) by (nonlinear_arith)
            requires
                r * r < l * l,
                r >= 0,
                l >= 0 || l < 0,
                l * k == m * u,
                m > 0,
                u > 0,
                k > 0,
        ;
    }
    if tk * 1000 >= mu * 1001 {
        assert(rk > lk);
        assert(rr > ll) by (nonlinear_arith)
            requires
                rk > lk,
                rk == rr * kk,
                lk == ll * kk,
                kk >= 1,
        ;
        assert(r > l) by (nonlinear_arith)
            requires
                r * r > l * l,
                r >= 0,
                l * k == m * u,
                m > 0,
                u > 0,
                k > 0,
        ;
    }
}

/// Two places lie apart by no more than that many millionths of the image: the square of
/// their distance is not above the square of that.
pub open spec fn nearer_than(a: (Single, Single), b: (Single, Single), millionths: int) -> bool {
    square_apart(a, b) * 1000000000000 <= square(millionths) * square(pow2(149) as int)
}

/// Two places lie apart by no less than that many millionths of the image.
pub open spec fn farther_than(a: (Single, Single), b: (Single, Single), millionths: int) -> bool {
    square_apart(a, b) * 1000000000000 >= square(millionths) * square(pow2(149) as int)
}

/// The three limits, against distances in millionths of the image.
#[verifier::rlimit(40)]
proof fn lemma_limits_met(a: (Single, Single), b: (Single, Single))
    requires
        usual_place(a),
        usual_place(b),
    ensures
        ({
            let d = distance_between(a, b);
            let far = Single { bits: PROVISIONAL_MAX_PREDICTION_DISTANCE };
            let link = Single { bits: PROVISIONAL_LINK_DISTANCE };
            let still = Single { bits: PROVISIONAL_MIN_MOTION };
            &&& nearer_than(a, b, 119900) ==> !far.below(d)
            &&& farther_than(a, b, 120100) ==> far.below(d)
            &&& nearer_than(a, b, 59950) ==> d.at_most(link)
            &&& farther_than(a, b, 60050) ==> !d.at_most(link)
            &&& nearer_than(a, b, 1499) ==> d.at_most(still)
            &&& farther_than(a, b, 1501) ==> !d.at_most(still)
        }),
{
    let u = pow2(149) as int;
    let uu = square(u);
    let t = square_apart(a, b);
    lemma_pow2_pos(149);
    assert(uu > 0) by (nonlinear_arith)
        requires
            uu == u * u,
            u > 0,
    ;
    lemma_limits();
    lemma_against_limit(
        a,
        b,
        Single { bits: PROVISIONAL_MAX_PREDICTION_DISTANCE },
        16106127,
        134217728,
    );
    lemma_against_limit(a, b, Single { bits: PROVISIONAL_LINK_DISTANCE }, 16106127, 268435456);
    lemma_against_limit(a, b, Single { bits: PROVISIONAL_MIN_MOTION }, 12884902, 8589934592);
    assert(square(119900) == 14376010000 && square(120100) == 14424010000 && square(59950)
        == 3594002500 && square(60050) == 3606002500 && square(1499) == 2247001 && square(1501)
        == 2253001);
    assert(nearer_than(a, b, 119900) ==> t * (134217728 * 134217728) * 1000 <= 16106127 * 16106127 * 999 * uu)
        by (nonlinear_arith)
        requires
            nearer_than(a, b, 119900) ==> t * 1000000000000 <= 14376010000 * uu,
            uu > 0,
    ;
    assert(farther_than(a, b, 120100) ==> t * (134217728 * 134217728) * 1000 >= 16106127 * 16106127 * 1001 * uu)
        by (nonlinear_arith)
        requires
            farther_than(a, b, 120100) ==> t * 1000000000000 >= 14424010000 * uu,
            uu > 0,
    ;
    assert(nearer_than(a, b, 59950) ==> t * (268435456 * 268435456) * 1000 <= 16106127 * 16106127 * 999 * uu)
        by (nonlinear_arith)
        requires
            nearer_than(a, b, 59950) ==> t * 1000000000000 <= 3594002500 * uu,
            uu > 0,
    ;
    assert(farther_than(a, b, 60050) ==> t * (268435456 * 268435456) * 1000 >= 16106127 * 16106127 * 1001 * uu)
        by (nonlinear_arith)
        requires
            farther_than(a, b, 60050) ==> t * 1000000000000 >= 3606002500 * uu,
            uu > 0,
    ;
    assert(nearer_than(a, b, 1499) ==> t * (8589934592 * 8589934592) * 1000 <= 12884902 * 12884902 * 999 * uu)
        by (nonlinear_arith)
        requires
            nearer_than(a, b, 1499) ==> t * 1000000000000 <= 2247001 * uu,
            uu > 0,
    ;
    assert(farther_than(a, b, 1501) ==> t * (8589934592 * 8589934592) * 1000 >= 12884902 * 12884902 * 1001 * uu)
        by (nonlinear_arith)
        requires
            farther_than(a, b, 1501) ==> t * 1000000000000 >= 2253001 * uu,
            uu > 0,
    ;
}

/// A candidate outside the field that is more than 0.12 of the image away from the
/// predicted place, in whatever direction, breaks the trajectory; a nearer one does not.
pub proof fn law_far_candidate_breaks_the_trajectory(
    guard: GuardModel,
    camera: CameraId,
    ball: Detection,
    predicted: (Single, Single),
)
    requires
        usual_place(centre(ball)),
        usual_place(predicted),
    ensures
        ({
            let (after, accepted, decision) = guard.judged(
                camera,
                None,
                Some(ball),
                Some(predicted),
            );
            &&& farther_than(centre(ball), predicted, 120100) ==> decision
                == BallDecision::RejectedTrajectoryGap && accepted is None
            &&& nearer_than(centre(ball), predicted, 119900) ==> decision
                != BallDecision::RejectedTrajectoryGap
        }),
{
    lemma_limits_met(centre(ball), predicted);
}

/// A candidate is taken for the one seen before if it lies within 0.06 of it, and counts
/// as standing still if it has moved by no more than 0.0015 in the plane.
pub proof fn law_candidate_is_followed_by_its_way(
    state: ProvisionalState,
    last: (Single, Single),
    at: (Single, Single),
)
    requires
        state.last == Some(last),
        usual_place(last),
        usual_place(at),
        state.confirmations < 255,
        state.stationary < 255,
    ensures
        followed(state, at).last == Some(at),
        nearer_than(last, at, 59950) ==> followed(state, at).confirmations == state.confirmations
            + 1,
        farther_than(last, at, 60050) ==> followed(state, at).confirmations == 1 && followed(
            state,
            at,
        ).stationary == 0,
        nearer_than(last, at, 1499) ==> followed(state, at).stationary == state.stationary + 1,
        farther_than(last, at, 1501) ==> followed(state, at).stationary == 0,
{
    lemma_limits_met(last, at);
    assert(square(1499) <= square(59950));
    let uu = square(pow2(149) as int);
    assert(square(1499) * uu <= square(59950) * uu) by (nonlinear_arith)
        requires
            square(1499) <= square(59950),
            uu >= 0,
    ;
    lemma_pow2_pos(149);
}

/// The other camera has no ball on the field that was seen in this call or in one of the
/// two before it.
pub open spec fn no_rival(guard: GuardModel, camera: CameraId) -> bool {
    let other = guard.evidence[camera.other().index()];
    !other.strong || guard.call_index > other.call_index + 2
}

/// A candidate outside the field that moves along the trajectory is held back at first
/// sight and accepted at the second.
pub proof fn law_moving_candidate_is_accepted_at_second_sight(
    guard: GuardModel,
    camera: CameraId,
    first: Detection,
    first_predicted: (Single, Single),
    second: Detection,
    second_predicted: (Single, Single),
)
    requires
        guard.well_formed(),
        guard.provisional[camera.index()].last is None,
        no_rival(guard, camera),
        usual_place(centre(first)),
        usual_place(first_predicted),
        usual_place(centre(second)),
        usual_place(second_predicted),
        nearer_than(centre(first), first_predicted, 119900),
        nearer_than(centre(second), second_predicted, 119900),
        nearer_than(centre(first), centre(second), 59950),
        farther_than(centre(first), centre(second), 1501),
    ensures
        ({
            let one = guard.judged(camera, None, Some(first), Some(first_predicted));
            let two = one.0.judged(camera, None, Some(second), Some(second_predicted));
            &&& one.1 is None && one.2 == BallDecision::RejectedNoTrajectory
            &&& two.1 == Some(second) && two.2 == BallDecision::PromotedOutside
            &&& two.0.evidence[camera.index()].confidence == second.confidence
            &&& !two.0.evidence[camera.index()].strong
        }),
{
    lemma_limits_met(centre(first), first_predicted);
    lemma_limits_met(centre(second), second_predicted);
    lemma_limits_met(centre(first), centre(second));
}

/// A candidate outside the field that stands still is rejected for that at the third
/// sight, and forgotten.
pub proof fn law_standing_candidate_is_rejected_at_third_sight(
    guard: GuardModel,
    camera: CameraId,
    first: Detection,
    second: Detection,
    third: Detection,
    predicted: (Single, Single),
)
    requires
        guard.well_formed(),
        guard.provisional[camera.index()].last is None,
        no_rival(guard, camera),
        usual_place(centre(first)),
        usual_place(centre(second)),
        usual_place(centre(third)),
        usual_place(predicted),
        nearer_than(centre(first), predicted, 119900),
        nearer_than(centre(second), predicted, 119900),
        nearer_than(centre(third), predicted, 119900),
        nearer_than(centre(first), centre(second), 1499),
        nearer_than(centre(second), centre(third), 1499),
    ensures
        ({
            let one = guard.judged(camera, None, Some(first), Some(predicted));
            let two = one.0.judged(camera, None, Some(second), Some(predicted));
            let three = two.0.judged(camera, None, Some(third), Some(predicted));
            &&& three.1 is None && three.2 == BallDecision::RejectedStationary
            &&& three.0.provisional[camera.index()].last is None
        }),
{
    lemma_limits_met(centre(first), predicted);
    lemma_limits_met(centre(second), predicted);
    lemma_limits_met(centre(third), predicted);
    lemma_limits_met(centre(first), centre(second));
    lemma_limits_met(centre(second), centre(third));
    let uu = square(pow2(149) as int);
    assert(square(1499) * uu <= square(59950) * uu) by (nonlinear_arith)
        requires
            square(1499) <= square(59950),
            uu >= 0,
    ;
    let u = pow2(149) as int;
    assert(uu >= 0) by (nonlinear_arith)
        requires
            uu == u * u,
    ;
}

/// A candidate outside the field yields to a ball on the field that the other camera saw
/// in this call or one of the two before it, if that ball is more confident by more than
/// 0.10; it does not yield to one that is not.
pub proof fn law_candidate_yields_to_the_other_camera(
    guard: GuardModel,
    camera: CameraId,
    ball: Detection,
    predicted: (Single, Single),
)
    requires
        guard.well_formed(),
        usual_place(centre(ball)),
        usual_place(predicted),
        nearer_than(centre(ball), predicted, 119900),
        is_share(ball.confidence),
        is_share(guard.evidence[camera.other().index()].confidence),
    ensures
        ({
            let other = guard.evidence[camera.other().index()];
            let (after, accepted, decision) = guard.judged(
                camera,
                None,
                Some(ball),
                Some(predicted),
            );
            let recent = other.strong && guard.call_index <= other.call_index + 2;
            let lead = units(other.confidence) - units(ball.confidence);
            &&& recent && lead * 100000 >= 10001 * pow2(149) ==> {
                &&& decision == BallDecision::RejectedCrossCamera
                &&& accepted is None
                &&& after == guard
            }
            &&& !recent || lead * 100000 <= 9999 * pow2(149) ==> decision
                != BallDecision::RejectedCrossCamera
        }),
{
    lemma_limits_met(centre(ball), predicted);
    lemma_limits();
    lemma2_to64();
    lemma_pow2_pos(149);
    lemma_pow2_adds(1, 149);
    lemma_pow2_le(150, 276);
    lemma_exact_integer(0);
    lemma_exact_integer(1);
    assert(0 * pow2(149) == 0 && 1 * pow2(149) == pow2(149));
    let margin = Single { bits: CROSS_CAMERA_CONFIDENCE_MARGIN };
    lemma_plus_near(ball.confidence, margin);
}

/// A trajectory that is broken, or that there is none of, starts anew: what was seen
/// outside the field before is forgotten. So is it where a ball is on the field.
pub proof fn law_broken_trajectory_starts_anew(
    guard: GuardModel,
    camera: CameraId,
    inside: Option<Detection>,
    ball: Detection,
    predicted: Option<(Single, Single)>,
)
    requires
        guard.well_formed(),
        inside is Some || predicted is None || (predicted matches Some(p) && usual_place(p)
            && usual_place(centre(ball)) && farther_than(centre(ball), p, 120100)),
    ensures
        ({
            let after = guard.judged(camera, inside, Some(ball), predicted).0;
            let state = after.provisional[camera.index()];
            state.last is None && state.confirmations == 0 && state.stationary == 0
        }),
{
    if inside is None {
        if let Some(p) = predicted {
            lemma_limits_met(centre(ball), p);
        }
    }
}

/// A ball on the field of one camera holds a candidate outside the field of the other
/// back, in the same call or one of the next two, if it is the more confident by more
/// than 0.10: whatever the candidate's trajectory.
pub proof fn law_ball_on_one_field_holds_the_other_camera_back(
    guard: GuardModel,
    camera: CameraId,
    ball: Detection,
    ball_predicted: Option<(Single, Single)>,
    calls: u64,
    candidate: Detection,
    predicted: (Single, Single),
)
    requires
        guard.well_formed(),
        calls <= 2,
        guard.call_index <= u64::MAX - 2,
        is_share(ball.confidence),
        is_share(candidate.confidence),
        usual_place(centre(candidate)),
        usual_place(predicted),
        nearer_than(centre(candidate), predicted, 119900),
        (units(ball.confidence) - units(candidate.confidence)) * 100000 >= 10001 * pow2(149),
    ensures
        ({
            let seen = guard.judged(camera, Some(ball), None, ball_predicted).0;
            let later = GuardModel { call_index: (seen.call_index + calls) as u64, ..seen };
            later.judged(camera.other(), None, Some(candidate), Some(predicted)).2
                == BallDecision::RejectedCrossCamera
        }),
{
    let seen = guard.judged(camera, Some(ball), None, ball_predicted).0;
    let later = GuardModel { call_index: (seen.call_index + calls) as u64, ..seen };
    assert(later.well_formed());
    law_candidate_yields_to_the_other_camera(later, camera.other(), candidate, predicted);
}

} // verus!
