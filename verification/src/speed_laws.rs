//! Speeds are ways by time, and what a candidate has to pass besides.

use crate::ball_recovery::BallRecoveryRequest;
use crate::binary::double::Double;
use crate::binary::magnitude::lemma_pow2_le;
use crate::binary::nearness::{finite, size, units};
use crate::binary::nearness64::{
    finite64, lemma_natural_exact64, lemma_over_near64, lemma_widened, units64,
};
use crate::binary::rounding::gap;
use crate::binary::single::Single;
use crate::recovery_engine::{
    chosen_candidate, speed_plausible, BallRecoveryConfig, BallRecoveryVerdict, RecoveryDistances,
};
use vstd::arithmetic::power2::{
    lemma2_to64, lemma2_to64_rest, lemma_pow2_adds, lemma_pow2_pos, pow2,
};
use vstd::prelude::*;

verus! {

/// The chain of inequalities from time and way to a speed, and from there to a limit.
#[verifier::rlimit(40)]
proof fn lemma_speed_chain(v: int, c: int, n: int, f: int, d: int, m: int, sec: int, sp: int)
    requires
        v >= 1208925819614629174706176,
        c >= 1208925819614629174706176,
        n >= 1,
        f > 0,
        f <= 1048576 * v,
        d >= 0,
        m >= 1,
        gap(sec * f, n * v * v) * 9007199254740992 <= n * v * v + 4503599627370496 * f,
        gap(sp * sec, d * c * v) * 9007199254740992 <= d * c * v + 4503599627370496 * sec,
    ensures
        sec > 0,
        d * f * 1001 <= m * (n * v) * 1000 ==> sp <= m * c,
        d * f * 999 >= m * (n * v) * 1000 ==> sp > m * c,
{
    let g = 9007199254740992int;
    let nvv = n * v * v;
    let sf = sec * f;
    let a = sp * sec;
    let b = d * c * v;
    let vv = v * v;
    assert(nvv >= vv) by (nonlinear_arith)
        requires
            nvv == n * v * v,
            vv == v * v,
            n >= 1,
    ;
    assert(g * f <= vv) by (nonlinear_arith)
        requires
            f <= 1048576 * v,
            vv == v * v,
            v >= 1208925819614629174706176,
            g == 9007199254740992,
    ;
    assert(gap(sf, nvv) * g <= 2 * nvv);
    assert(sec > 0) by (nonlinear_arith)
        requires
            sf == sec * f,
            sf > 0,
            f > 0,
    ;
    let mc = m * c;
    let x = mc * nvv;
    let af = a * f;
    let bf = b * f;
    assert(b >= 0) by (nonlinear_arith)
        requires
            b == d * c * v,
            d >= 0,
            c > 0,
            v > 0,
    ;
    assert(bf >= 0) by (nonlinear_arith)
        requires
            bf == b * f,
            b >= 0,
            f > 0,
    ;
    assert(gap(af, bf) * g <= bf + 4503599627370496 * sf) by (nonlinear_arith)
        requires
            gap(a, b) * g <= b + 4503599627370496 * sec,
            af == a * f,
            bf == b * f,
            sf == sec * f,
            f > 0,
            g > 0,
            a >= b ==> gap(a, b) == a - b,
            a < b ==> gap(a, b) == b - a,
            gap(af, bf) == af - bf || gap(af, bf) == bf - af,
            gap(af, bf) >= 0,
    ;
    assert(mc >= c) by (nonlinear_arith)
        requires
            mc == m * c,
            m >= 1,
            c > 0,
    ;
    assert(x >= 1208925819614629174706176 * nvv) by (nonlinear_arith)
        requires
            x == mc * nvv,
            mc >= 1208925819614629174706176,
            nvv >= 0,
    ;
    let cv = c * v;
    let df = d * f;
    let mnv = m * (n * v);
    assert(bf == cv * df) by (nonlinear_arith)
        requires
            bf == b * f,
            b == d * c * v,
            cv == c * v,
            df == d * f,
    ;
    assert(x == cv * mnv) by (nonlinear_arith)
        requires
            x == mc * nvv,
            mc == m * c,
            nvv == n * v * v,
            cv == c * v,
            mnv == m * (n * v),
    ;
    assert(cv > 0) by (nonlinear_arith)
        requires
            cv == c * v,
            c > 0,
            v > 0,
    ;
    let msf = mc * sf;
    assert(gap(msf, x) * g <= 2 * x) by (nonlinear_arith)
        requires
            gap(sf, nvv) * g <= 2 * nvv,
            msf == mc * sf,
            x == mc * nvv,
            mc > 0,
            g > 0,
            sf >= nvv ==> gap(sf, nvv) == sf - nvv,
            sf < nvv ==> gap(sf, nvv) == nvv - sf,
            gap(msf, x) == msf - x || gap(msf, x) == x - msf,
            gap(msf, x) >= 0,
    ;
    assert(msf == mc * sec * f) by (nonlinear_arith)
        requires
            msf == mc * sf,
            sf == sec * f,
    ;
    if df * 1001 <= mnv * 1000 {
        assert(bf * 1001 <= x * 1000) by (nonlinear_arith)
            requires
                bf == cv * df,
                x == cv * mnv,
                cv > 0,
                df * 1001 <= mnv * 1000,
        ;
        assert(af < msf);
        assert(sp <= mc) by (nonlinear_arith)
            requires
                af < msf,
                af == a * f,
                a == sp * sec,
                msf == mc * sec * f,
                sec > 0,
                f > 0,
        ;
    }
    if df * 999 >= mnv * 1000 {
        assert(bf * 999 >= x * 1000) by (nonlinear_arith)
            requires
                bf == cv * df,
                x == cv * mnv,
                cv > 0,
                df * 999 >= mnv * 1000,
        ;
        assert(af > msf);
        assert(sp > mc) by (nonlinear_arith)
            requires
                af > msf,
                af == a * f,
                a == sp * sec,
                msf == mc * sec * f,
                sec > 0,
                f > 0,
        ;
    }
}

/// A way can be covered if it is not longer than the largest speed times the time
/// between the frames, which is their number by the frames per second; and it cannot if
/// it is longer. In units: `distance * fps <= max * frames`, but for one part in a
/// thousand.
#[verifier::rlimit(40)]
pub proof fn law_speed_is_way_by_time(
    from_frame: u64,
    to_frame: u64,
    distance: Single,
    fps: Double,
    max: Single,
)
    requires
        from_frame < to_frame,
        to_frame - from_frame <= 0x100_0000_0000,
        finite(distance) && 0 <= units(distance) <= 1048576 * pow2(149),
        finite(max) && units(max) > 0,
        finite64(fps) && pow2(1074) <= 1048576 * units64(fps) && units64(fps) <= 1048576 * pow2(
            1074,
        ),
    ensures
        ({
            let frames = to_frame - from_frame;
            let way = units(distance) * units64(fps);
            let most = units(max) * (frames * pow2(1074));
            &&& way * 1001 <= most * 1000 ==> speed_plausible(
                from_frame,
                to_frame,
                distance,
                fps,
                max,
            )
            &&& way * 999 >= most * 1000 ==> !speed_plausible(
                from_frame,
                to_frame,
                distance,
                fps,
                max,
            )
        }),
{
    let v = pow2(1074) as int;
    let c = pow2(925) as int;
    let u = pow2(149) as int;
    let k = pow2(1023) as int;
    let n = to_frame - from_frame;
    let f = units64(fps);
    let d = units(distance);
    let m = units(max);
    lemma2_to64();
    lemma2_to64_rest();
    lemma_pow2_pos(149);
    lemma_pow2_pos(925);
    lemma_pow2_pos(1074);
    lemma_pow2_adds(1023, 1074);
    lemma_pow2_adds(149, 925);
    lemma_pow2_adds(64, 16);
    lemma_pow2_le(80, 925);
    lemma_pow2_le(80, 1074);
    lemma_pow2_le(80, 1023);
    assert(pow2(80) == 1208925819614629174706176);
    lemma_natural_exact64(n as nat);
    lemma_natural_exact64(0);
    assert(0 * pow2(1074) == 0);
    lemma_widened(distance);
    lemma_widened(max);
    let nn = Double::natural(n as nat);
    let nv = n * v;
    assert(size(nv) * v <= (k * v) * f) by (nonlinear_arith)
        requires
            nv == n * v,
            size(nv) == nv,
            1 <= n <= 0x100_0000_0000,
            v <= 1048576 * f,
            k >= 1208925819614629174706176,
            v > 0,
            f > 0,
    ;
    lemma_over_near64(nn, fps);
    let seconds = nn.over(fps);
    let sec = units64(seconds);
    assert(n * v * v == nv * v);
    let nvv = nv * v;
    let sf = sec * f;
    let vv = v * v;
    assert(nvv >= vv && vv >= 1208925819614629174706176 * v) by (nonlinear_arith)
        requires
            nvv == nv * v,
            nv == n * v,
            vv == v * v,
            n >= 1,
            v >= 1208925819614629174706176,
    ;
    assert(sf * 2 >= vv);
    assert(sec * 2097152 >= v) by (nonlinear_arith)
        requires
            sf * 2 >= vv,
            sf == sec * f,
            vv == v * v,
            0 < f <= 1048576 * v,
            v > 0,
    ;
    let wide = Double::widened(distance);
    let dc = d * c;
    assert(dc <= 1048576 * v) by (nonlinear_arith)
        requires
            dc == d * c,
            d <= 1048576 * u,
            v == u * c,
            c > 0,
    ;
    assert(dc >= 0) by (nonlinear_arith)
        requires
            dc == d * c,
            d >= 0,
            c > 0,
    ;
    assert(size(dc) * v <= (k * v) * sec) by (nonlinear_arith)
        requires
            0 <= dc <= 1048576 * v,
            size(dc) == dc,
            sec * 2097152 >= v,
            k >= 1208925819614629174706176,
            v > 0,
    ;
    lemma_over_near64(wide, seconds);
    let sp = units64(wide.over(seconds));
    assert(d * c * v == dc * v);
    lemma_speed_chain(v, c, n, f, d, m, sec, sp);
}

/// Where no time passes between the frames, or none is known, no way can be covered.
pub proof fn law_no_time_no_way(
    from_frame: u64,
    to_frame: u64,
    distance: Single,
    fps: Double,
    max: Single,
)
    requires
        to_frame <= from_frame || (finite64(fps) && units64(fps) <= 0),
    ensures
        !speed_plausible(from_frame, to_frame, distance, fps, max),
{
    lemma_pow2_pos(1074);
    lemma_natural_exact64(0);
    assert(0 * pow2(1074) == 0);
}

/// A candidate whose direction is no number between the bounds is not accepted; one
/// whose yaw and pitch lie between theirs is not rejected as out of bounds.
pub proof fn law_accepted_candidate_lies_in_the_bounds(
    config: BallRecoveryConfig,
    request: BallRecoveryRequest,
    candidate_id: Option<u32>,
    confidence: Single,
    d: RecoveryDistances,
)
    requires
        request.bounds is Some,
        chosen_candidate(request, candidate_id) is Some,
        ({
            let b = request.bounds->0;
            let c = chosen_candidate(request, candidate_id)->0;
            &&& finite(b.yaw_min) && finite(b.yaw_max) && finite(b.pitch_min) && finite(b.pitch_max)
            &&& finite(c.yaw) && finite(c.pitch)
        }),
    ensures
        ({
            let b = request.bounds->0;
            let c = chosen_candidate(request, candidate_id)->0;
            let inside = units(b.yaw_min) <= units(c.yaw) <= units(b.yaw_max) && units(
                b.pitch_min,
            ) <= units(c.pitch) <= units(b.pitch_max);
            let verdict = config.verdict(request, candidate_id, confidence, d);
            &&& verdict == BallRecoveryVerdict::Accepted ==> inside
            &&& inside ==> verdict != BallRecoveryVerdict::OutOfBounds
        }),
{
}

/// An answer is accepted only with a confidence that is a number and reaches the limit,
/// and one that does reach it is not rejected for that.
pub proof fn law_accepted_answer_is_confident(
    config: BallRecoveryConfig,
    request: BallRecoveryRequest,
    candidate_id: Option<u32>,
    confidence: Single,
    d: RecoveryDistances,
)
    requires
        finite(config.min_reasoner_confidence),
    ensures
        ({
            let sure = finite(confidence) && units(config.min_reasoner_confidence) <= units(
                confidence,
            );
            let verdict = config.verdict(request, candidate_id, confidence, d);
            &&& verdict == BallRecoveryVerdict::Accepted ==> sure
            &&& sure ==> verdict != BallRecoveryVerdict::LowConfidence
        }),
{
}

/// A candidate that was seen standing still as often as the limit says, if there is one,
/// is not accepted; one that was seen so less often is not rejected for that.
pub proof fn law_standing_candidate_is_not_accepted(
    config: BallRecoveryConfig,
    request: BallRecoveryRequest,
    candidate_id: Option<u32>,
    confidence: Single,
    d: RecoveryDistances,
)
    requires
        chosen_candidate(request, candidate_id) is Some,
    ensures
        ({
            let seen = chosen_candidate(request, candidate_id)->0.stationary_observations;
            let limit = config.stationary_reject_observations;
            let verdict = config.verdict(request, candidate_id, confidence, d);
            &&& limit > 0 && seen >= limit ==> verdict != BallRecoveryVerdict::Accepted
            &&& limit == 0 || seen < limit ==> verdict != BallRecoveryVerdict::Stationary
        }),
{
}

/// An answer that chooses a candidate and passes every test is accepted: the confidence
/// reaches its limit, the candidate lies in the bounds and moves, it can be reached from
/// the ball before it, the ball after it can be reached from it, and it lies near enough
/// to the path. A test that needs a trusted ball is passed where there is none.
pub proof fn law_candidate_that_passes_is_accepted(
    config: BallRecoveryConfig,
    request: BallRecoveryRequest,
    candidate_id: Option<u32>,
    confidence: Single,
    d: RecoveryDistances,
)
    requires
        candidate_id is Some,
        chosen_candidate(request, candidate_id) is Some,
        finite(config.min_reasoner_confidence) && finite(confidence),
        units(config.min_reasoner_confidence) <= units(confidence),
        ({
            let c = chosen_candidate(request, candidate_id)->0;
            let speed = config.max_speed_deg_per_s;
            &&& request.bounds matches Some(b) ==> {
                &&& finite(b.yaw_min) && finite(b.yaw_max) && finite(c.yaw)
                &&& finite(b.pitch_min) && finite(b.pitch_max) && finite(c.pitch)
                &&& units(b.yaw_min) <= units(c.yaw) <= units(b.yaw_max)
                &&& units(b.pitch_min) <= units(c.pitch) <= units(b.pitch_max)
            }
            &&& config.stationary_reject_observations == 0 || c.stationary_observations
                < config.stationary_reject_observations
            &&& request.previous_trusted matches Some(p) ==> d.previous matches Some(x)
                ==> speed_plausible(p.frame_index, c.frame_index, x, request.fps, speed)
            &&& request.future_trusted matches Some(f) ==> d.future matches Some(x)
                ==> speed_plausible(c.frame_index, f.frame_index, x, request.fps, speed)
            &&& d.path matches Some(x) ==> finite(x) && finite(config.max_interpolation_error_deg)
                && units(x) <= units(config.max_interpolation_error_deg)
        }),
    ensures
        config.verdict(request, candidate_id, confidence, d) == BallRecoveryVerdict::Accepted,
{
}

} // verus!
