//! Analysing only every n-th frame.
//!
//! Smoothing factors and frame counts are set for an analysis of every frame. Where
//! frames are left out they are converted, so that the camera moves as before.

use crate::binary::single::Single;
use vstd::arithmetic::div_mod::{
    lemma_fundamental_div_mod, lemma_fundamental_div_mod_converse, lemma_mod_bound,
};
use vstd::prelude::*;

verus! {

/// The most frames of which one is analysed.
pub const MAX_FRAME_STRIDE: u64 = 4;

/// For how many analysed frames a ball that is not seen is carried on, where every
/// frame is analysed. It is chosen so that strides of two, three and four carry a ball
/// on for 10, 7 and 5 analysed frames. Of all counts only 19 would do so too.
pub const DEFAULT_COAST_FRAMES: u32 = 20;

/// How the virtual camera follows the field: what depends on the number of frames or
/// on the mode of tracking, and what is handed on to it as it is.
#[derive(Clone, Copy, Debug, PartialEq, Eq, Structural)]
pub struct FieldPannerConfig {
    pub ball_weight: Single,
    pub cluster_alpha: Single,
    pub fov_alpha: Single,
    pub velocity_alpha: Single,
    pub lead_alpha: Single,
    pub ball_presence_attack: Single,
    pub ball_presence_decay: Single,
    /// The framing that was chosen, by its number.
    pub framing: u32,
    pub confidence_weighted: bool,
    pub lock_pitch: bool,
}

/// `stride` brought into the range that is supported.
pub open spec fn supported_stride(stride: u64) -> u64 {
    if stride < 1 {
        1
    } else if stride > MAX_FRAME_STRIDE {
        MAX_FRAME_STRIDE
    } else {
        stride
    }
}

/// Brings a stride into the range that is supported.
pub fn clamp_stride(stride: u64) -> (r: u64)
    ensures
        r == supported_stride(stride),
{
    if stride < 1 {
        1
    } else if stride > MAX_FRAME_STRIDE {
        MAX_FRAME_STRIDE
    } else {
        stride
    }
}

/// `r` is `x` to the power of `stride`, given what powers are taken to be.
pub open spec fn power_taken<W: Fn(Single, Single) -> Single>(
    powf: W,
    x: Single,
    stride: u64,
    r: Single,
) -> bool {
    powf.ensures((x, Single::natural(stride as nat)), r)
}

/// `r` is a smoothing factor converted to a stride: what is left after that many
/// frames is what one frame leaves, to the power of the stride.
pub open spec fn alpha_converted<W: Fn(Single, Single) -> Single>(
    powf: W,
    alpha: Single,
    stride: u64,
    r: Single,
) -> bool {
    if stride <= 1 {
        r == alpha
    } else {
        exists|left: Single|
            #[trigger] power_taken(powf, Single::natural(1).minus(alpha), stride, left) && r
                == Single::natural(1).minus(left)
    }
}

/// Converts a smoothing factor to a stride.
pub fn stride_alpha<W: Fn(Single, Single) -> Single>(alpha: Single, stride: u64, powf: &W) -> (r:
    Single)
    requires
        forall|x: Single, y: Single| powf.requires((x, y)),
    ensures
        alpha_converted(*powf, alpha, stride, r),
{
    if stride <= 1 {
        return alpha;
    }
    let one = Single::from_u64(1);
    let left = powf(one.minus(alpha), Single::from_u64(stride));
    assert(power_taken(*powf, one.minus(alpha), stride, left));
    one.minus(left)
}

/// `r` is the configuration converted to a stride: every smoothing factor and the
/// decay are converted, and nothing else changes.
pub open spec fn config_converted<W: Fn(Single, Single) -> Single>(
    powf: W,
    config: FieldPannerConfig,
    stride: u64,
    r: FieldPannerConfig,
) -> bool {
    if stride <= 1 {
        r == config
    } else {
        &&& r.ball_weight == config.ball_weight
        &&& alpha_converted(powf, config.cluster_alpha, stride, r.cluster_alpha)
        &&& alpha_converted(powf, config.fov_alpha, stride, r.fov_alpha)
        &&& alpha_converted(powf, config.velocity_alpha, stride, r.velocity_alpha)
        &&& alpha_converted(powf, config.lead_alpha, stride, r.lead_alpha)
        &&& alpha_converted(powf, config.ball_presence_attack, stride, r.ball_presence_attack)
        &&& power_taken(powf, config.ball_presence_decay, stride, r.ball_presence_decay)
        &&& r.framing == config.framing
        &&& r.confidence_weighted == config.confidence_weighted
        &&& r.lock_pitch == config.lock_pitch
    }
}

/// Converts a configuration to a stride.
pub fn rebase_panner_config_for_stride<W: Fn(Single, Single) -> Single>(
    config: FieldPannerConfig,
    stride: u64,
    powf: &W,
) -> (r: FieldPannerConfig)
    requires
        forall|x: Single, y: Single| powf.requires((x, y)),
    ensures
        config_converted(*powf, config, stride, r),
{
    if stride <= 1 {
        return config;
    }
    FieldPannerConfig {
        ball_weight: config.ball_weight,
        cluster_alpha: stride_alpha(config.cluster_alpha, stride, powf),
        fov_alpha: stride_alpha(config.fov_alpha, stride, powf),
        velocity_alpha: stride_alpha(config.velocity_alpha, stride, powf),
        lead_alpha: stride_alpha(config.lead_alpha, stride, powf),
        ball_presence_attack: stride_alpha(config.ball_presence_attack, stride, powf),
        ball_presence_decay: powf(config.ball_presence_decay, Single::from_u64(stride)),
        framing: config.framing,
        confidence_weighted: config.confidence_weighted,
        lock_pitch: config.lock_pitch,
    }
}

/// The number of analysed frames that take as long as the default number of
/// frames does: the quotient, rounded up.
pub open spec fn coast_frames(stride: u64) -> u32 {
    if stride <= 1 {
        DEFAULT_COAST_FRAMES
    } else {
        ((DEFAULT_COAST_FRAMES as int + stride - 1) / stride as int) as u32
    }
}

/// For how many analysed frames a ball that is not seen is carried on.
pub fn coast_frames_for_stride(stride: u64) -> (r: u32)
    ensures
        r == coast_frames(stride),
        r >= 1,
{
    if stride <= 1 {
        return DEFAULT_COAST_FRAMES;
    }
    let base: u64 = 20;
    let whole: u64 = base / stride;
    let frames: u64 = if base % stride > 0 {
        whole + 1
    } else {
        whole
    };
    proof {
        lemma_rounded_up(20, stride as int);
        assert(whole <= 20) by (nonlinear_arith)
            requires
                whole == 20int / stride as int,
                stride >= 1,
        ;
    }
    frames as u32
}

/// Rounding a quotient up.
proof fn lemma_rounded_up(n: int, d: int)
    requires
        n >= 1,
        d >= 1,
    ensures
        (n + d - 1) / d == if n % d > 0 {
            n / d + 1
        } else {
            n / d
        },
        (n + d - 1) / d >= 1,
{
    let q = n / d;
    let m = n % d;
    lemma_fundamental_div_mod(n, d);
    lemma_mod_bound(n, d);
    if m > 0 {
        assert(n + d - 1 == (q + 1) * d + (m - 1)) by (nonlinear_arith)
            requires
                n == d * q + m,
        ;
        lemma_fundamental_div_mod_converse(n + d - 1, d, q + 1, m - 1);
        assert(q >= 0) by (nonlinear_arith)
            requires
                n == d * q + m,
                0 <= m < d,
                n >= 1,
        ;
    } else {
        assert(n + d - 1 == q * d + (d - 1)) by (nonlinear_arith)
            requires
                n == d * q,
        ;
        lemma_fundamental_div_mod_converse(n + d - 1, d, q, d - 1);
        assert(q >= 1) by (nonlinear_arith)
            requires
                n == d * q,
                n >= 1,
                d >= 1,
        ;
    }
}

/// Where every frame is analysed, nothing is converted.
pub proof fn law_stride_one_changes_nothing<W: Fn(Single, Single) -> Single>(
    powf: W,
    config: FieldPannerConfig,
    r: FieldPannerConfig,
)
    ensures
        config_converted(powf, config, 1, r) <==> r == config,
        coast_frames(1) == DEFAULT_COAST_FRAMES,
{
}

/// A ball is carried on for at least as long as without a stride, and for less than
/// one analysed frame longer.
pub proof fn law_coasting_lasts_as_long(stride: u64)
    requires
        stride >= 1,
    ensures
        DEFAULT_COAST_FRAMES <= coast_frames(stride) * stride < DEFAULT_COAST_FRAMES + stride,
        coast_frames(stride) >= 1,
{
    let n = DEFAULT_COAST_FRAMES as int;
    let d = stride as int;
    let q = (n + d - 1) / d;
    let m = (n + d - 1) % d;
    lemma_fundamental_div_mod(n + d - 1, d);
    lemma_mod_bound(n + d - 1, d);
    lemma_rounded_up(n, d);
    assert(n <= q * d < n + d && q <= n) by (nonlinear_arith)
        requires
            n + d - 1 == d * q + m,
            0 <= m < d,
            d >= 1,
            n >= 1,
    ;
    assert(coast_frames(stride) == q);
}

} // verus!
