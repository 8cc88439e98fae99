//! What the set-up of automatic camera control plans, in numbers.

use crate::autocam::{
    AutocamConfig, AutocamPlan, BackendConditions, DetectorBackend, DetectorWrapping, PannerPlan,
    TrackingMode,
};
use crate::binary::integers::lemma_exact_integer;
use crate::binary::magnitude::lemma_pow2_le;
use crate::binary::nearness::{finite, lemma_over_near, size, units};
use crate::binary::rounding::gap;
use crate::binary::single::Single;
use crate::binary::value::Value;
use crate::recovery_engine::BallRecoveryConfig;
use crate::stride::{supported_stride, FieldPannerConfig};
use vstd::arithmetic::power2::{lemma2_to64, lemma_pow2_adds, lemma_pow2_pos, pow2};
use vstd::prelude::*;

verus! {

/// A number is a decimal fraction, to one part in a million of one.
pub open spec fn is_about(s: Single, num: int, den: int) -> bool {
    finite(s) && gap(units(s) * den, num * pow2(149)) * 1000000 <= den * pow2(149)
}

/// The numbers that plans are made of.
proof fn lemma_numbers()
    ensures
        units(Single { bits: 0x3f80_0000 }) == pow2(149) && finite(Single { bits: 0x3f80_0000 }),
        2 * units(Single { bits: 0x3f00_0000 }) == pow2(149) && finite(
            Single { bits: 0x3f00_0000 },
        ),
        4 * units(Single { bits: 0x3e80_0000 }) == pow2(149) && finite(
            Single { bits: 0x3e80_0000 },
        ),
        is_about(Single { bits: 0x3dcc_cccd }, 1, 10),
        is_about(Single { bits: 0x3e4c_cccd }, 1, 5),
        is_about(Single { bits: 0x3f4c_cccd }, 4, 5),
        is_about(Single { bits: 0x4120_0000 }, 10, 1),
        is_about(Single { bits: 0x41f0_0000 }, 30, 1),
        is_about(Single { bits: 0x42b4_0000 }, 90, 1),
        is_about(Single { bits: 0x40e0_0000 }, 7, 1),
{
    lemma2_to64();
    lemma_pow2_pos(149);
    lemma_pow2_adds(23, 126);
    lemma_pow2_adds(24, 125);
    lemma_pow2_adds(25, 124);
    lemma_pow2_adds(27, 122);
    lemma_pow2_adds(26, 123);
    lemma_pow2_adds(20, 129);
    lemma_pow2_adds(19, 130);
    lemma_pow2_adds(17, 132);
    lemma_pow2_adds(21, 128);
    assert((Single { bits: 0x3f80_0000 }).value() == (Value::Finite {
        negative: false,
        units: 0x80_0000 * pow2(126),
    }));
    assert((Single { bits: 0x3f00_0000 }).value() == (Value::Finite {
        negative: false,
        units: 0x80_0000 * pow2(125),
    }));
    assert((Single { bits: 0x3e80_0000 }).value() == (Value::Finite {
        negative: false,
        units: 0x80_0000 * pow2(124),
    }));
    assert((Single { bits: 0x3dcc_cccd }).value() == (Value::Finite {
        negative: false,
        units: 13421773 * pow2(122),
    }));
    assert((Single { bits: 0x3e4c_cccd }).value() == (Value::Finite {
        negative: false,
        units: 13421773 * pow2(123),
    }));
    assert((Single { bits: 0x3f4c_cccd }).value() == (Value::Finite {
        negative: false,
        units: 13421773 * pow2(125),
    }));
    assert((Single { bits: 0x4120_0000 }).value() == (Value::Finite {
        negative: false,
        units: 0xa0_0000 * pow2(129),
    }));
    assert((Single { bits: 0x41f0_0000 }).value() == (Value::Finite {
        negative: false,
        units: 0xf0_0000 * pow2(130),
    }));
    assert((Single { bits: 0x42b4_0000 }).value() == (Value::Finite {
        negative: false,
        units: 0xb4_0000 * pow2(132),
    }));
    assert((Single { bits: 0x40e0_0000 }).value() == (Value::Finite {
        negative: false,
        units: 0xe0_0000 * pow2(128),
    }));
}

/// A detector needs the confidence that the configuration sets, or else a quarter if it
/// runs on NCNN and a tenth if not; it leaves detections outside the field out exactly
/// if one of the outlines has an inside; and it searches for balls at high resolution if
/// the configuration says so.
pub proof fn law_detector_is_asked_for_what_is_configured(
    config: AutocamConfig,
    class_names: Seq<String>,
    backend: DetectorBackend,
)
    ensures
        ({
            let r = config.backend_request(class_names, backend);
            &&& r.backend == backend
            &&& config.confidence_threshold matches Some(c) ==> r.confidence_threshold == c
            &&& config.confidence_threshold is None ==> if backend == DetectorBackend::Ncnn {
                is_about(r.confidence_threshold, 1, 4)
            } else {
                is_about(r.confidence_threshold, 1, 10)
            }
            &&& r.filters_roi <==> (config.field_roi matches Some(f) && (f.left@.len() >= 3
                || f.right@.len() >= 3))
            &&& r.high_res_ball_recovery == config.high_res_ball_recovery
        }),
{
    lemma_numbers();
    lemma_pow2_pos(149);
}

/// What stands between a detector and the session: a field that leaves something out is
/// never forgotten, and the guard for balls stands only before a detector on CUDA that
/// knows a ball, where the search was asked for.
pub proof fn law_field_is_never_forgotten(
    backend: DetectorBackend,
    high_res: bool,
    knows_ball: bool,
    filters_roi: bool,
)
    ensures
        ({
            let w = backend.wrapped(high_res, knows_ball, filters_roi);
            &&& w == DetectorWrapping::Validated <==> backend == DetectorBackend::OrtGpu && high_res
                && knows_ball
            &&& w == DetectorWrapping::Plain ==> !filters_roi
            &&& w == DetectorWrapping::RoiFiltered ==> filters_roi
        }),
{
}

/// Frames on the device go to detectors that take them from there, and frames that are
/// not go to detectors that do not ask for it. With the ONNX runtime there is a last
/// detector for every frame while none is attached, and exactly one. A detector that is
/// tried beside an attached one takes frames on the device.
pub proof fn law_every_frame_has_a_last_detector(c: BackendConditions)
    ensures
        c.features.ort ==> DetectorBackend::WgpuPreprocessing.applies(c, false)
            != DetectorBackend::Cpu.applies(c, false),
        DetectorBackend::WgpuPreprocessing.applies(c, false) ==> c.gpu_resident,
        DetectorBackend::Cpu.applies(c, false) ==> !c.gpu_resident,
        DetectorBackend::TensorRt.applies(c, false) <==> c.features.tensorrt_native && c.gpu_resident
            && c.engine_file,
        DetectorBackend::OrtGpu.applies(c, false) <==> c.features.ort && c.features.linux
            && c.gpu_resident,
        DetectorBackend::Metal.applies(c, false) <==> c.features.ort && c.features.macos
            && c.gpu_resident,
        DetectorBackend::Ncnn.applies(c, false) <==> c.features.ncnn && c.directory,
        forall|i: int|
            0 <= i < 6 && (#[trigger] DetectorBackend::at(i)).applies(c, true) ==> (i == 0 || i == 2)
                && c.gpu_resident && DetectorBackend::at(i).applies(c, false),
        !c.features.ort && !c.features.tensorrt_native && !c.features.ncnn ==> forall|i: int|
            0 <= i < 6 ==> !(#[trigger] DetectorBackend::at(i)).applies(c, false),
{
}

/// The panner runs at the rate of the analysed frames, the ball may jump 0.8 radians
/// from one of them to the next, or 0.5 where it alone is followed, and is carried on
/// while it is not seen for as long as 20 frames take. Where the ball alone is followed
/// it has all the weight; else it has the weight that was set, or a fifth.
pub proof fn law_plan_suits_mode_and_stride<W: Fn(Single, Single) -> Single>(
    config: AutocamConfig,
    class_names: Seq<String>,
    fps: Single,
    standard: FieldPannerConfig,
    powf: W,
    plan: AutocamPlan,
)
    requires
        config.planned(class_names, fps, standard, powf, plan),
        finite(fps),
        size(units(fps)) <= 0x10_0000 * pow2(149),
    ensures
        ({
            let stride = if config.frame_stride < 1 {
                1
            } else if config.frame_stride > 4 {
                4
            } else {
                config.frame_stride as int
            };
            &&& plan.active
            &&& plan.panner matches Some(PannerPlan::Field { fps: rate, config: used })
            &&& finite(rate) && gap(units(rate) * stride, units(fps)) * 4194304 <= size(units(fps))
                + 4194304 * stride
            &&& plan.ball_tracker matches Some(tracker)
            &&& 20 <= tracker.max_coast_frames * stride < 20 + stride
            &&& config.tracking_mode == TrackingMode::Ball ==> {
                &&& is_about(used.ball_weight, 1, 1)
                &&& is_about(tracker.max_jump_rad, 1, 2)
                &&& plan.player_class is None
            }
            &&& config.tracking_mode != TrackingMode::Ball ==> {
                &&& config.field_panner_config is None ==> is_about(used.ball_weight, 1, 5)
                &&& config.field_panner_config matches Some(own) ==> used.ball_weight
                    == own.ball_weight
                &&& is_about(tracker.max_jump_rad, 4, 5)
            }
            &&& plan.detection_interval == if config.detection_interval > 1 {
                Some(config.detection_interval)
            } else {
                None::<u64>
            }
        }),
{
    let u = pow2(149) as int;
    lemma_numbers();
    lemma2_to64();
    lemma_pow2_pos(149);
    lemma_pow2_le(24, 149);
    lemma_pow2_adds(24, 149);
    lemma_pow2_le(173, 276);
    let stride = supported_stride(config.frame_stride);
    lemma_exact_integer(stride as nat);
    let n = Single::natural(stride as nat);
    let s = stride as int;
    let su = s * u;
    let f = units(fps);
    let big = pow2(276) as int;
    assert(su >= u) by (nonlinear_arith)
        requires
            su == s * u,
            s >= 1,
            u > 0,
    ;
    let sf = size(f);
    assert(sf * u <= big * su) by (nonlinear_arith)
        requires
            0 <= sf <= big,
            su >= u,
            u > 0,
    ;
    lemma_over_near(fps, n);
    let q = units(fps.over(n));
    let qs = q * s;
    let qsu = q * su;
    let fu = f * u;
    assert(gap(qs, f) * 4194304 <= sf + 4194304 * s) by (nonlinear_arith)
        requires
            gap(qsu, fu) * 16777216 <= sf * u + 8388608 * su,
            qsu == q * su,
            su == s * u,
            qs == q * s,
            fu == f * u,
            u > 0,
            sf >= 0,
            s >= 1,
            qs >= f ==> gap(qs, f) == qs - f,
            qs < f ==> gap(qs, f) == f - qs,
            gap(qsu, fu) == qsu - fu || gap(qsu, fu) == fu - qsu,
            gap(qsu, fu) >= 0,
    ;
    crate::stride::law_coasting_lasts_as_long(stride);
}

/// A camera that follows nothing swings by 0.8 in 10 seconds, and zooms from 30 to 90
/// and back in 7.
pub proof fn law_swing_is_the_usual_one()
    ensures
        ({
            let plan = AutocamPlan::sweeping();
            &&& plan.active
            &&& plan.ball_tracker is None && plan.player_class is None
            &&& plan.panner matches Some(PannerPlan::Sweep { swing, zoom })
            &&& is_about(swing.0, 4, 5) && is_about(swing.1, 10, 1)
            &&& is_about(zoom.0, 30, 1) && is_about(zoom.1, 90, 1) && is_about(zoom.2, 7, 1)
        }),
{
    lemma_numbers();
}

/// The usual limits of the reasoner: asked after 6 frames without a ball and again after
/// 12, trusted from a confidence of 0.65 on, with speeds of up to 178 degrees per second,
/// up to 20 degrees off the path, and fewer than 8 frames without motion.
pub proof fn law_reasoner_has_the_usual_limits()
    ensures
        ({
            let c = BallRecoveryConfig::standard();
            &&& c.min_uncertain_frames == 6 && c.retry_interval_frames == 12
            &&& c.stationary_reject_observations == 8
            &&& is_about(c.min_reasoner_confidence, 65, 100)
            &&& is_about(c.max_speed_deg_per_s, 178, 1)
            &&& is_about(c.max_interpolation_error_deg, 20, 1)
        }),
{
    lemma2_to64();
    lemma_pow2_pos(149);
    lemma_pow2_adds(24, 125);
    lemma_pow2_adds(16, 133);
    lemma_pow2_adds(19, 130);
    assert((Single { bits: 0x3f26_6666 }).value() == (Value::Finite {
        negative: false,
        units: 0xa6_6666 * pow2(125),
    }));
    assert((Single { bits: 0x4332_0000 }).value() == (Value::Finite {
        negative: false,
        units: 0xb2_0000 * pow2(133),
    }));
    assert((Single { bits: 0x41a0_0000 }).value() == (Value::Finite {
        negative: false,
        units: 0xa0_0000 * pow2(130),
    }));
}

} // verus!
