//! Setting up automatic camera control.

use reco::autocam::{
    reads_labels, setup_autocam, validate_model_path, AutocamConfig, AutocamError, AutocamPlan,
    BackendRequest, BuildFeatures, DetectorBackend, DetectorWrapping, ModelPathError, PannerPlan,
    SetupEvent, SetupPhase, TrackingMode,
};
use reco::binary::double::Double;
use reco::binary::single::Single;
use reco::labels::{resolve_class_id, resolve_or};
use reco::roi::FieldRoi;
use reco::stride::{
    coast_frames_for_stride, rebase_panner_config_for_stride, stride_alpha, FieldPannerConfig,
    DEFAULT_COAST_FRAMES,
};
use std::path::Path;

fn f(x: f32) -> Single {
    Single::from_bits(x.to_bits())
}

fn v(x: Single) -> f32 {
    f32::from_bits(x.to_bits())
}

fn powf(x: Single, y: Single) -> Single {
    f(v(x).powf(v(y)))
}

fn broadcast() -> FieldPannerConfig {
    FieldPannerConfig {
        ball_weight: f(0.35),
        cluster_alpha: f(0.05),
        fov_alpha: f(0.02),
        velocity_alpha: f(0.2),
        lead_alpha: f(0.1),
        ball_presence_attack: f(0.25),
        ball_presence_decay: f(0.97),
        framing: 2,
        confidence_weighted: true,
        lock_pitch: false,
    }
}

fn look(path: &str) -> Result<bool, std::io::ErrorKind> {
    Path::new(path).try_exists().map_err(|e| e.kind())
}

#[test]
fn model_path_validation_accepts_files_and_directories() {
    assert!(validate_model_path("/", &look).is_ok());
    assert!(validate_model_path("/proc/self/stat", &look).is_ok());
}

#[test]
fn model_path_validation_rejects_empty_and_missing_paths() {
    let missing = "/model-that-does-not-exist.onnx";
    match validate_model_path(missing, &look) {
        Err(ModelPathError::NotFound(text)) => {
            assert_eq!(text, "AI model path does not exist: /model-that-does-not-exist.onnx")
        }
        _ => panic!("expected a missing path"),
    }
    match validate_model_path("", &look) {
        Err(ModelPathError::NotFound(text)) => assert_eq!(text, "AI model path does not exist: "),
        _ => panic!("expected a missing path"),
    }
}

#[test]
fn a_failed_probe_is_passed_on() {
    let probe = |_: &str| -> Result<bool, u8> { Err(13) };
    assert!(matches!(validate_model_path("model", &probe), Err(ModelPathError::Probe(13))));
    assert!(matches!(validate_model_path("", &probe), Err(ModelPathError::NotFound(_))));
}

#[test]
fn stride_one_panner_rebase_is_identity() {
    let config = broadcast();
    assert_eq!(rebase_panner_config_for_stride(config.clone(), 1, &powf), config);
    assert_eq!(coast_frames_for_stride(1), DEFAULT_COAST_FRAMES);
}

#[test]
fn stride_rebase_preserves_per_source_time_constants() {
    let mut config = broadcast();
    config.cluster_alpha = f(0.10);
    config.fov_alpha = f(0.20);
    config.velocity_alpha = f(0.30);
    config.lead_alpha = f(0.40);
    config.ball_presence_attack = f(0.15);
    config.ball_presence_decay = f(0.90);
    let rebased = rebase_panner_config_for_stride(config, 2, &powf);
    assert!((v(rebased.cluster_alpha) - 0.19).abs() < 1e-6);
    assert!((v(rebased.fov_alpha) - 0.36).abs() < 1e-6);
    assert!((v(rebased.velocity_alpha) - 0.51).abs() < 1e-6);
    assert!((v(rebased.lead_alpha) - 0.64).abs() < 1e-6);
    assert!((v(rebased.ball_presence_attack) - 0.2775).abs() < 1e-6);
    assert!((v(rebased.ball_presence_decay) - 0.81).abs() < 1e-6);
    assert_eq!(coast_frames_for_stride(2), 10);
    assert_eq!(coast_frames_for_stride(3), 7);
    assert_eq!(coast_frames_for_stride(4), 5);
    assert_eq!(rebased.ball_weight, config.ball_weight);
    assert_eq!(rebased.framing, config.framing);
    assert!(rebased.confidence_weighted);
}

fn shares(c: FieldPannerConfig) -> [f32; 6] {
    [
        v(c.cluster_alpha),
        v(c.fov_alpha),
        v(c.velocity_alpha),
        v(c.lead_alpha),
        v(c.ball_presence_attack),
        v(c.ball_presence_decay),
    ]
}

#[test]
fn strides_compose() {
    let config = broadcast();
    for (m, n) in [(1u64, 3u64), (2, 2), (3, 4), (4, 1), (2, 7)] {
        let first = rebase_panner_config_for_stride(config, m, &powf);
        let second = rebase_panner_config_for_stride(first, n, &powf);
        let both = rebase_panner_config_for_stride(config, m * n, &powf);
        let bound = (3 * n + 5) as f32 / 8388608.0;
        for (a, b) in shares(second).into_iter().zip(shares(both)) {
            assert!((a - b).abs() <= bound);
        }
        assert_eq!(second.ball_weight, both.ball_weight);
        assert_eq!(second.lock_pitch, both.lock_pitch);
    }
}

#[test]
fn converted_shares_stay_shares() {
    let mut config = broadcast();
    config.cluster_alpha = f(0.0);
    config.fov_alpha = f(1.0);
    config.ball_presence_decay = f(1.0);
    for stride in [1u64, 2, 3, 4, 1000] {
        let c = rebase_panner_config_for_stride(config, stride, &powf);
        assert!(shares(c).iter().all(|x| (0.0..=1.0).contains(x)));
        assert_eq!((v(c.cluster_alpha), v(c.fov_alpha)), (0.0, 1.0));
        assert_eq!(v(c.ball_presence_decay), 1.0);
    }
}

#[test]
fn long_strides_still_coast_for_one_frame() {
    assert_eq!(coast_frames_for_stride(0), DEFAULT_COAST_FRAMES);
    assert_eq!(coast_frames_for_stride(19), 2);
    assert_eq!(coast_frames_for_stride(20), 1);
    assert_eq!(coast_frames_for_stride(u64::MAX), 1);
    assert_eq!(stride_alpha(f(0.3), 0, &powf), f(0.3));
}

#[test]
fn builders_set_one_thing_each() {
    let config = AutocamConfig::new("model.onnx".to_string());
    assert_eq!(config.tracking_mode, TrackingMode::Field);
    assert_eq!((config.detection_interval, config.frame_stride), (1, 1));
    assert!(!config.is_10bit && !config.high_res_ball_recovery && config.field_roi.is_none());
    let config = config
        .with_tracking_mode(TrackingMode::Ball)
        .with_detection_interval(3)
        .with_frame_stride(9)
        .with_10bit(true)
        .with_high_res_ball_recovery(true)
        .with_field_roi(FieldRoi { left: vec![], right: vec![] });
    assert_eq!(config.model_path, "model.onnx");
    assert_eq!(config.tracking_mode, TrackingMode::Ball);
    assert_eq!((config.detection_interval, config.frame_stride), (3, 4));
    assert!(config.is_10bit && config.high_res_ball_recovery && config.field_roi.is_some());
    assert_eq!(config.with_frame_stride(0).frame_stride, 1);
}

#[test]
fn labels_are_found_in_the_order_of_the_names() {
    let names: Vec<String> = ["Person", "SPORTS BALL", "ball"].iter().map(|s| s.to_string()).collect();
    assert_eq!(resolve_class_id(&names, &["ball", "sports ball"]), Some(2));
    assert_eq!(resolve_class_id(&names, &["sports ball"]), Some(1));
    assert_eq!(resolve_class_id(&names, &["person"]), Some(0));
    assert_eq!(resolve_class_id(&names, &["goal"]), None);
    assert_eq!(resolve_or(&names, &["goal"], 32), 32);
    assert_eq!(resolve_or(&names, &["person"], 32), 0);
}

fn linux() -> BuildFeatures {
    BuildFeatures { ort: true, tensorrt_native: true, ncnn: true, linux: true, macos: false }
}

/// Sets up with detectors that answer as told, and says which were tried.
fn set_up(
    config: AutocamConfig,
    features: BuildFeatures,
    gpu_resident: bool,
    directory: bool,
    answer: impl Fn(DetectorBackend) -> Result<bool, String>,
) -> (Result<AutocamPlan, AutocamError<u8>>, Vec<BackendRequest>) {
    let mut tried = Vec::new();
    let probe = |path: &str| -> Result<bool, u8> { Ok(path != "gone.onnx") };
    let mut setup = setup_autocam(config, features, gpu_resident);
    loop {
        let event = match setup.phase {
            SetupPhase::Probe => match validate_model_path(&setup.config.model_path, &probe) {
                Ok(()) => SetupEvent::Present,
                Err(error) => SetupEvent::Absent { error },
            },
            SetupPhase::Inspect => SetupEvent::Inspected {
                class_names: ["person", "ball"].iter().map(|s| s.to_string()).collect(),
                directory,
            },
            SetupPhase::Attach { request, .. } => {
                tried.push(request);
                match answer(request.backend) {
                    Ok(true) => SetupEvent::Attached,
                    Ok(false) => SetupEvent::Unavailable,
                    Err(reason) => SetupEvent::Broken { reason },
                }
            }
            SetupPhase::Done { .. } | SetupPhase::Refused | SetupPhase::Failed => break,
        };
        setup.step(event);
    }
    (setup.outcome(f(60.0), &broadcast(), &powf), tried)
}

fn backends(tried: &[BackendRequest]) -> Vec<DetectorBackend> {
    tried.iter().map(|r| r.backend).collect()
}

#[test]
fn detectors_are_tried_in_turn() {
    let engine = || AutocamConfig::new("model.engine".to_string());
    let (_, tried) = set_up(engine(), linux(), true, false, |_| Ok(false));
    assert_eq!(
        backends(&tried),
        vec![DetectorBackend::TensorRt, DetectorBackend::OrtGpu, DetectorBackend::WgpuPreprocessing]
    );
    let (_, tried) = set_up(engine(), linux(), true, false, |_| Ok(true));
    assert_eq!(backends(&tried), vec![DetectorBackend::TensorRt]);
    let onnx = || AutocamConfig::new("model.onnx".to_string());
    let (_, tried) = set_up(onnx(), linux(), false, true, |_| Ok(false));
    assert_eq!(backends(&tried), vec![DetectorBackend::Ncnn, DetectorBackend::Cpu]);
    assert_eq!(v(tried[0].confidence_threshold), 0.25);
    assert_eq!(v(tried[1].confidence_threshold), 0.10);
    let mac = BuildFeatures { linux: false, macos: true, ..linux() };
    let (_, tried) = set_up(engine(), mac, true, false, |_| Ok(true));
    assert_eq!(backends(&tried), vec![DetectorBackend::TensorRt, DetectorBackend::Metal]);
}

#[test]
fn only_the_last_detectors_have_to_work() {
    let onnx = || AutocamConfig::new("model.onnx".to_string());
    let fail = |_: DetectorBackend| Err("no device".to_string());
    let (plan, tried) = set_up(onnx(), linux(), true, false, fail);
    assert_eq!(backends(&tried), vec![DetectorBackend::OrtGpu, DetectorBackend::WgpuPreprocessing]);
    assert!(matches!(plan, Err(AutocamError::Detector(text)) if text == "no device"));
    let without_ort = BuildFeatures { ort: false, ..linux() };
    let (plan, tried) = set_up(onnx(), without_ort, false, true, fail);
    assert_eq!(backends(&tried), vec![DetectorBackend::Ncnn]);
    assert!(!plan.unwrap().active);
}

#[test]
fn nothing_is_tried_without_detectors_or_without_a_model() {
    let onnx = || AutocamConfig::new("model.onnx".to_string());
    let none = BuildFeatures { ort: false, tensorrt_native: false, ncnn: false, linux: true, macos: false };
    let (plan, tried) = set_up(onnx(), none, true, true, |_| Ok(true));
    assert!(tried.is_empty());
    assert!(!plan.unwrap().active);
    let gone = || AutocamConfig::new("gone.onnx".to_string());
    let (plan, tried) = set_up(gone(), linux(), true, false, |_| Ok(true));
    assert!(tried.is_empty());
    assert!(matches!(plan, Err(AutocamError::Model(ModelPathError::NotFound(_)))));
}

#[test]
fn the_field_is_followed_at_the_analysed_rate() {
    let config = AutocamConfig::new("model.onnx".to_string())
        .with_frame_stride(2)
        .with_detection_interval(5);
    let plan = set_up(config, linux(), false, false, |_| Ok(true)).0.unwrap();
    assert!(plan.active);
    assert_eq!(plan.detection_interval, Some(5));
    assert_eq!(plan.player_class, Some(0));
    let tracker = plan.ball_tracker.unwrap();
    assert_eq!((tracker.class_id, tracker.max_coast_frames), (1, 10));
    assert_eq!(v(tracker.max_jump_rad), 0.8);
    match plan.panner {
        Some(PannerPlan::Field { fps, config }) => {
            assert_eq!(v(fps), 30.0);
            assert_eq!(v(config.ball_weight), 0.20);
            assert!((v(config.ball_presence_decay) - 0.9409).abs() < 1e-6);
        }
        _ => panic!("expected a field panner"),
    }
}

#[test]
fn a_chosen_framing_reaches_the_camera() {
    for (mode, stride) in [(TrackingMode::Field, 1), (TrackingMode::Field, 3), (TrackingMode::Ball, 2)] {
        let own = FieldPannerConfig { framing: 7, lock_pitch: true, ..broadcast() };
        let mut config = AutocamConfig::new("model.onnx".to_string())
            .with_tracking_mode(mode)
            .with_frame_stride(stride);
        config.field_panner_config = Some(own);
        let plan = set_up(config.clone(), linux(), false, false, |_| Ok(true)).0.unwrap();
        match plan.panner {
            Some(PannerPlan::Field { config, .. }) => {
                assert_eq!((config.framing, config.lock_pitch), (7, true))
            }
            _ => panic!("expected a field panner"),
        }
        config.field_panner_config = None;
        let plan = set_up(config, linux(), false, false, |_| Ok(true)).0.unwrap();
        match plan.panner {
            Some(PannerPlan::Field { config, .. }) => {
                assert_eq!((config.framing, config.lock_pitch), (2, false))
            }
            _ => panic!("expected a field panner"),
        }
    }
}

#[test]
fn a_ball_followed_alone_has_all_the_weight() {
    let config = AutocamConfig::new("model.onnx".to_string()).with_tracking_mode(TrackingMode::Ball);
    let plan = set_up(config, linux(), false, false, |_| Ok(true)).0.unwrap();
    assert_eq!(plan.player_class, None);
    assert_eq!(plan.detection_interval, None);
    assert_eq!(v(plan.ball_tracker.unwrap().max_jump_rad), 0.5);
    match plan.panner {
        Some(PannerPlan::Field { fps, config }) => {
            assert_eq!(v(fps), 60.0);
            assert_eq!(v(config.ball_weight), 1.0);
        }
        _ => panic!("expected a field panner"),
    }
}

#[test]
fn sweeping_needs_no_model() {
    let config = AutocamConfig::new("gone.onnx".to_string()).with_tracking_mode(TrackingMode::Sweep);
    let plan = set_up(config, linux(), false, false, |_| Ok(false)).0.unwrap();
    assert!(plan.active);
    match plan.panner {
        Some(PannerPlan::Sweep { swing, zoom }) => {
            assert_eq!((v(swing.0), v(swing.1)), (0.8, 10.0));
            assert_eq!((v(zoom.0), v(zoom.1), v(zoom.2)), (30.0, 90.0, 7.0));
        }
        _ => panic!("expected a sweep"),
    }
}

#[test]
fn labels_are_read_from_onnx_models_only() {
    let features = linux();
    assert!(reads_labels(&AutocamConfig::new("a/model.onnx".to_string()), &features));
    assert!(!reads_labels(&AutocamConfig::new("model.engine".to_string()), &features));
    assert!(!reads_labels(&AutocamConfig::new("onnx".to_string()), &features));
    let without = BuildFeatures { ort: false, ..features };
    assert!(!reads_labels(&AutocamConfig::new("model.onnx".to_string()), &without));
}

#[test]
fn wrapping_depends_on_recovery_and_outlines() {
    let gpu = DetectorBackend::OrtGpu;
    assert_eq!(gpu.wrapping(true, true, true), DetectorWrapping::Validated);
    assert_eq!(gpu.wrapping(true, false, true), DetectorWrapping::RoiFiltered);
    assert_eq!(gpu.wrapping(false, true, false), DetectorWrapping::Plain);
    assert_eq!(DetectorBackend::Cpu.wrapping(true, true, false), DetectorWrapping::Plain);
    let zero = Double::from_bits(0);
    let corner = [zero, zero];
    let config = AutocamConfig::new("m".to_string())
        .with_field_roi(FieldRoi { left: vec![corner; 2], right: vec![corner; 2] });
    assert!(!config.filters_roi());
    let config = config.with_field_roi(FieldRoi { left: vec![], right: vec![corner; 3] });
    assert!(config.filters_roi());
}
