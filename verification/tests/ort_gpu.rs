//! The detector on frames in device memory, with a device that answers as told.

use reco::binary::single::Single;
use reco::camera::{camera_index, other_camera_index, CameraId};
use reco::crop::CropRegion;
use reco::detection::Detection;
use reco::detector::{DetectorError, DetectorFrame, DeviceStage, GpuNv12Frame};
use reco::letterbox::Letterbox;
use reco::gpu_buffers::{BufferPlan, BufferPlanError, GpuBuffers};
use reco::inference::{locate_region, remap_all, Nv12Planes, PlaneConversion, RegionInference};
use reco::ort_gpu::OrtGpuDetector;
use reco::recovery::CameraRecoveryState;
use reco::search::{plan_search, SearchStep};
use reco::search_run::{DetectEvent, DetectPhase, DetectRun};
use std::cell::{Cell, RefCell};

fn f(x: f32) -> Single {
    Single::from_bits(x.to_bits())
}

fn v(x: Single) -> f32 {
    f32::from_bits(x.to_bits())
}

fn ball(x: f32, y: f32, confidence: f32) -> Detection {
    Detection {
        camera: CameraId::Left,
        class_id: 1,
        confidence: f(confidence),
        center_x: f(x),
        center_y: f(y),
        width: f(0.01),
        height: f(0.02),
    }
}

fn person(x: f32, y: f32) -> Detection {
    Detection { class_id: 0, ..ball(x, y, 0.9) }
}

fn labels() -> Vec<String> {
    vec!["person".to_string(), "Sports Ball".to_string()]
}

fn detector() -> OrtGpuDetector {
    let (mut detector, _) =
        OrtGpuDetector::try_new(true, false, true, 640, 3840, 2160, f(0.1), labels(), true)
            .unwrap()
            .unwrap();
    detector.attach_buffers(GpuBuffers {
        rgb_u8: 10,
        rgb_scratch: 11,
        resized_u8: 12,
        tensor_f32: 13,
        nv12_8bit_y: 14,
        nv12_8bit_uv: 15,
    });
    detector.with_high_res_ball_recovery(true)
}

fn frame() -> GpuNv12Frame {
    GpuNv12Frame {
        y_ptr: 0x1000,
        y_pitch: 4096,
        uv_ptr: 0x9000_0000,
        uv_pitch: 4096,
        width: 3840,
        height: 2160,
        rotation: 0,
        is_10bit: false,
    }
}

fn ready() -> Result<(), String> {
    Ok(())
}

fn converted(_: PlaneConversion) -> Result<(), String> {
    Ok(())
}

/// Runs a detector to the end of a run.
fn drive(
    detector: &mut OrtGpuDetector,
    run: Result<DetectRun, DetectorError>,
    context: &dyn Fn() -> Result<(), String>,
    convert: &dyn Fn(PlaneConversion) -> Result<(), String>,
    infer: &dyn Fn(RegionInference) -> Result<Vec<Detection>, DetectorError>,
) -> Result<Vec<Detection>, DetectorError> {
    let told = |r: Result<(), String>| match r {
        Ok(()) => DetectEvent::Done,
        Err(reason) => DetectEvent::Failed { reason },
    };
    let mut run = run?;
    loop {
        let event = match run.phase {
            DetectPhase::EnsureContext => told(context()),
            DetectPhase::ConvertLuma { conversion } => told(convert(conversion)),
            DetectPhase::ConvertChroma { conversion } => told(convert(conversion)),
            DetectPhase::Infer { request, .. } => match infer(request) {
                Ok(detections) => DetectEvent::Found { detections },
                Err(error) => DetectEvent::Refused { error },
            },
            DetectPhase::Done | DetectPhase::Failed => return run.outcome(),
        };
        detector.step(&mut run, event);
    }
}

fn detect(
    detector: &mut OrtGpuDetector,
    frame: &DetectorFrame,
    context: &dyn Fn() -> Result<(), String>,
    convert: &dyn Fn(PlaneConversion) -> Result<(), String>,
    infer: &dyn Fn(RegionInference) -> Result<Vec<Detection>, DetectorError>,
) -> Result<Vec<Detection>, DetectorError> {
    let run = detector.detect(CameraId::Left, frame);
    drive(detector, run, context, convert, infer)
}

fn recover(
    detector: &mut OrtGpuDetector,
    camera: CameraId,
    frame: &DetectorFrame,
    infer: &dyn Fn(RegionInference) -> Result<Vec<Detection>, DetectorError>,
) -> Result<Vec<Detection>, DetectorError> {
    let run = detector.force_recovery_candidates(camera, frame);
    drive(detector, run, &ready, &converted, infer)
}

#[test]
fn letterboxes_match_the_formula() {
    for (input, w, h) in [(640u32, 3840u32, 2160u32), (640, 1920, 1080), (1280, 720, 1280), (416, 3, 7)] {
        let (fw, fh, size) = (w as f32, h as f32, input as f32);
        let scale = (size / fw).min(size / fh);
        let new_w = (fw * scale).round() as u32;
        let new_h = (fh * scale).round() as u32;
        assert!(Letterbox::has_room(input, w, h));
        let b = Letterbox::new(input, w, h);
        assert_eq!(v(b.scale), scale);
        assert_eq!((b.new_w, b.new_h), (new_w, new_h));
        assert_eq!(v(b.pad_x), (input - new_w) as f32 / 2.0);
        assert_eq!(v(b.pad_y), (input - new_h) as f32 / 2.0);
    }
    let b = Letterbox::new(640, 3840, 2160);
    assert_eq!((b.new_w, b.new_h, v(b.pad_x), v(b.pad_y)), (640, 360, 0.0, 140.0));
    assert!(Letterbox::has_room(640, 0, 0));
}

#[test]
fn buffers_are_sized_for_model_and_frame() {
    assert_eq!(
        BufferPlan::new(640, 3840, 2160, false),
        Ok(BufferPlan { rgb: 24_883_200, resized: 1_228_800, tensor: 4_915_200, eight_bit: None })
    );
    assert_eq!(
        BufferPlan::new(640, 3840, 2161, true).unwrap().eight_bit,
        Some((8_298_240, 4_147_200))
    );
    let most = u32::MAX;
    assert_eq!(BufferPlan::new(640, most, most, false), Err(BufferPlanError::Rgb));
    assert_eq!(BufferPlan::new(most, 2, 2, false), Err(BufferPlanError::Resized));
    assert_eq!(BufferPlan::new(0x8000_0000, 2, 2, false), Err(BufferPlanError::Tensor));
    assert_eq!(BufferPlanError::Rgb.message(), "frame dimensions overflow for rgb_size");
    assert_eq!(BufferPlanError::Resized.message(), "input dimensions overflow for resized_size");
    assert_eq!(BufferPlanError::Tensor.message(), "input dimensions overflow for tensor_size");
}

#[test]
fn there_is_no_detector_without_a_provider() {
    let none = OrtGpuDetector::try_new(false, false, true, 640, 3840, 2160, f(0.1), labels(), false);
    assert!(none.unwrap().is_none());
    for (tensorrt, cuda) in [(true, false), (false, true), (true, true)] {
        let no_npp =
            OrtGpuDetector::try_new(tensorrt, cuda, false, 640, 3840, 2160, f(0.1), labels(), false);
        assert!(no_npp.unwrap().is_none());
    }
    let (made, plan) = OrtGpuDetector::try_new(false, true, true, 640, 3840, 2160, f(0.1), labels(), false)
        .unwrap()
        .unwrap();
    assert_eq!(plan.tensor, 4_915_200);
    assert_eq!(made.set_up.letterbox, Letterbox::new(640, 3840, 2160));
    assert_eq!(made.name(), "ort-cuda");
    assert_eq!(made.class_names().unwrap(), labels().as_slice());
    assert!(made.set_up.buffers.to_free().is_empty());
}

#[test]
fn recovery_needs_a_label_for_the_ball() {
    let made = |labels: Vec<String>| {
        OrtGpuDetector::try_new(true, true, true, 640, 64, 64, f(0.1), labels, false).unwrap().unwrap().0
    };
    assert_eq!(made(labels()).with_high_res_ball_recovery(true).recovery_ball_class_id(), Some(1));
    assert_eq!(made(labels()).with_high_res_ball_recovery(false).recovery_ball_class_id(), None);
    let no_ball = made(vec!["person".to_string()]).with_high_res_ball_recovery(true);
    assert_eq!(no_ball.recovery_ball_class_id(), None);
    assert_eq!(no_ball.recovery_prediction(CameraId::Left), None);
    assert!(!no_ball.recovery_was_attempted(CameraId::Left));
    let both = vec!["BALL".to_string(), "sports ball".to_string()];
    assert_eq!(made(both).with_high_res_ball_recovery(true).recovery_ball_class_id(), Some(0));
}

#[test]
fn buffers_are_freed_in_order() {
    let names: Vec<&str> = detector().set_up.buffers.to_free().iter().map(|b| b.name).collect();
    assert_eq!(
        names,
        vec!["rgb_u8", "rgb_scratch", "resized_u8", "tensor_f32", "nv12_8bit_y", "nv12_8bit_uv"]
    );
    let few = GpuBuffers { rgb_u8: 0, nv12_8bit_y: 0, ..detector().set_up.buffers };
    let left: Vec<(&str, u64)> = few.to_free().iter().map(|b| (b.name, b.address)).collect();
    assert_eq!(
        left,
        vec![("rgb_scratch", 11), ("resized_u8", 12), ("tensor_f32", 13), ("nv12_8bit_uv", 15)]
    );
}

fn planes(y_ptr: u64, y_pitch: usize, uv_ptr: u64, uv_pitch: usize) -> Nv12Planes {
    Nv12Planes { y_ptr, y_pitch, uv_ptr, uv_pitch }
}

#[test]
fn regions_are_located_in_both_planes() {
    let region = CropRegion { x: 100, y: 50, width: 640, height: 360 };
    let at = |rotation| locate_region(planes(1000, 4096, 5000, 2048), 3840, 2160, rotation, region).unwrap();
    assert_eq!(at(0), (1000 + 50 * 4096 + 100, 5000 + 25 * 2048 + 100));
    assert_eq!(at(180), (1000 + 1750 * 4096 + 3100, 5000 + 875 * 2048 + 3100));
    let wide = CropRegion { x: 4000, y: 0, width: 640, height: 4000 };
    assert_eq!(
        locate_region(planes(0, 4096, 0, 4096), 3840, 2160, 180, wide).unwrap(),
        (0, 0)
    );
}

#[test]
fn addresses_that_overflow_are_refused() {
    let region = CropRegion { x: 4, y: 4, width: 2, height: 2 };
    let text = |p: Nv12Planes| match locate_region(p, 100, 100, 0, region) {
        Err(DetectorError::InferenceFailed(text)) => text,
        _ => panic!("expected a failure"),
    };
    assert_eq!(text(planes(0, usize::MAX, 0, 1)), "NV12 Y crop offset overflow");
    assert_eq!(text(planes(0, 1, 0, usize::MAX)), "NV12 UV crop offset overflow");
    assert_eq!(text(planes(u64::MAX, 1, 0, 1)), "NV12 Y pointer overflow");
    assert_eq!(text(planes(0, 1, u64::MAX, 1)), "NV12 UV pointer overflow");
}

#[test]
fn whole_frames_use_the_stored_letterbox() {
    let mut detector = detector();
    let asked = RefCell::new(Vec::new());
    let infer = |q: RegionInference| {
        asked.borrow_mut().push(q);
        Ok(vec![ball(0.25, 0.5, 0.8)])
    };
    let found = detect(&mut detector, &DetectorFrame::Cuda(frame()), &ready, &converted, &infer)
        .unwrap();
    assert_eq!(found.len(), 1);
    assert_eq!(v(found[0].center_x), 0.25);
    let asked = asked.into_inner();
    assert_eq!(asked.len(), 1);
    let q = asked[0];
    assert_eq!((q.y_ptr, q.uv_ptr, q.tensor_f32, q.y_pitch), (0x1000, 0x9000_0000, 13, 4096));
    assert_eq!((q.width, q.height, q.input_size), (3840, 2160, 640));
    assert_eq!((q.pad_x_pixels, q.pad_y_pixels, v(q.pad_y)), (0, 140, 140.0));
    assert_eq!(v(q.confidence_threshold), 0.1);
    assert!(!detector.recovery_was_attempted(CameraId::Left));
}

#[test]
fn failures_come_with_their_stage() {
    let mut detector = detector();
    let text = |r: Result<Vec<Detection>, DetectorError>| match r {
        Err(DetectorError::InferenceFailed(text)) => text,
        _ => panic!("expected a failure"),
    };
    let infer = |_: RegionInference| Ok(vec![]);
    let cuda = DetectorFrame::Cuda(frame());
    let small = DetectorFrame::Cuda(GpuNv12Frame { width: 1920, height: 1080, ..frame() });
    assert_eq!(
        text(detect(&mut detector, &small, &ready, &converted, &infer)),
        "GPU detector frame dimensions changed: configured=3840x2160, received=1920x1080"
    );
    let no_context = || Err("lost".to_string());
    assert_eq!(
        text(detect(&mut detector, &cuda, &no_context, &converted, &infer)),
        "cuda_ensure_context: lost"
    );
    let broken = |_: RegionInference| Err(DeviceStage::Run.failure("bad model"));
    assert_eq!(
        text(detect(&mut detector, &cuda, &ready, &converted, &broken)),
        "ort run: bad model"
    );
    assert_eq!(
        detect(&mut detector, &DetectorFrame::Other, &ready, &converted, &infer),
        Err(DetectorError::UnsupportedFrameKind)
    );
    assert_eq!(
        recover(&mut detector, CameraId::Left, &DetectorFrame::Other, &infer),
        Err(DetectorError::UnsupportedFrameKind)
    );
    for (stage, label) in [
        (DeviceStage::ColourConversion, "NV12->RGB CHW: x"),
        (DeviceStage::TensorWrap, "GPU tensor wrap: x"),
        (DeviceStage::Extract, "output extract: x"),
    ] {
        assert_eq!(stage.failure("x"), DetectorError::InferenceFailed(label.to_string()));
        assert_eq!(stage.failure("x").clone(), stage.failure("x"));
    }
}

#[test]
fn ten_bit_frames_are_converted_first() {
    let mut detector = detector();
    let ten_bit = DetectorFrame::Cuda(GpuNv12Frame { is_10bit: true, ..frame() });
    let done = RefCell::new(Vec::new());
    let convert = |p: PlaneConversion| {
        done.borrow_mut().push(p);
        Ok(())
    };
    let asked = Cell::new((0, 0, 0));
    let infer = |q: RegionInference| {
        asked.set((q.y_ptr, q.uv_ptr, q.y_pitch));
        Ok(vec![ball(0.5, 0.5, 0.5)])
    };
    detect(&mut detector, &ten_bit, &ready, &convert, &infer).unwrap();
    assert_eq!(asked.get(), (14, 15, 3840));
    assert_eq!(
        done.into_inner(),
        vec![
            PlaneConversion { source: 0x1000, source_pitch: 4096, target: 14, width: 3840, height: 2160 },
            PlaneConversion { source: 0x9000_0000, source_pitch: 4096, target: 15, width: 3840, height: 1080 },
        ]
    );
    let luma_fails = |p: PlaneConversion| if p.height == 2160 { Err("y".to_string()) } else { Ok(()) };
    let chroma_fails = |p: PlaneConversion| if p.height == 1080 { Err("uv".to_string()) } else { Ok(()) };
    assert_eq!(
        detect(&mut detector, &ten_bit, &ready, &luma_fails, &infer),
        Err(DetectorError::InferenceFailed("P010->NV12 Y conversion: y".to_string()))
    );
    assert_eq!(
        detect(&mut detector, &ten_bit, &ready, &chroma_fails, &infer),
        Err(DetectorError::InferenceFailed("P010->NV12 UV conversion: uv".to_string()))
    );
    let buffers = GpuBuffers { nv12_8bit_uv: 0, ..detector.set_up.buffers };
    detector.attach_buffers(buffers);
    assert_eq!(
        detect(&mut detector, &ten_bit, &ready, &converted, &infer),
        Err(DetectorError::InferenceFailed(
            "P010 frame received but no conversion buffers allocated".to_string()
        ))
    );
}

#[test]
fn a_lost_ball_is_searched_around_its_expected_place() {
    let mut detector = detector();
    detector.commit_ball_recovery(CameraId::Left, &[ball(0.5, 0.5, 0.8)]);
    let sizes = RefCell::new(Vec::new());
    let infer = |q: RegionInference| {
        sizes.borrow_mut().push((q.width, q.height));
        // The ball shows up in the second crop only, next to a person.
        if q.width == 2560 {
            Ok(vec![person(0.1, 0.1), ball(0.5, 0.5, 0.4)])
        } else {
            Ok(vec![person(0.1, 0.1)])
        }
    };
    let found = detect(&mut detector, &DetectorFrame::Cuda(frame()), &ready, &converted, &infer)
        .unwrap();
    assert_eq!(sizes.into_inner(), vec![(3840, 2160), (1920, 1080), (2560, 1440)]);
    assert_eq!(found.len(), 2);
    assert_eq!(found[1].class_id, 1);
    assert_eq!((v(found[1].center_x), v(found[1].center_y)), (0.5, 0.5));
    assert!(detector.recovery_was_attempted(CameraId::Left));
    assert!(!detector.recovery_was_attempted(CameraId::Right));
    let stats = detector.ball_recovery.as_ref().unwrap().stats;
    assert_eq!((stats.attempts, stats.hits), ([1, 1, 0], [0, 1, 0]));
    assert_eq!((stats.exhausted, stats.errors, stats.commits), (0, 0, 1));
}

#[test]
fn an_error_ends_the_search_but_not_the_call() {
    let mut detector = detector();
    detector.commit_ball_recovery(CameraId::Left, &[ball(0.5, 0.5, 0.8)]);
    let calls = Cell::new(0);
    let infer = |_: RegionInference| {
        calls.set(calls.get() + 1);
        if calls.get() == 1 { Ok(vec![]) } else { Err(DetectorError::UnsupportedFrameKind) }
    };
    let found = detect(&mut detector, &DetectorFrame::Cuda(frame()), &ready, &converted, &infer)
        .unwrap();
    assert!(found.is_empty());
    assert_eq!(calls.get(), 2);
    let stats = detector.ball_recovery.as_ref().unwrap().stats;
    assert_eq!((stats.attempts, stats.errors, stats.exhausted), ([1, 0, 0], 1, 1));
}

#[test]
fn without_an_expected_place_nothing_is_searched() {
    let mut detector = detector();
    let infer = |_: RegionInference| panic!("no region is to be looked at");
    let found = recover(&mut detector, CameraId::Right, &DetectorFrame::Cuda(frame()), &infer)
        .unwrap();
    assert!(found.is_empty());
    assert!(detector.recovery_was_attempted(CameraId::Right));
    assert_eq!(detector.ball_recovery.as_ref().unwrap().stats.exhausted, 0);
}

#[test]
fn searches_widen_with_the_misses() {
    let place = (f(0.5), f(0.5));
    let local = plan_search(3840, 2160, place, 23);
    assert_eq!(local.len(), 3);
    assert_eq!(local[0].region(), CropRegion { x: 960, y: 540, width: 1920, height: 1080 });
    assert!(matches!(local[2], SearchStep::Local { stage: 2, .. }));
    assert_eq!(local[2].region().width, 3200);
    let tiled = plan_search(3840, 2160, place, 24);
    assert_eq!(tiled.len(), 4);
    assert_eq!(tiled[3], SearchStep::Tile {
        tile: 3,
        region: CropRegion { x: 1280, y: 720, width: 2560, height: 1440 },
    });
    assert!(plan_search(3840, 2160, place, 25).is_empty());
    assert_eq!(plan_search(3840, 2160, place, 28).len(), 4);
    // In a frame of two pixels every crop is the whole frame.
    assert!(plan_search(2, 2, place, 0).is_empty());
}

#[test]
fn a_tiled_search_counts_by_corner() {
    let mut detector = detector();
    detector.commit_ball_recovery(CameraId::Left, &[ball(0.5, 0.5, 0.8)]);
    for _ in 0..24 {
        detector.reject_ball_recovery(CameraId::Left);
    }
    assert!(detector.can_search(CameraId::Left, 3840, 2160));
    let starts = RefCell::new(Vec::new());
    let infer = |q: RegionInference| {
        starts.borrow_mut().push(q.y_ptr - 0x1000);
        if starts.borrow().len() == 3 { Ok(vec![ball(0.0, 1.0, 0.3)]) } else { Ok(vec![]) }
    };
    let found = recover(&mut detector, CameraId::Left, &DetectorFrame::Cuda(frame()), &infer)
        .unwrap();
    assert_eq!(starts.into_inner(), vec![0, 1280, 720 * 4096]);
    assert_eq!((v(found[0].center_x), v(found[0].center_y)), (0.0, 1.0));
    let stats = detector.ball_recovery.as_ref().unwrap().stats;
    assert_eq!((stats.tile_attempts, stats.tile_hits), ([1, 1, 1, 0], [0, 0, 1, 0]));
    assert_eq!((stats.attempts, stats.rejects), ([0, 0, 0], 24));
}

#[test]
fn rejections_count_and_acceptances_reset() {
    let mut detector = detector();
    detector.commit_ball_recovery(CameraId::Left, &[ball(0.4, 0.5, 0.8)]);
    detector.reject_ball_recovery(CameraId::Left);
    detector.reject_ball_recovery(CameraId::Left);
    let state = detector.ball_recovery.as_ref().unwrap().cameras[camera_index(CameraId::Left)];
    assert_eq!((state.misses, state.last_center), (2, Some((f(0.4), f(0.5)))));
    detector.commit_ball_recovery(CameraId::Left, &[ball(0.43, 0.5, 0.8)]);
    let recovery = detector.ball_recovery.as_ref().unwrap();
    let state = recovery.cameras[0];
    assert_eq!(state.misses, 0);
    assert!((v(state.velocity.0) - 0.01).abs() < 1e-6);
    assert_eq!(recovery.cameras[other_camera_index(CameraId::Left)], CameraRecoveryState::new());
    assert_eq!((recovery.stats.commits, recovery.stats.rejects), (2, 2));
    let far = detector.recovery_prediction(CameraId::Left).unwrap();
    assert!((v(far.0) - 0.44).abs() < 1e-6);
}

#[test]
fn fast_motion_is_limited_and_predictions_stay_in_the_image() {
    let mut state = CameraRecoveryState {
        last_center: Some((f(0.1), f(0.9))),
        velocity: (f(0.0), f(0.0)),
        misses: 0,
    };
    state.observe(&[ball(0.9, 0.1, 0.5)], 1);
    assert_eq!((v(state.velocity.0), v(state.velocity.1)), (0.08, -0.08));
    for _ in 0..9 {
        state.miss();
    }
    assert_eq!(state.predicted_center(), Some((f(1.0), f(0.0))));
    let before = state;
    state.observe(&[person(0.5, 0.5)], 1);
    assert_eq!(state, before);
    let full = CameraRecoveryState { misses: u32::MAX, ..state };
    let mut still_full = full;
    still_full.miss();
    assert_eq!(still_full, full);
}

#[test]
fn detections_of_a_region_are_mapped_to_the_frame() {
    let region = CropRegion { x: 960, y: 540, width: 1920, height: 1080 };
    let mapped = remap_all(&[ball(0.0, 1.0, 0.5), ball(0.5, 0.5, 0.5)], region, 3840, 2160);
    assert_eq!((v(mapped[0].center_x), v(mapped[0].center_y)), (0.25, 0.75));
    assert_eq!((v(mapped[1].center_x), v(mapped[1].center_y)), (0.5, 0.5));
    assert_eq!(mapped[1].width, f(0.01 * (1920.0f32 / 3840.0)));
}
