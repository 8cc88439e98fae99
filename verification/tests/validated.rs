//! The detector behind the guard for ball candidates.

use reco::binary::double::Double;
use reco::binary::single::Single;
use reco::camera::CameraId;
use reco::detection::Detection;
use reco::detector::{DetectorError, DetectorFrame, GpuNv12Frame};
use reco::inference::RegionInference;
use reco::ort_gpu::OrtGpuDetector;
use reco::recovery_filter::{BallDecision, CandidateGuard};
use reco::roi::FieldRoi;
use reco::search_run::{DetectEvent, DetectPhase};
use reco::validated::{CallStage, ValidatedBallRecoveryDetector};
use std::cell::Cell;

fn f(x: f32) -> Single {
    Single::from_bits(x.to_bits())
}

fn v(x: Single) -> f32 {
    f32::from_bits(x.to_bits())
}

fn d(x: f64) -> Double {
    Double::from_bits(x.to_bits())
}

fn ball(x: f32, y: f32, confidence: f32) -> Detection {
    Detection {
        camera: CameraId::Left,
        class_id: 1,
        confidence: f(confidence),
        center_x: f(x),
        center_y: f(y),
        width: f(0.01),
        height: f(0.01),
    }
}

fn at(x: f32, y: f32) -> Option<(Single, Single)> {
    Some((f(x), f(y)))
}

/// The lower half of the image is the field.
fn lower_half(p: [Double; 2], _: &Vec<[Double; 2]>) -> bool {
    f64::from_bits(p[1].to_bits()) >= 0.5
}

fn roi() -> Option<FieldRoi> {
    let outline = || vec![[d(0.0), d(0.5)], [d(1.0), d(0.5)], [d(1.0), d(1.0)], [d(0.0), d(1.0)]];
    Some(FieldRoi { left: outline(), right: outline() })
}

fn detector(roi: Option<FieldRoi>) -> ValidatedBallRecoveryDetector {
    let labels = vec!["person".to_string(), "ball".to_string()];
    let inner = OrtGpuDetector::try_new(true, false, true, 640, 3840, 2160, f(0.1), labels, false)
        .unwrap()
        .unwrap()
        .0
        .with_high_res_ball_recovery(true);
    ValidatedBallRecoveryDetector::new(inner, roi, 1, 0)
}

fn frame() -> DetectorFrame {
    DetectorFrame::Cuda(GpuNv12Frame {
        y_ptr: 0,
        y_pitch: 4096,
        uv_ptr: 0,
        uv_pitch: 4096,
        width: 3840,
        height: 2160,
        rotation: 0,
        is_10bit: false,
    })
}

fn run(
    detector: &mut ValidatedBallRecoveryDetector,
    infer: impl Fn(RegionInference) -> Result<Vec<Detection>, DetectorError>,
) -> Result<Vec<Detection>, DetectorError> {
    let mut call = detector.detect(CameraId::Left, &frame(), &lower_half)?;
    while call.stage != CallStage::Over {
        let event = match call.run.phase {
            DetectPhase::Infer { request, .. } => match infer(request) {
                Ok(detections) => DetectEvent::Found { detections },
                Err(error) => DetectEvent::Refused { error },
            },
            _ => DetectEvent::Done,
        };
        detector.step(&mut call, event, &lower_half);
    }
    call.outcome()
}

#[test]
fn a_ball_on_the_field_is_trusted_at_once() {
    let mut guard = CandidateGuard::new();
    let inside = Some(ball(0.5, 0.6, 0.5));
    let (accepted, decision) = guard.judge(CameraId::Left, inside, Some(ball(0.5, 0.1, 0.9)), None);
    assert_eq!((accepted, decision), (inside, BallDecision::StrongInside));
    assert!(guard.cross_camera[0].strong);
    assert_eq!(guard.cross_camera[0].confidence, f(0.5));
    assert!(!guard.cross_camera[1].strong);
}

#[test]
fn a_ball_outside_has_to_show_up_twice_and_to_move() {
    let mut guard = CandidateGuard::new();
    let mut judge = |x: f32, predicted| {
        guard.judge(CameraId::Left, None, Some(ball(x, 0.1, 0.5)), predicted).1
    };
    assert_eq!(judge(0.50, at(0.5, 0.1)), BallDecision::RejectedNoTrajectory);
    assert_eq!(judge(0.51, at(0.5, 0.1)), BallDecision::PromotedOutside);
    assert_eq!(judge(0.51, at(0.5, 0.1)), BallDecision::PromotedOutside);
    assert_eq!(judge(0.51, at(0.5, 0.1)), BallDecision::RejectedStationary);
    assert_eq!(judge(0.51, at(0.5, 0.1)), BallDecision::RejectedNoTrajectory);
    // A jump starts anew, and so does a place that no trajectory leads to.
    assert_eq!(judge(0.60, at(0.6, 0.1)), BallDecision::RejectedNoTrajectory);
    assert_eq!(judge(0.60, at(0.8, 0.1)), BallDecision::RejectedTrajectoryGap);
    assert_eq!(judge(0.61, at(0.6, 0.1)), BallDecision::RejectedNoTrajectory);
    assert_eq!(judge(0.62, None), BallDecision::RejectedNoTrajectory);
    assert_eq!(judge(0.62, at(0.6, 0.1)), BallDecision::RejectedNoTrajectory);
}

#[test]
fn without_candidates_nothing_is_forgotten() {
    let mut guard = CandidateGuard::new();
    guard.judge(CameraId::Left, None, Some(ball(0.5, 0.1, 0.5)), at(0.5, 0.1));
    let before = guard;
    let nothing = guard.judge(CameraId::Left, None, None, at(0.5, 0.1));
    assert_eq!(nothing, (None, BallDecision::RejectedNoTrajectory));
    assert_eq!(guard, before);
}

#[test]
fn a_better_ball_of_the_other_camera_outshines() {
    let mut guard = CandidateGuard::new();
    guard.call_index = 10;
    guard.judge(CameraId::Right, Some(ball(0.5, 0.6, 0.8)), None, None);
    let weak = Some(ball(0.5, 0.1, 0.6));
    let close = Some(ball(0.5, 0.1, 0.75));
    guard.call_index = 12;
    let decision = guard.judge(CameraId::Left, None, weak, at(0.5, 0.1)).1;
    assert_eq!(decision, BallDecision::RejectedCrossCamera);
    let decision = guard.judge(CameraId::Left, None, close, at(0.5, 0.1)).1;
    assert_eq!(decision, BallDecision::RejectedNoTrajectory);
    // After three calls it is forgotten.
    guard.call_index = 13;
    let decision = guard.judge(CameraId::Left, None, weak, at(0.5, 0.1)).1;
    assert_eq!(decision, BallDecision::PromotedOutside);
}

#[test]
fn flags_tell_the_field_from_its_surroundings() {
    let mut guard = CandidateGuard::new();
    let balls = [ball(0.5, 0.1, 0.9), ball(0.5, 0.6, 0.3), ball(0.5, 0.7, 0.4)];
    let (accepted, decision) = guard.judge_balls(CameraId::Left, &balls, &[false, true, true], None);
    assert_eq!((accepted, decision), (Some(balls[2]), BallDecision::StrongInside));
    let (accepted, decision) =
        guard.judge_balls(CameraId::Left, &balls, &[true, false, false], at(0.5, 0.65));
    assert_eq!((accepted, decision), (Some(balls[0]), BallDecision::StrongInside));
}

#[test]
fn equal_candidates_are_told_apart_by_confidence() {
    let mut guard = CandidateGuard::new();
    let balls = [ball(0.25, 0.5, 0.3), ball(0.75, 0.5, 0.8), ball(0.75, 0.5, 0.8)];
    let (accepted, _) = guard.judge_balls(CameraId::Left, &balls, &[true, true, true], at(0.5, 0.5));
    assert_eq!(accepted, Some(balls[1]));
}

#[test]
fn the_accepted_ball_comes_last_and_moves_the_trajectory() {
    let mut detector = detector(roi());
    let person = Detection { class_id: 0, height: f(0.1), ..ball(0.2, 0.6, 0.9) };
    let spectator = Detection { class_id: 0, height: f(0.1), ..ball(0.2, 0.2, 0.9) };
    let on_field = ball(0.5, 0.6, 0.5);
    let output = run(&mut detector, |_| {
        Ok(vec![on_field, spectator, ball(0.5, 0.1, 0.9), person])
    })
    .unwrap();
    assert_eq!(output.len(), 2);
    assert_eq!(output[0].center_x, person.center_x);
    assert_eq!(output[1].class_id, 1);
    let recovery = detector.inner.ball_recovery.as_ref().unwrap();
    assert_eq!(recovery.cameras[0].last_center, at(0.5, 0.6));
    assert_eq!((recovery.stats.commits, recovery.stats.rejects), (1, 0));
    assert_eq!(detector.guard.call_index, 1);
}

#[test]
fn a_rejected_ball_has_the_frame_searched() {
    let mut detector = detector(roi());
    run(&mut detector, |_| Ok(vec![ball(0.5, 0.6, 0.5)])).unwrap();
    let calls = Cell::new(0);
    // The whole frame shows a ball outside; the first crop one on the field.
    let output = run(&mut detector, |q| {
        calls.set(calls.get() + 1);
        if q.width == 3840 { Ok(vec![ball(0.5, 0.1, 0.9)]) } else { Ok(vec![ball(0.5, 0.5, 0.4)]) }
    })
    .unwrap();
    assert_eq!(calls.get(), 2);
    assert_eq!(output.len(), 1);
    assert!((v(output[0].center_y) - 0.6).abs() < 1e-3);
    let recovery = detector.inner.ball_recovery.as_ref().unwrap();
    assert_eq!((recovery.stats.commits, recovery.stats.rejects), (2, 0));
    assert_eq!(recovery.stats.hits, [1, 0, 0]);
}

#[test]
fn a_frame_without_a_trusted_ball_counts_as_a_miss() {
    let mut detector = detector(roi());
    run(&mut detector, |_| Ok(vec![ball(0.5, 0.6, 0.5)])).unwrap();
    let output = run(&mut detector, |_| Ok(vec![])).unwrap();
    assert!(output.is_empty());
    let recovery = detector.inner.ball_recovery.as_ref().unwrap();
    assert_eq!((recovery.cameras[0].misses, recovery.cameras[0].last_center), (1, at(0.5, 0.6)));
    assert_eq!((recovery.stats.rejects, recovery.stats.exhausted), (1, 1));
    let failed = run(&mut detector, |_| Err(DetectorError::UnsupportedFrameKind));
    assert_eq!(failed, Err(DetectorError::UnsupportedFrameKind));
    assert_eq!(detector.inner.ball_recovery.as_ref().unwrap().cameras[0].misses, 1);
    assert_eq!(detector.guard.call_index, 3);
}

#[test]
fn a_frame_of_another_size_ends_the_call_at_once() {
    let mut detector = detector(roi());
    let small = match frame() {
        DetectorFrame::Cuda(f) => DetectorFrame::Cuda(GpuNv12Frame { width: 64, height: 64, ..f }),
        other => other,
    };
    let call = detector.detect(CameraId::Left, &small, &lower_half).unwrap();
    assert_eq!(call.stage, CallStage::Over);
    assert!(matches!(call.outcome(), Err(DetectorError::InferenceFailed(_))));
    assert_eq!(detector.inner.ball_recovery.as_ref().unwrap().stats.rejects, 0);
}

#[test]
fn without_an_outline_everything_is_on_the_field() {
    let mut detector = detector(None);
    let output = run(&mut detector, |_| Ok(vec![ball(0.5, 0.1, 0.5)])).unwrap();
    assert_eq!(output.len(), 1);
    let r = detector.detect(CameraId::Left, &DetectorFrame::Other, &lower_half);
    assert_eq!(r.unwrap_err(), DetectorError::UnsupportedFrameKind);
}
