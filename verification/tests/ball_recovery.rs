//! When a reasoner is asked, and what its answer has to pass.

use reco::ball_recovery::{
    generate_ball_candidates, BallRecoveryAnchor, BallRecoveryBounds, BallRecoveryCandidate,
    BallRecoveryFrameContext, BallRecoveryFrameRelation, BallRecoveryHypothesis,
    BallRecoveryReasoner, BallRecoveryReasonerError, BallRecoveryRequest, BallRecoveryVisualRef,
    MappedDetection, TrackedEntity, ViewportPosition, WorldState,
};
use reco::binary::double::Double;
use reco::binary::single::Single;
use reco::camera::CameraId;
use reco::recovery_engine::{
    angular_distance_deg, speed_is_plausible, BallRecoveryConfig, BallRecoveryDecision,
    BallRecoveryEngine,
};
use reco::replay::{BallRecoveryReplayDecision, ReplayBallRecoveryReasoner};
use reco::session::StitchSession;

fn f(x: f32) -> Single {
    Single::from_bits(x.to_bits())
}

fn v(x: Single) -> f32 {
    f32::from_bits(x.to_bits())
}

fn d(x: f64) -> Double {
    Double::from_bits(x.to_bits())
}

fn hypot(x: Single, y: Single) -> Single {
    f(v(x).hypot(v(y)))
}

fn no_ball() -> WorldState {
    WorldState {
        ball: None,
        players: Vec::new(),
    }
}

fn candidate(id: u32, frame_index: u64, yaw: f32) -> BallRecoveryCandidate {
    BallRecoveryCandidate {
        id,
        frame_index,
        yaw: f(yaw),
        pitch: f(0.0),
        detector_confidence: f(0.2),
        camera: CameraId::Left,
        camera_center: (f(0.5), f(0.5)),
        camera_size: (f(0.01), f(0.01)),
        stationary_observations: 0,
    }
}

fn request(frame_index: u64, candidates: Vec<BallRecoveryCandidate>) -> BallRecoveryRequest {
    BallRecoveryRequest {
        current_frame_index: frame_index,
        fps: d(60.0),
        uncertain_frames: 0,
        previous_trusted: Some(BallRecoveryAnchor {
            frame_index: frame_index - 6,
            yaw: f(0.0),
            pitch: f(0.0),
        }),
        future_trusted: Some(BallRecoveryAnchor {
            frame_index: frame_index + 6,
            yaw: f(0.12),
            pitch: f(0.0),
        }),
        bounds: Some(BallRecoveryBounds {
            yaw_min: f(-1.0),
            yaw_max: f(1.0),
            pitch_min: f(-0.5),
            pitch_max: f(0.5),
        }),
        context_frames: Vec::new(),
        visuals: Vec::new(),
        candidates,
    }
}

fn decision(frame_index: u64, candidate_id: Option<u32>, confidence: f32) -> BallRecoveryReplayDecision {
    BallRecoveryReplayDecision {
        frame_index,
        candidate_id,
        confidence: f(confidence),
        rationale: None,
    }
}

fn engine(
    decisions: Vec<BallRecoveryReplayDecision>,
    min_uncertain_frames: u64,
) -> BallRecoveryEngine<ReplayBallRecoveryReasoner> {
    let mut config = BallRecoveryConfig::default();
    config.min_uncertain_frames = min_uncertain_frames;
    BallRecoveryEngine::new(Box::new(ReplayBallRecoveryReasoner::new(decisions)), config)
}

/// Asks an engine that is due at once, and gives back what was recorded.
fn verdict(decision: BallRecoveryReplayDecision, request: BallRecoveryRequest) -> (bool, String) {
    match engine(vec![decision], 1).consider(&no_ball(), request, &hypot) {
        BallRecoveryDecision::Invoked { validation, accepted_candidate, .. } => {
            assert_eq!(validation.accepted, accepted_candidate.is_some());
            (validation.accepted, validation.reason)
        }
        BallRecoveryDecision::NotTriggered => panic!("expected recovery invocation"),
    }
}

#[test]
fn mapped_candidate_generation_is_class_filtered_and_unmapped_safe() {
    let detections = vec![
        MappedDetection {
            camera: CameraId::Left,
            class_id: 0,
            confidence: f(0.3),
            camera_center: (f(0.4), f(0.5)),
            camera_size: (f(0.02), f(0.02)),
            position: Some(ViewportPosition {
                yaw: f(0.1),
                pitch: f(0.0),
                fov_degrees: None,
            }),
        },
        MappedDetection {
            camera: CameraId::Right,
            class_id: 1,
            confidence: f(0.9),
            camera_center: (f(0.5), f(0.5)),
            camera_size: (f(0.2), f(0.4)),
            position: Some(ViewportPosition {
                yaw: f(0.0),
                pitch: f(0.0),
                fov_degrees: None,
            }),
        },
        MappedDetection {
            camera: CameraId::Right,
            class_id: 0,
            confidence: f(0.4),
            camera_center: (f(0.6), f(0.5)),
            camera_size: (f(0.02), f(0.02)),
            position: None,
        },
    ];
    let candidates = generate_ball_candidates(99, &detections, 0);
    assert_eq!(candidates.len(), 1);
    assert_eq!(candidates[0].id, 0);
    assert_eq!(candidates[0].frame_index, 99);
}

#[test]
fn single_frame_miss_does_not_invoke_reasoner() {
    let reasoner = ReplayBallRecoveryReasoner::new(vec![BallRecoveryReplayDecision {
        frame_index: 10,
        candidate_id: Some(0),
        confidence: f(0.99),
        rationale: None,
    }]);
    let mut engine = BallRecoveryEngine::new(Box::new(reasoner), BallRecoveryConfig::default());
    let world = no_ball();
    assert!(matches!(
        engine.consider(&world, request(10, vec![candidate(0, 10, 0.06)]), &hypot),
        BallRecoveryDecision::NotTriggered
    ));
}

#[test]
fn replay_backend_can_accept_only_after_trigger_and_validation() {
    let reasoner = ReplayBallRecoveryReasoner::new(vec![BallRecoveryReplayDecision {
        frame_index: 15,
        candidate_id: Some(0),
        confidence: f(0.95),
        rationale: Some("candidate lies on the bidirectional path".into()),
    }]);
    let mut config = BallRecoveryConfig::default();
    config.min_uncertain_frames = 2;
    let mut engine = BallRecoveryEngine::new(Box::new(reasoner), config);
    let world = no_ball();

    assert!(matches!(
        engine.consider(&world, request(14, vec![candidate(0, 14, 0.05)]), &hypot),
        BallRecoveryDecision::NotTriggered
    ));
    match engine.consider(&world, request(15, vec![candidate(0, 15, 0.06)]), &hypot) {
        BallRecoveryDecision::Invoked {
            validation,
            accepted_candidate,
            ..
        } => {
            assert!(validation.accepted);
            assert_eq!(accepted_candidate.unwrap().id, 0);
        }
        BallRecoveryDecision::NotTriggered => panic!("expected recovery invocation"),
    }
}

#[test]
fn validator_rejects_stationary_spare_ball() {
    let reasoner = ReplayBallRecoveryReasoner::new(vec![BallRecoveryReplayDecision {
        frame_index: 30,
        candidate_id: Some(0),
        confidence: f(0.99),
        rationale: None,
    }]);
    let mut config = BallRecoveryConfig::default();
    config.min_uncertain_frames = 1;
    let mut engine = BallRecoveryEngine::new(Box::new(reasoner), config);
    let mut spare = candidate(0, 30, 0.06);
    spare.stationary_observations = 8;

    match engine.consider(&no_ball(), request(30, vec![spare]), &hypot) {
        BallRecoveryDecision::Invoked { validation, .. } => {
            assert!(!validation.accepted);
            assert!(validation.reason.contains("stationary"));
        }
        BallRecoveryDecision::NotTriggered => panic!("expected recovery invocation"),
    }
}

#[test]
fn validator_rejects_candidate_inconsistent_with_future_observation() {
    let reasoner = ReplayBallRecoveryReasoner::new(vec![BallRecoveryReplayDecision {
        frame_index: 50,
        candidate_id: Some(0),
        confidence: f(0.99),
        rationale: None,
    }]);
    let mut config = BallRecoveryConfig::default();
    config.min_uncertain_frames = 1;
    let mut engine = BallRecoveryEngine::new(Box::new(reasoner), config);
    let implausible = candidate(0, 50, 0.9);

    match engine.consider(&no_ball(), request(50, vec![implausible]), &hypot) {
        BallRecoveryDecision::Invoked { validation, .. } => {
            assert!(!validation.accepted);
        }
        BallRecoveryDecision::NotTriggered => panic!("expected recovery invocation"),
    }
}

#[test]
fn replay_fixture_drives_constrained_reasoner_through_validation_gate() {
    let reasoner = ReplayBallRecoveryReasoner::new(vec![decision(120, Some(1), 0.95)]);
    let mut config = BallRecoveryConfig::default();
    config.min_uncertain_frames = 1;
    let mut engine = BallRecoveryEngine::new(Box::new(reasoner), config);

    let previous = BallRecoveryAnchor {
        frame_index: 114,
        yaw: f(0.0),
        pitch: f(0.0),
    };
    let future = BallRecoveryAnchor {
        frame_index: 126,
        yaw: f(0.12),
        pitch: f(0.0),
    };
    let context = |frame_index, relation, trusted_ball| BallRecoveryFrameContext {
        frame_index,
        relation,
        trusted_ball,
        players: Vec::new(),
    };
    let with_confidence = |mut c: BallRecoveryCandidate| {
        c.detector_confidence = f(0.25);
        c
    };
    let request = BallRecoveryRequest {
        current_frame_index: 120,
        fps: d(60.0),
        uncertain_frames: 0,
        previous_trusted: Some(previous),
        future_trusted: Some(future),
        bounds: None,
        context_frames: vec![
            context(114, BallRecoveryFrameRelation::Past, Some(previous)),
            context(120, BallRecoveryFrameRelation::Current, None),
            context(126, BallRecoveryFrameRelation::Future, Some(future)),
        ],
        visuals: vec![
            BallRecoveryVisualRef::FullFrame { frame_index: 114 },
            BallRecoveryVisualRef::FullFrame { frame_index: 120 },
            BallRecoveryVisualRef::FullFrame { frame_index: 126 },
            BallRecoveryVisualRef::CandidateCrop {
                frame_index: 120,
                candidate_id: 1,
                camera: CameraId::Left,
                high_resolution: true,
            },
        ],
        candidates: vec![
            with_confidence(candidate(0, 120, 0.5)),
            with_confidence(candidate(1, 120, 0.06)),
        ],
    };

    match engine.consider(&no_ball(), request, &hypot) {
        BallRecoveryDecision::Invoked {
            hypothesis,
            validation,
            accepted_candidate,
            ..
        } => {
            assert_eq!(hypothesis.candidate_id, Some(1));
            assert!(validation.accepted);
            assert_eq!(accepted_candidate.unwrap().id, 1);
        }
        BallRecoveryDecision::NotTriggered => panic!("expected replay invocation"),
    }
}

#[test]
fn every_test_has_its_reason() {
    let good = || vec![candidate(0, 50, 0.06)];
    assert_eq!(
        verdict(decision(50, Some(0), 0.99), request(50, good())),
        (true, "accepted".to_string())
    );
    assert_eq!(
        verdict(decision(50, None, 0.99), request(50, good())),
        (false, "reasoner selected none".to_string())
    );
    assert_eq!(
        verdict(decision(50, Some(7), 0.99), request(50, good())),
        (false, "reasoner selected an unknown candidate".to_string())
    );
    for confidence in [0.64, f32::NAN, f32::INFINITY] {
        assert_eq!(
            verdict(decision(50, Some(0), confidence), request(50, good())),
            (false, "reasoner confidence below threshold".to_string())
        );
    }
    let mut high = candidate(0, 50, 0.06);
    high.pitch = f(0.6);
    assert_eq!(
        verdict(decision(50, Some(0), 0.99), request(50, vec![high])),
        (false, "candidate outside panorama bounds".to_string())
    );
    let mut still = candidate(0, 50, 0.06);
    still.stationary_observations = 8;
    assert_eq!(
        verdict(decision(50, Some(0), 0.99), request(50, vec![still])),
        (false, "stationary/spare-ball candidate rejected".to_string())
    );
    still.stationary_observations = 7;
    assert!(verdict(decision(50, Some(0), 0.99), request(50, vec![still])).0);
    assert_eq!(
        verdict(decision(50, Some(0), 0.99), request(50, vec![candidate(0, 50, 0.9)])),
        (false, "trajectory from previous trusted ball is implausible".to_string())
    );
    let mut far_future = request(50, vec![candidate(0, 50, 0.06)]);
    far_future.future_trusted = Some(BallRecoveryAnchor { frame_index: 51, yaw: f(0.9), pitch: f(0.0) });
    assert_eq!(
        verdict(decision(50, Some(0), 0.99), far_future),
        (false, "trajectory to future trusted ball is implausible".to_string())
    );
    let mut slow = request(600, vec![candidate(0, 600, 0.9)]);
    slow.previous_trusted = Some(BallRecoveryAnchor { frame_index: 0, yaw: f(0.0), pitch: f(0.0) });
    slow.future_trusted = Some(BallRecoveryAnchor { frame_index: 1200, yaw: f(0.0), pitch: f(0.0) });
    assert_eq!(
        verdict(decision(600, Some(0), 0.99), slow),
        (false, "candidate inconsistent with bidirectional trajectory".to_string())
    );
}

#[test]
fn speed_needs_time_to_pass() {
    assert!(speed_is_plausible(0, 60, f(100.0), d(60.0), f(178.0)));
    assert!(!speed_is_plausible(0, 60, f(179.0), d(60.0), f(178.0)));
    assert!(!speed_is_plausible(60, 60, f(0.0), d(60.0), f(178.0)));
    assert!(!speed_is_plausible(0, 60, f(0.0), d(0.0), f(178.0)));
    assert!(!speed_is_plausible(0, 60, f(0.0), d(f64::NAN), f(178.0)));
}

#[test]
fn distances_go_the_short_way_round() {
    let expected = |yaw_a: f32, pitch_a: f32, yaw_b: f32, pitch_b: f32| {
        let dyaw = (yaw_b - yaw_a + std::f32::consts::PI).rem_euclid(std::f32::consts::TAU)
            - std::f32::consts::PI;
        dyaw.hypot(pitch_b - pitch_a).to_degrees()
    };
    for (a, b, c, e) in [
        (0.0f32, 0.0f32, 0.12f32, 0.0f32),
        (3.0, 0.1, -3.0, 0.2),
        (-3.0, 0.1, 3.0, -0.2),
        (100.0, 0.0, -50.0, 0.3),
        (0.1, 0.2, 0.1, 0.2),
    ] {
        let got = v(angular_distance_deg(f(a), f(b), f(c), f(e), &hypot));
        assert_eq!(got.to_bits(), expected(a, b, c, e).to_bits(), "{a} {b} {c} {e}");
    }
    assert!(v(angular_distance_deg(f(3.0), f(0.0), f(-3.0), f(0.0), &hypot)) < 17.0);
}

#[test]
fn questions_wait_for_the_gap_and_for_each_other() {
    let mut engine = engine(vec![], 3);
    let mut asked = Vec::new();
    for frame in 100..140u64 {
        if let BallRecoveryDecision::Invoked { request, .. } =
            engine.consider(&no_ball(), request(frame, vec![]), &hypot)
        {
            asked.push((frame, request.uncertain_frames));
        }
    }
    assert_eq!(asked, vec![(102, 3), (114, 15), (126, 27), (138, 39)]);
    let seen = WorldState {
        ball: Some(TrackedEntity { yaw: f(0.0), pitch: f(0.0) }),
        players: Vec::new(),
    };
    assert!(matches!(
        engine.consider(&seen, request(150, vec![]), &hypot),
        BallRecoveryDecision::NotTriggered
    ));
    assert_eq!(engine.trigger.uncertain_frames, 0);
    assert_eq!(engine.trigger.last_invocation_frame, None);
}

struct Broken;

impl BallRecoveryReasoner for Broken {
    fn name(&self) -> &str {
        "broken"
    }

    fn reason(
        &mut self,
        _request: &BallRecoveryRequest,
    ) -> Result<BallRecoveryHypothesis, BallRecoveryReasonerError> {
        Err(BallRecoveryReasonerError::Backend("no answer".to_string()))
    }
}

#[test]
fn a_failing_reasoner_is_recorded() {
    let mut config = BallRecoveryConfig::default();
    config.min_uncertain_frames = 1;
    let mut engine = BallRecoveryEngine::new(Box::new(Broken), config);
    assert_eq!(engine.backend_name(), "broken");
    match engine.consider(&no_ball(), request(20, vec![candidate(0, 20, 0.06)]), &hypot) {
        BallRecoveryDecision::Invoked { backend, hypothesis, validation, accepted_candidate, .. } => {
            assert_eq!(backend, "broken");
            assert_eq!(hypothesis, BallRecoveryHypothesis::none());
            assert!(!validation.accepted);
            assert_eq!(validation.candidate_id, None);
            assert_eq!(validation.reason, "ball recovery backend failed: no answer");
            assert!(accepted_candidate.is_none());
        }
        BallRecoveryDecision::NotTriggered => panic!("expected recovery invocation"),
    }
}

#[test]
fn the_last_decision_for_a_frame_is_played_back() {
    let mut reasoner = ReplayBallRecoveryReasoner::new(vec![
        decision(5, Some(1), 0.5),
        decision(6, Some(2), 0.6),
        decision(5, Some(3), 0.7),
    ]);
    assert_eq!(reasoner.name(), "replay");
    let answer = reasoner.reason(&request(6, vec![])).unwrap();
    assert_eq!(answer.candidate_id, Some(2));
    let mut five = request(6, vec![]);
    five.current_frame_index = 5;
    assert_eq!(reasoner.reason(&five).unwrap().candidate_id, Some(3));
    five.current_frame_index = 7;
    assert_eq!(reasoner.reason(&five).unwrap(), BallRecoveryHypothesis::none());
}

#[test]
fn a_session_takes_and_drops_its_reasoner() {
    let mut session = StitchSession::new();
    assert!(session.ball_recovery.is_none());
    session.set_ball_recovery_reasoner(Box::new(Broken), BallRecoveryConfig::default());
    assert_eq!(session.ball_recovery.as_ref().unwrap().backend_name(), "broken");
    session.clear_ball_recovery_reasoner();
    assert!(session.ball_recovery.is_none());
}
