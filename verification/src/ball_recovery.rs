//! A last resort for balls that the tracker has lost for good.
//!
//! The detector, the tracker and the bridging of gaps come first. Only after they
//! have had no ball for a while is a reasoner asked. It may choose one of the
//! candidates that it is given, or none; its answer is a mere hypothesis, which
//! has to pass a validation that does not depend on it.

use crate::binary::double::Double;
use crate::binary::single::Single;
use crate::camera::CameraId;
use crate::text::joined;
use vstd::prelude::*;

verus! {

/// A trusted ball.
#[derive(Clone, Copy, Debug, PartialEq, Eq, Structural)]
pub struct BallRecoveryAnchor {
    pub frame_index: u64,
    pub yaw: Single,
    pub pitch: Single,
}

/// The part of the panorama in which a ball can be.
#[derive(Clone, Copy, Debug, PartialEq, Eq, Structural)]
pub struct BallRecoveryBounds {
    pub yaw_min: Single,
    pub yaw_max: Single,
    pub pitch_min: Single,
    pub pitch_max: Single,
}

/// One candidate that a reasoner may choose.
#[derive(Clone, Copy, Debug, PartialEq, Eq)]
pub struct BallRecoveryCandidate {
    pub id: u32,
    pub frame_index: u64,
    pub yaw: Single,
    pub pitch: Single,
    pub detector_confidence: Single,
    pub camera: CameraId,
    pub camera_center: (Single, Single),
    pub camera_size: (Single, Single),
    /// In how many frames it was seen without moving.
    pub stationary_observations: u32,
}

/// Where a frame stands to the uncertain one.
#[derive(Clone, Copy, Debug, PartialEq, Eq, Structural)]
pub enum BallRecoveryFrameRelation {
    Past,
    Current,
    Future,
}

/// Something that the tracker follows.
#[derive(Clone, Copy, Debug, PartialEq, Eq, Structural)]
pub struct TrackedEntity {
    pub yaw: Single,
    pub pitch: Single,
}

/// What the tracker knows of one frame.
#[derive(Clone, Debug)]
pub struct WorldState {
    pub ball: Option<TrackedEntity>,
    pub players: Vec<TrackedEntity>,
}

/// What is known of a frame near the uncertain one.
#[derive(Clone, Debug)]
pub struct BallRecoveryFrameContext {
    pub frame_index: u64,
    pub relation: BallRecoveryFrameRelation,
    pub trusted_ball: Option<BallRecoveryAnchor>,
    pub players: Vec<TrackedEntity>,
}

/// A picture that a reasoner may fetch for itself.
#[derive(Clone, Copy, Debug, PartialEq, Eq, Structural)]
pub enum BallRecoveryVisualRef {
    FullFrame { frame_index: u64 },
    CandidateCrop {
        frame_index: u64,
        candidate_id: u32,
        camera: CameraId,
        /// Whether the pixels of the source are wanted.
        high_resolution: bool,
    },
}

/// All that a reasoner is told.
#[derive(Clone, Debug)]
pub struct BallRecoveryRequest {
    pub current_frame_index: u64,
    pub fps: Double,
    pub uncertain_frames: u64,
    pub previous_trusted: Option<BallRecoveryAnchor>,
    pub future_trusted: Option<BallRecoveryAnchor>,
    pub bounds: Option<BallRecoveryBounds>,
    pub context_frames: Vec<BallRecoveryFrameContext>,
    pub visuals: Vec<BallRecoveryVisualRef>,
    pub candidates: Vec<BallRecoveryCandidate>,
}

/// A reasoner's answer: one of the candidates, or none.
#[derive(Debug, PartialEq, Eq)]
pub struct BallRecoveryHypothesis {
    pub candidate_id: Option<u32>,
    pub confidence: Single,
    pub rationale: Option<String>,
}

/// An answer as mathematical values.
pub struct HypothesisModel {
    pub candidate_id: Option<u32>,
    pub confidence: Single,
    pub rationale: Option<Seq<char>>,
}

/// The characters of a text, if there is one.
pub open spec fn text_of(s: Option<String>) -> Option<Seq<char>> {
    match s {
        Some(s) => Some(s@),
        None => None,
    }
}

impl View for BallRecoveryHypothesis {
    type V = HypothesisModel;

    open spec fn view(&self) -> HypothesisModel {
        HypothesisModel {
            candidate_id: self.candidate_id,
            confidence: self.confidence,
            rationale: text_of(self.rationale),
        }
    }
}

impl HypothesisModel {
    /// The answer that chooses none.
    pub open spec fn nothing() -> HypothesisModel {
        HypothesisModel { candidate_id: None, confidence: Single::natural(0), rationale: None }
    }
}

impl Clone for BallRecoveryHypothesis {
    fn clone(&self) -> (r: BallRecoveryHypothesis)
        ensures
            r@ == self@,
    {
        BallRecoveryHypothesis {
            candidate_id: self.candidate_id,
            confidence: self.confidence,
            rationale: match &self.rationale {
                Some(s) => Some(s.clone()),
                None => None,
            },
        }
    }
}

impl BallRecoveryHypothesis {
    /// The answer that chooses none.
    pub fn none() -> (r: BallRecoveryHypothesis)
        ensures
            r@ == HypothesisModel::nothing(),
    {
        BallRecoveryHypothesis {
            candidate_id: None,
            confidence: Single::from_u64(0),
            rationale: None,
        }
    }
}

/// Why a reasoner has no answer.
#[derive(Debug, PartialEq, Eq)]
pub enum BallRecoveryReasonerError {
    Backend(String),
}

impl BallRecoveryReasonerError {
    /// What went wrong, in words.
    pub open spec fn text(self) -> Seq<char> {
        match self {
            BallRecoveryReasonerError::Backend(reason) => "ball recovery backend failed: "@
                + reason@,
        }
    }

    /// What went wrong, in words.
    pub fn message(&self) -> (r: String)
        ensures
            r@ == self.text(),
    {
        match self {
            BallRecoveryReasonerError::Backend(reason) => joined(
                "ball recovery backend failed: ",
                reason.as_str(),
            ),
        }
    }
}

/// Who chooses among the candidates.
pub trait BallRecoveryReasoner: Send {
    /// The names that it can give itself: any, unless it says more.
    open spec fn may_be_called(&self, name: Seq<char>) -> bool {
        true
    }

    /// What it remembers, in numbers of its own: nothing, unless it says more.
    open spec fn memory(&self) -> Seq<int> {
        seq![]
    }

    /// The answers that it can give to one request, with what it remembers after it:
    /// any, unless it says more.
    open spec fn may_answer(
        &self,
        request: BallRecoveryRequest,
        answer: Result<BallRecoveryHypothesis, BallRecoveryReasonerError>,
        memory: Seq<int>,
    ) -> bool {
        true
    }

    /// The name under which its answers are reported.
    fn name(&self) -> (r: &str)
        ensures
            self.may_be_called(r@),
    ;

    /// Chooses one of the candidates, or none.
    fn reason(&mut self, request: &BallRecoveryRequest) -> (r: Result<
        BallRecoveryHypothesis,
        BallRecoveryReasonerError,
    >)
        ensures
            old(self).may_answer(*request, r, final(self).memory()),
    ;
}

/// A direction in the panorama, and how much of it is in view.
#[derive(Clone, Copy, Debug, PartialEq, Eq)]
pub struct ViewportPosition {
    pub yaw: Single,
    pub pitch: Single,
    pub fov_degrees: Option<Single>,
}

/// A detection with its direction in the panorama, where that is known.
#[derive(Clone, Copy, Debug, PartialEq, Eq)]
pub struct MappedDetection {
    pub camera: CameraId,
    pub class_id: u16,
    pub confidence: Single,
    pub camera_center: (Single, Single),
    pub camera_size: (Single, Single),
    pub position: Option<ViewportPosition>,
}

/// The candidate that a detection of a ball is, under that number.
pub open spec fn candidate_from(
    frame_index: u64,
    detection: MappedDetection,
    position: ViewportPosition,
    number: nat,
) -> BallRecoveryCandidate {
    BallRecoveryCandidate {
        id: (number % 0x1_0000_0000) as u32,
        frame_index,
        yaw: position.yaw,
        pitch: position.pitch,
        detector_confidence: detection.confidence,
        camera: detection.camera,
        camera_center: detection.camera_center,
        camera_size: detection.camera_size,
        stationary_observations: 0,
    }
}

/// The candidates in a list of detections: the balls with a known direction, in
/// order, numbered from zero.
pub open spec fn candidates_in(
    frame_index: u64,
    detections: Seq<MappedDetection>,
    ball_class_id: u16,
) -> Seq<BallRecoveryCandidate>
    decreases detections.len(),
{
    if detections.len() == 0 {
        seq![]
    } else {
        let before = candidates_in(frame_index, detections.drop_last(), ball_class_id);
        let last = detections.last();
        match last.position {
            Some(position) => if last.class_id == ball_class_id {
                before.push(candidate_from(frame_index, last, position, before.len()))
            } else {
                before
            },
            None => before,
        }
    }
}

/// Makes candidates of the balls whose direction is known.
pub fn generate_ball_candidates(
    frame_index: u64,
    detections: &[MappedDetection],
    ball_class_id: u16,
) -> (r: Vec<BallRecoveryCandidate>)
    ensures
        r@ == candidates_in(frame_index, detections@, ball_class_id),
{
    let mut r: Vec<BallRecoveryCandidate> = Vec::new();
    let mut i: usize = 0;
    while i < detections.len()
        invariant
            i <= detections@.len(),
            r@ == candidates_in(frame_index, detections@.take(i as int), ball_class_id),
        decreases detections@.len() - i,
    {
        proof {
            assert(detections@.take(i + 1).drop_last() =~= detections@.take(i as int));
        }
        let d = detections[i];
        if d.class_id == ball_class_id {
            if let Some(position) = d.position {
                r.push(
                    BallRecoveryCandidate {
                        id: (r.len() as u64 % 0x1_0000_0000) as u32,
                        frame_index,
                        yaw: position.yaw,
                        pitch: position.pitch,
                        detector_confidence: d.confidence,
                        camera: d.camera,
                        camera_center: d.camera_center,
                        camera_size: d.camera_size,
                        stationary_observations: 0,
                    },
                );
            }
        }
        i = i + 1;
    }
    proof {
        assert(detections@.take(i as int) =~= detections@);
    }
    r
}

/// Every candidate is a ball of the frame, numbered by its place, and not yet known
/// to stand still.
pub proof fn law_candidates_are_numbered(
    frame_index: u64,
    detections: Seq<MappedDetection>,
    ball_class_id: u16,
    i: int,
)
    requires
        0 <= i < candidates_in(frame_index, detections, ball_class_id).len(),
    ensures
        ({
            let c = candidates_in(frame_index, detections, ball_class_id)[i];
            &&& c.id == i % 0x1_0000_0000
            &&& c.frame_index == frame_index
            &&& c.stationary_observations == 0
            &&& exists|k: int|
                0 <= k < detections.len() && (#[trigger] detections[k]).class_id == ball_class_id
                    && detections[k].position is Some && c == candidate_from(
                    frame_index,
                    detections[k],
                    detections[k].position->0,
                    i as nat,
                )
        }),
    decreases detections.len(),
{
    let init = detections.drop_last();
    let before = candidates_in(frame_index, init, ball_class_id);
    if i < before.len() {
        law_candidates_are_numbered(frame_index, init, ball_class_id, i);
        let k = choose|k: int|
            0 <= k < init.len() && (#[trigger] init[k]).class_id == ball_class_id
                && init[k].position is Some && before[i] == candidate_from(
                frame_index,
                init[k],
                init[k].position->0,
                i as nat,
            );
        assert(detections[k] == init[k]);
    } else {
        let k = detections.len() - 1;
        assert(detections[k] == detections.last());
    }
}

/// Every ball whose direction is known becomes a candidate, and nothing else does: the
/// candidates stand in the order of the detections, and each has the direction, the
/// confidence, the camera, the place and the size of its own.
pub proof fn law_every_ball_becomes_a_candidate(
    frame_index: u64,
    detections: Seq<MappedDetection>,
    ball_class_id: u16,
    k: int,
)
    requires
        0 <= k < detections.len(),
    ensures
        ({
            let all = candidates_in(frame_index, detections, ball_class_id);
            let n = candidates_in(frame_index, detections.take(k), ball_class_id).len();
            let m = candidates_in(frame_index, detections.take(k + 1), ball_class_id).len();
            let d = detections[k];
            &&& m <= all.len()
            &&& d.class_id == ball_class_id && d.position is Some ==> {
                let p = d.position->0;
                &&& m == n + 1
                &&& all[n as int].yaw == p.yaw && all[n as int].pitch == p.pitch
                &&& all[n as int].detector_confidence == d.confidence
                &&& all[n as int].camera == d.camera
                &&& all[n as int].camera_center == d.camera_center
                &&& all[n as int].camera_size == d.camera_size
                &&& all[n as int].frame_index == frame_index
            }
            &&& d.class_id != ball_class_id || d.position is None ==> m == n
        }),
    decreases detections.len() - k,
{
    let before = detections.take(k);
    let here = detections.take(k + 1);
    assert(here.drop_last() =~= before);
    assert(here.last() == detections[k]);
    lemma_candidates_stay(frame_index, detections, ball_class_id, k + 1);
}

/// What comes later takes no candidate away.
proof fn lemma_candidates_stay(
    frame_index: u64,
    detections: Seq<MappedDetection>,
    ball_class_id: u16,
    n: int,
)
    requires
        0 <= n <= detections.len(),
    ensures
        ({
            let some = candidates_in(frame_index, detections.take(n), ball_class_id);
            let all = candidates_in(frame_index, detections, ball_class_id);
            &&& some.len() <= all.len()
            &&& forall|i: int| 0 <= i < some.len() ==> #[trigger] all[i] == some[i]
        }),
    decreases detections.len() - n,
{
    if n < detections.len() {
        lemma_candidates_stay(frame_index, detections, ball_class_id, n + 1);
        assert(detections.take(n + 1).drop_last() =~= detections.take(n));
        let some = candidates_in(frame_index, detections.take(n), ball_class_id);
        let more = candidates_in(frame_index, detections.take(n + 1), ball_class_id);
        assert forall|i: int| 0 <= i < some.len() implies #[trigger] candidates_in(
            frame_index,
            detections,
            ball_class_id,
        )[i] == some[i] by {
            assert(more[i] == some[i]);
        }
    } else {
        assert(detections.take(n) =~= detections);
    }
}

} // verus!
