//! Which ball candidates are trusted.
//!
//! The detector proposes candidates; this guard decides whether one of them may
//! move the recovery state and reach the tracker. A candidate on the field is
//! trusted at once. One outside has to follow the trajectory, to move, and to
//! show up again.

use crate::binary::single::Single;
use crate::camera::{camera_index, other_camera_index, CameraId};
use crate::detection::Detection;
use crate::selection::{first_least, key_before, lemma_first_least, lemma_first_least_step};
use vstd::prelude::*;

verus! {

/// How far from the expected place a candidate outside may lie: 0.12.
pub const PROVISIONAL_MAX_PREDICTION_DISTANCE: u32 = 0x3df5_c28f;

/// How far it may move from one call to the next: 0.06.
pub const PROVISIONAL_LINK_DISTANCE: u32 = 0x3d75_c28f;

/// Up to this way it counts as not moving: 0.0015.
pub const PROVISIONAL_MIN_MOTION: u32 = 0x3ac4_9ba6;

/// How often it has to show up.
pub const PROVISIONAL_CONFIRMATIONS: u8 = 2;

/// How often it may show up without moving.
pub const STATIONARY_OUTSIDE_LIMIT: u8 = 2;

/// How much better the other camera's ball has to be: 0.10.
pub const CROSS_CAMERA_CONFIDENCE_MARGIN: u32 = 0x3dcc_cccd;

/// For how many calls the other camera's ball is remembered.
pub const CROSS_CAMERA_MAX_AGE_CALLS: u64 = 2;

/// A candidate outside that is not trusted yet.
#[derive(Clone, Copy, Debug, PartialEq, Eq)]
pub struct ProvisionalState {
    pub last: Option<(Single, Single)>,
    pub confirmations: u8,
    pub stationary: u8,
}

/// The last ball that was trusted in a camera.
#[derive(Clone, Copy, Debug, PartialEq, Eq, Structural)]
pub struct CrossCameraEvidence {
    pub confidence: Single,
    pub call_index: u64,
    pub strong: bool,
}

/// What was decided on the candidates of one frame.
#[derive(Clone, Copy, Debug, PartialEq, Eq, Structural)]
pub enum BallDecision {
    StrongInside,
    PromotedOutside,
    RejectedNoTrajectory,
    RejectedTrajectoryGap,
    RejectedStationary,
    RejectedCrossCamera,
}

impl ProvisionalState {
    /// No candidate.
    pub open spec fn empty() -> ProvisionalState {
        ProvisionalState { last: None, confirmations: 0, stationary: 0 }
    }

    /// No candidate.
    pub fn new() -> (r: ProvisionalState)
        ensures
            r == ProvisionalState::empty(),
    {
        ProvisionalState { last: None, confirmations: 0, stationary: 0 }
    }
}

impl CrossCameraEvidence {
    /// No ball yet.
    pub open spec fn empty() -> CrossCameraEvidence {
        CrossCameraEvidence { confidence: Single::natural(0), call_index: 0, strong: false }
    }

    /// No ball yet.
    pub fn new() -> (r: CrossCameraEvidence)
        ensures
            r == CrossCameraEvidence::empty(),
    {
        CrossCameraEvidence { confidence: Single::from_u64(0), call_index: 0, strong: false }
    }
}

/// The distance between two points.
pub open spec fn distance_between(a: (Single, Single), b: (Single, Single)) -> Single {
    let dx = a.0.minus(b.0);
    let dy = a.1.minus(b.1);
    dx.times(dx).plus(dy.times(dy)).square_root()
}

/// The distance between two points.
pub fn distance(a: (Single, Single), b: (Single, Single)) -> (r: Single)
    ensures
        r == distance_between(a, b),
{
    let dx = a.0.minus(b.0);
    let dy = a.1.minus(b.1);
    dx.times(dx).plus(dy.times(dy)).square_root()
}

/// How badly a candidate fits: its distance from the expected place, or its lack
/// of confidence where none is expected.
pub open spec fn candidate_score(d: Detection, predicted: Option<(Single, Single)>) -> Single {
    match predicted {
        Some(p) => distance_between((d.center_x, d.center_y), p),
        None => Single::natural(1).minus(d.confidence),
    }
}

/// The keys by which a candidate is chosen: how badly it fits, and then its
/// confidence, the higher first.
pub open spec fn candidate_keys(
    candidates: Seq<Detection>,
    predicted: Option<(Single, Single)>,
) -> Seq<(int, int)> {
    candidates.map_values(
        |d: Detection| (candidate_score(d, predicted).total_rank(), -d.confidence.total_rank()),
    )
}

/// The candidate that fits best, if there is any.
pub open spec fn best_candidate(
    candidates: Seq<Detection>,
    predicted: Option<(Single, Single)>,
) -> Option<Detection> {
    if candidates.len() == 0 {
        None
    } else {
        Some(candidates[first_least(candidate_keys(candidates, predicted))])
    }
}

fn score(d: &Detection, predicted: Option<(Single, Single)>) -> (r: Single)
    ensures
        r == candidate_score(*d, predicted),
{
    match predicted {
        Some(p) => distance((d.center_x, d.center_y), p),
        None => Single::from_u64(1).minus(d.confidence),
    }
}

/// Chooses the candidate that fits best; of several that fit alike the most
/// confident, and of several such the first.
pub fn choose_candidate(candidates: &[Detection], predicted: Option<(Single, Single)>) -> (r: Option<
    Detection,
>)
    ensures
        r == best_candidate(candidates@, predicted),
{
    if candidates.len() == 0 {
        return None;
    }
    let ghost keys = candidate_keys(candidates@, predicted);
    let mut best: usize = 0;
    let mut least = score(&candidates[0], predicted);
    let mut i: usize = 1;
    while i < candidates.len()
        invariant
            1 <= i <= candidates@.len(),
            keys == candidate_keys(candidates@, predicted),
            best < i,
            best == first_least(keys.take(i as int)),
            least == candidate_score(candidates@[best as int], predicted),
        decreases candidates@.len() - i,
    {
        let s = score(&candidates[i], predicted);
        proof {
            lemma_first_least_step(keys, i as int);
        }
        if s.total_before(least) || (!least.total_before(s)
            && candidates[best].confidence.total_before(candidates[i].confidence)) {
            best = i;
            least = s;
        }
        i = i + 1;
    }
    proof {
        assert(keys.take(i as int) =~= keys);
    }
    Some(candidates[best])
}

/// No candidate fits better than the chosen one, and none that fits alike is more
/// confident.
pub proof fn law_chosen_candidate_fits_best(
    candidates: Seq<Detection>,
    predicted: Option<(Single, Single)>,
    i: int,
)
    requires
        0 <= i < candidates.len(),
    ensures
        best_candidate(candidates, predicted) matches Some(c) && candidates.contains(c) && {
            let mine = candidate_score(c, predicted).total_rank();
            let theirs = candidate_score(candidates[i], predicted).total_rank();
            mine < theirs || (mine == theirs && candidates[i].confidence.total_rank()
                <= c.confidence.total_rank())
        },
{
    let keys = candidate_keys(candidates, predicted);
    lemma_first_least(keys);
    assert(!key_before(keys[i], keys[first_least(keys)]));
    assert(candidates.contains(candidates[first_least(keys)]));
}

/// What the guard remembers of the two cameras.
#[derive(Clone, Copy, Debug, PartialEq, Eq)]
pub struct CandidateGuard {
    pub provisional: [ProvisionalState; 2],
    pub cross_camera: [CrossCameraEvidence; 2],
    pub call_index: u64,
}

/// What the guard remembers, as mathematical values.
pub struct GuardModel {
    pub provisional: Seq<ProvisionalState>,
    pub evidence: Seq<CrossCameraEvidence>,
    pub call_index: u64,
}

impl View for CandidateGuard {
    type V = GuardModel;

    open spec fn view(&self) -> GuardModel {
        GuardModel {
            provisional: self.provisional@,
            evidence: self.cross_camera@,
            call_index: self.call_index,
        }
    }
}

/// One more, up to the largest number.
pub open spec fn one_more(n: u8) -> u8 {
    if n == u8::MAX {
        n
    } else {
        (n + 1) as u8
    }
}

/// A candidate outside after it showed up at a place: near enough to where it was
/// last seen it is confirmed, and counts as stationary if it hardly moved;
/// otherwise it is a new one.
pub open spec fn followed(state: ProvisionalState, at: (Single, Single)) -> ProvisionalState {
    let linked = state.last matches Some(last) && distance_between(last, at).at_most(
        Single { bits: PROVISIONAL_LINK_DISTANCE },
    );
    let still = state.last matches Some(last) && distance_between(last, at).at_most(
        Single { bits: PROVISIONAL_MIN_MOTION },
    );
    ProvisionalState {
        last: Some(at),
        confirmations: if linked {
            one_more(state.confirmations)
        } else {
            1
        },
        stationary: if linked && still {
            one_more(state.stationary)
        } else {
            0
        },
    }
}

impl GuardModel {
    /// Both cameras have a place in both tables.
    pub open spec fn well_formed(self) -> bool {
        &&& self.provisional.len() == 2
        &&& self.evidence.len() == 2
        &&& forall|i: int|
            0 <= i < 2 ==> (#[trigger] self.provisional[i]).stationary < STATIONARY_OUTSIDE_LIMIT
    }

    /// The camera's candidate outside is this one.
    pub open spec fn with_provisional(
        self,
        camera: CameraId,
        state: ProvisionalState,
    ) -> GuardModel {
        GuardModel { provisional: self.provisional.update(camera.index(), state), ..self }
    }

    /// A ball of that confidence was trusted in this call.
    pub open spec fn with_evidence(
        self,
        camera: CameraId,
        confidence: Single,
        strong: bool,
    ) -> GuardModel {
        GuardModel {
            evidence: self.evidence.update(
                camera.index(),
                CrossCameraEvidence { confidence, call_index: self.call_index, strong },
            ),
            ..self
        }
    }

    /// The other camera recently had a ball on the field that is better by the
    /// margin.
    pub open spec fn outshone(self, camera: CameraId, confidence: Single) -> bool {
        let other = self.evidence[camera.other().index()];
        &&& other.strong
        &&& self.call_index <= other.call_index + CROSS_CAMERA_MAX_AGE_CALLS
        &&& confidence.plus(Single { bits: CROSS_CAMERA_CONFIDENCE_MARGIN }).below(
            other.confidence,
        )
    }

    /// The judgement on the best candidate on the field and the best one outside.
    pub open spec fn judged(
        self,
        camera: CameraId,
        inside: Option<Detection>,
        outside: Option<Detection>,
        predicted: Option<(Single, Single)>,
    ) -> (GuardModel, Option<Detection>, BallDecision) {
        let forgotten = self.with_provisional(camera, ProvisionalState::empty());
        match (inside, outside, predicted) {
            (Some(ball), _, _) => (
                forgotten.with_evidence(camera, ball.confidence, true),
                Some(ball),
                BallDecision::StrongInside,
            ),
            (None, None, _) => (self, None, BallDecision::RejectedNoTrajectory),
            (None, Some(_), None) => (forgotten, None, BallDecision::RejectedNoTrajectory),
            (None, Some(ball), Some(p)) => self.judged_outside(camera, ball, p),
        }
    }

    /// The judgement on a candidate outside.
    pub open spec fn judged_outside(
        self,
        camera: CameraId,
        ball: Detection,
        predicted: (Single, Single),
    ) -> (GuardModel, Option<Detection>, BallDecision) {
        let forgotten = self.with_provisional(camera, ProvisionalState::empty());
        let at = (ball.center_x, ball.center_y);
        let state = followed(self.provisional[camera.index()], at);
        let farthest = Single { bits: PROVISIONAL_MAX_PREDICTION_DISTANCE };
        if farthest.below(distance_between(at, predicted)) {
            (forgotten, None, BallDecision::RejectedTrajectoryGap)
        } else if self.outshone(camera, ball.confidence) {
            (self, None, BallDecision::RejectedCrossCamera)
        } else if state.stationary >= STATIONARY_OUTSIDE_LIMIT {
            (forgotten, None, BallDecision::RejectedStationary)
        } else if state.confirmations < PROVISIONAL_CONFIRMATIONS {
            (
                self.with_provisional(camera, state),
                None,
                BallDecision::RejectedNoTrajectory,
            )
        } else {
            (
                self.with_provisional(camera, state).with_evidence(
                    camera,
                    ball.confidence,
                    false,
                ),
                Some(ball),
                BallDecision::PromotedOutside,
            )
        }
    }
}

impl CandidateGuard {
    /// A guard that has seen nothing.
    pub fn new() -> (r: CandidateGuard)
        ensures
            r@ == (GuardModel {
                provisional: seq![ProvisionalState::empty(), ProvisionalState::empty()],
                evidence: seq![CrossCameraEvidence::empty(), CrossCameraEvidence::empty()],
                call_index: 0,
            }),
            r@.well_formed(),
    {
        let p = ProvisionalState::new();
        let e = CrossCameraEvidence::new();
        let r = CandidateGuard { provisional: [p, p], cross_camera: [e, e], call_index: 0 };
        assert(r.provisional@ =~= seq![ProvisionalState::empty(), ProvisionalState::empty()]);
        assert(r.cross_camera@ =~= seq![CrossCameraEvidence::empty(), CrossCameraEvidence::empty()]);
        r
    }

    fn follow(state: ProvisionalState, at: (Single, Single)) -> (r: ProvisionalState)
        ensures
            r == followed(state, at),
    {
        match state.last {
            Some(last) => {
                let moved = distance(last, at);
                if moved.at_most(Single::from_bits(PROVISIONAL_LINK_DISTANCE)) {
                    ProvisionalState {
                        last: Some(at),
                        confirmations: state.confirmations.saturating_add(1),
                        stationary: if moved.at_most(Single::from_bits(PROVISIONAL_MIN_MOTION)) {
                            state.stationary.saturating_add(1)
                        } else {
                            0
                        },
                    }
                } else {
                    ProvisionalState { last: Some(at), confirmations: 1, stationary: 0 }
                }
            },
            None => ProvisionalState { last: Some(at), confirmations: 1, stationary: 0 },
        }
    }

    fn judge_outside(
        &mut self,
        camera: CameraId,
        ball: Detection,
        predicted: (Single, Single),
    ) -> (r: (Option<Detection>, BallDecision))
        ensures
            (final(self)@, r.0, r.1) == old(self)@.judged_outside(camera, ball, predicted),
            old(self)@.well_formed() ==> final(self)@.well_formed(),
    {
        let idx = camera_index(camera);
        let at = (ball.center_x, ball.center_y);
        if Single::from_bits(PROVISIONAL_MAX_PREDICTION_DISTANCE).below(distance(at, predicted)) {
            self.provisional[idx] = ProvisionalState::new();
            return (None, BallDecision::RejectedTrajectoryGap);
        }
        let other = self.cross_camera[other_camera_index(camera)];
        if other.strong && self.call_index.saturating_sub(other.call_index)
            <= CROSS_CAMERA_MAX_AGE_CALLS && ball.confidence.plus(
            Single::from_bits(CROSS_CAMERA_CONFIDENCE_MARGIN),
        ).below(other.confidence) {
            return (None, BallDecision::RejectedCrossCamera);
        }
        let state = CandidateGuard::follow(self.provisional[idx], at);
        if state.stationary >= STATIONARY_OUTSIDE_LIMIT {
            self.provisional[idx] = ProvisionalState::new();
            return (None, BallDecision::RejectedStationary);
        }
        self.provisional[idx] = state;
        if state.confirmations < PROVISIONAL_CONFIRMATIONS {
            return (None, BallDecision::RejectedNoTrajectory);
        }
        self.cross_camera[idx] =
        CrossCameraEvidence {
            confidence: ball.confidence,
            call_index: self.call_index,
            strong: false,
        };
        (Some(ball), BallDecision::PromotedOutside)
    }

    /// Judges the best candidate on the field and the best one outside.
    pub fn judge(
        &mut self,
        camera: CameraId,
        inside: Option<Detection>,
        outside: Option<Detection>,
        predicted: Option<(Single, Single)>,
    ) -> (r: (Option<Detection>, BallDecision))
        ensures
            (final(self)@, r.0, r.1) == old(self)@.judged(camera, inside, outside, predicted),
            old(self)@.well_formed() ==> final(self)@.well_formed(),
    {
        let idx = camera_index(camera);
        if let Some(ball) = inside {
            self.provisional[idx] = ProvisionalState::new();
            self.cross_camera[idx] =
            CrossCameraEvidence {
                confidence: ball.confidence,
                call_index: self.call_index,
                strong: true,
            };
            return (Some(ball), BallDecision::StrongInside);
        }
        let ball = match outside {
            Some(ball) => ball,
            None => {
                return (None, BallDecision::RejectedNoTrajectory);
            },
        };
        match predicted {
            Some(p) => self.judge_outside(camera, ball, p),
            None => {
                self.provisional[idx] = ProvisionalState::new();
                (None, BallDecision::RejectedNoTrajectory)
            },
        }
    }
}

/// A judgement keeps the guard well formed, and touches neither the other camera
/// nor the number of the call.
pub proof fn law_judgement_stays_in_its_camera(
    guard: GuardModel,
    camera: CameraId,
    inside: Option<Detection>,
    outside: Option<Detection>,
    predicted: Option<(Single, Single)>,
)
    requires
        guard.well_formed(),
    ensures
        ({
            let after = guard.judged(camera, inside, outside, predicted).0;
            let other = camera.other().index();
            &&& after.well_formed()
            &&& after.provisional[other] == guard.provisional[other]
            &&& after.evidence[other] == guard.evidence[other]
            &&& after.call_index == guard.call_index
        }),
{
}

/// A ball is accepted exactly where the decision says so, it is one of the two
/// that were put forward, and one on the field always is.
pub proof fn law_acceptance_is_decided(
    guard: GuardModel,
    camera: CameraId,
    inside: Option<Detection>,
    outside: Option<Detection>,
    predicted: Option<(Single, Single)>,
)
    ensures
        ({
            let (_, accepted, decision) = guard.judged(camera, inside, outside, predicted);
            &&& accepted is Some <==> (decision == BallDecision::StrongInside || decision
                == BallDecision::PromotedOutside)
            &&& accepted is Some ==> accepted == inside || accepted == outside
            &&& inside is Some ==> accepted == inside && decision == BallDecision::StrongInside
        }),
{
}

/// A rejected candidate leaves no evidence.
pub proof fn law_rejection_leaves_no_evidence(
    guard: GuardModel,
    camera: CameraId,
    inside: Option<Detection>,
    outside: Option<Detection>,
    predicted: Option<(Single, Single)>,
)
    requires
        guard.judged(camera, inside, outside, predicted).1 is None,
    ensures
        guard.judged(camera, inside, outside, predicted).0.evidence == guard.evidence,
{
}

/// A ball outside the field is accepted only where a trajectory leads to it, an
/// earlier call saw it near by, and the other camera has no better one.
pub proof fn law_outside_ball_needs_trajectory(
    guard: GuardModel,
    camera: CameraId,
    outside: Option<Detection>,
    predicted: Option<(Single, Single)>,
)
    requires
        guard.judged(camera, None, outside, predicted).1 is Some,
    ensures
        outside is Some,
        predicted is Some,
        ({
            let ball = outside->0;
            let at = (ball.center_x, ball.center_y);
            let before = guard.provisional[camera.index()];
            let farthest = Single { bits: PROVISIONAL_MAX_PREDICTION_DISTANCE };
            &&& !farthest.below(distance_between(at, predicted->0))
            &&& before.confirmations >= 1
            &&& before.last matches Some(last) && distance_between(last, at).at_most(
                Single { bits: PROVISIONAL_LINK_DISTANCE },
            )
            &&& !guard.outshone(camera, ball.confidence)
        }),
{
}

/// Of several candidates that are as good as each other the first is chosen: every one
/// before the chosen one fits worse, or fits alike and is less confident.
pub proof fn law_first_of_the_best_is_chosen(
    candidates: Seq<Detection>,
    predicted: Option<(Single, Single)>,
) -> (k: int)
    requires
        candidates.len() > 0,
    ensures
        0 <= k < candidates.len(),
        best_candidate(candidates, predicted) == Some(candidates[k]),
        forall|j: int|
            0 <= j < k ==> {
                let mine = candidate_score(candidates[k], predicted).total_rank();
                let theirs = candidate_score(#[trigger] candidates[j], predicted).total_rank();
                mine < theirs || (mine == theirs && candidates[j].confidence.total_rank()
                    < candidates[k].confidence.total_rank())
            },
{
    let keys = candidate_keys(candidates, predicted);
    lemma_first_least(keys);
    let k = first_least(keys);
    assert forall|j: int| 0 <= j < k implies {
        let mine = candidate_score(candidates[k], predicted).total_rank();
        let theirs = candidate_score(#[trigger] candidates[j], predicted).total_rank();
        mine < theirs || (mine == theirs && candidates[j].confidence.total_rank()
            < candidates[k].confidence.total_rank())
    } by {
        assert(key_before(keys[k], keys[j]));
    }
    k
}

} // verus!
