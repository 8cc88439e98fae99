//! When a reasoner is asked, and what its answer has to pass.

use crate::ball_recovery::{
    BallRecoveryAnchor, BallRecoveryBounds, BallRecoveryCandidate, BallRecoveryHypothesis,
    BallRecoveryReasoner, BallRecoveryReasonerError, BallRecoveryRequest, HypothesisModel,
    WorldState,
};
use crate::binary::double::Double;
use crate::binary::single::Single;
use vstd::prelude::*;

verus! {

/// Half a turn in radians.
pub const PI: u32 = 0x4049_0fdb;

/// A turn in radians.
pub const TAU: u32 = 0x40c9_0fdb;

/// Degrees in a radian.
pub const DEGREES: u32 = 0x4265_2ee1;

/// When a reasoner is asked, and how its answer is tested.
#[derive(Clone, Copy, Debug, PartialEq, Eq, Structural)]
pub struct BallRecoveryConfig {
    /// Frames without a ball before the first question.
    pub min_uncertain_frames: u64,
    /// Frames between two questions in one gap.
    pub retry_interval_frames: u64,
    pub min_reasoner_confidence: Single,
    pub max_speed_deg_per_s: Single,
    pub max_interpolation_error_deg: Single,
    /// From how many frames on a candidate that does not move is rejected; zero for
    /// never.
    pub stationary_reject_observations: u32,
}

impl BallRecoveryConfig {
    /// A ball has to be gone for six frames, and twelve frames lie between two
    /// questions. Confidence 0.65, 178 degrees per second, 20 degrees off the path
    /// and seven frames without motion are the limits.
    pub open spec fn standard() -> BallRecoveryConfig {
        BallRecoveryConfig {
            min_uncertain_frames: 6,
            retry_interval_frames: 12,
            min_reasoner_confidence: Single { bits: 0x3f26_6666 },
            max_speed_deg_per_s: Single { bits: 0x4332_0000 },
            max_interpolation_error_deg: Single { bits: 0x41a0_0000 },
            stationary_reject_observations: 8,
        }
    }
}

impl Default for BallRecoveryConfig {
    fn default() -> (r: BallRecoveryConfig)
        ensures
            r == BallRecoveryConfig::standard(),
    {
        BallRecoveryConfig {
            min_uncertain_frames: 6,
            retry_interval_frames: 12,
            min_reasoner_confidence: Single::from_bits(0x3f26_6666),
            max_speed_deg_per_s: Single::from_bits(0x4332_0000),
            max_interpolation_error_deg: Single::from_bits(0x41a0_0000),
            stationary_reject_observations: 8,
        }
    }
}

/// `a` brought into one turn: the remainder, or a turn more where that is negative.
pub open spec fn within_turn(a: Single) -> Single {
    let r = a.remainder(Single { bits: TAU });
    if r.below(Single::natural(0)) {
        r.plus(Single { bits: TAU })
    } else {
        r
    }
}

/// The way from one yaw to another, not more than half a turn.
pub open spec fn yaw_between(a: Single, b: Single) -> Single {
    within_turn(b.minus(a).plus(Single { bits: PI })).minus(Single { bits: PI })
}

/// `d` is an angular distance in degrees, given what the hypotenuse of the two
/// parts is taken to be.
pub open spec fn distance_measured<H: Fn(Single, Single) -> Single>(
    hypot: H,
    yaw_a: Single,
    pitch_a: Single,
    yaw_b: Single,
    pitch_b: Single,
    d: Single,
) -> bool {
    exists|h: Single|
        #![trigger hypot.ensures((yaw_between(yaw_a, yaw_b), pitch_b.minus(pitch_a)), h)]
        hypot.ensures((yaw_between(yaw_a, yaw_b), pitch_b.minus(pitch_a)), h) && d == h.times(
            Single { bits: DEGREES },
        )
}

/// The angular distance between two directions in degrees.
pub fn angular_distance_deg<H: Fn(Single, Single) -> Single>(
    yaw_a: Single,
    pitch_a: Single,
    yaw_b: Single,
    pitch_b: Single,
    hypot: &H,
) -> (r: Single)
    requires
        forall|x: Single, y: Single| hypot.requires((x, y)),
    ensures
        distance_measured(*hypot, yaw_a, pitch_a, yaw_b, pitch_b, r),
{
    let pi = Single::from_bits(PI);
    let tau = Single::from_bits(TAU);
    let rest = yaw_b.minus(yaw_a).plus(pi).remainder(tau);
    let turn = if rest.below(Single::from_u64(0)) {
        rest.plus(tau)
    } else {
        rest
    };
    let dyaw = turn.minus(pi);
    let dpitch = pitch_b.minus(pitch_a);
    hypot(dyaw, dpitch).times(Single::from_bits(DEGREES))
}

/// Whether a ball can have come from the one place to the other, given how far
/// they lie apart in degrees.
pub open spec fn speed_plausible(
    from_frame: u64,
    to_frame: u64,
    distance: Single,
    fps: Double,
    max_speed_deg_per_s: Single,
) -> bool {
    let seconds = Double::natural((to_frame - from_frame) as nat).over(fps);
    &&& !fps.at_most(Double::natural(0))
    &&& to_frame > from_frame
    &&& Double::widened(distance).over(seconds).at_most(Double::widened(max_speed_deg_per_s))
}

/// Whether a ball can have come from the one place to the other: in the time
/// between the frames, not faster than allowed.
pub fn speed_is_plausible(
    from_frame: u64,
    to_frame: u64,
    distance: Single,
    fps: Double,
    max_speed_deg_per_s: Single,
) -> (r: bool)
    ensures
        r == speed_plausible(from_frame, to_frame, distance, fps, max_speed_deg_per_s),
{
    if fps.at_most(Double::from_u64(0)) || to_frame <= from_frame {
        return false;
    }
    let seconds = Double::from_u64(to_frame - from_frame).over(fps);
    Double::from_single(distance).over(seconds).at_most(Double::from_single(max_speed_deg_per_s))
}

/// The first candidate with that number.
pub open spec fn candidate_with_id(candidates: Seq<BallRecoveryCandidate>, id: u32) -> Option<
    BallRecoveryCandidate,
>
    decreases candidates.len(),
{
    if candidates.len() == 0 {
        None
    } else if candidates.first().id == id {
        Some(candidates.first())
    } else {
        candidate_with_id(candidates.drop_first(), id)
    }
}

/// The candidate that an answer chooses, if there is one.
pub open spec fn chosen_candidate(
    request: BallRecoveryRequest,
    candidate_id: Option<u32>,
) -> Option<BallRecoveryCandidate> {
    match candidate_id {
        Some(id) => candidate_with_id(request.candidates@, id),
        None => None,
    }
}

/// Finds the candidate that an answer chooses.
pub fn find_candidate(request: &BallRecoveryRequest, candidate_id: Option<u32>) -> (r: Option<
    BallRecoveryCandidate,
>)
    ensures
        r == chosen_candidate(*request, candidate_id),
{
    let id = match candidate_id {
        Some(id) => id,
        None => {
            return None;
        },
    };
    let ghost all = request.candidates@;
    let mut i: usize = 0;
    proof {
        assert(all.skip(0) =~= all);
    }
    while i < request.candidates.len()
        invariant
            i <= all.len(),
            all == request.candidates@,
            candidate_id == Some(id),
            candidate_with_id(all, id) == candidate_with_id(all.skip(i as int), id),
        decreases all.len() - i,
    {
        proof {
            assert(all.skip(i as int).drop_first() =~= all.skip(i + 1));
        }
        if request.candidates[i].id == id {
            return Some(request.candidates[i]);
        }
        i = i + 1;
    }
    None
}

/// The frame lies between two trusted balls, the later of which is later.
pub open spec fn bracketed(
    previous: BallRecoveryAnchor,
    future: BallRecoveryAnchor,
    frame_index: u64,
) -> bool {
    &&& future.frame_index > previous.frame_index
    &&& previous.frame_index <= frame_index <= future.frame_index
}

/// How far along the way between two trusted balls a frame lies.
pub open spec fn fraction_of_way(
    previous: BallRecoveryAnchor,
    future: BallRecoveryAnchor,
    frame_index: u64,
) -> Single {
    Single::natural((frame_index - previous.frame_index) as nat).over(
        Single::natural((future.frame_index - previous.frame_index) as nat),
    )
}

/// `from + (to - from) * fraction`.
pub open spec fn interpolated(from: Single, to: Single, fraction: Single) -> Single {
    from.plus(to.minus(from).times(fraction))
}

/// How far the chosen candidate lies, in degrees, from the trusted balls before and
/// after it, and from the straight way between them.
#[derive(Clone, Copy, Debug, PartialEq, Eq)]
pub struct RecoveryDistances {
    pub previous: Option<Single>,
    pub future: Option<Single>,
    pub path: Option<Single>,
}

impl RecoveryDistances {
    /// Every distance that means anything for the chosen candidate is there, and no
    /// other.
    pub open spec fn complete_for(
        self,
        request: BallRecoveryRequest,
        candidate_id: Option<u32>,
    ) -> bool {
        chosen_candidate(request, candidate_id) matches Some(c) ==> {
            &&& self.previous is Some <==> request.previous_trusted is Some
            &&& self.future is Some <==> request.future_trusted is Some
            &&& self.path is Some <==> (request.previous_trusted matches Some(p)
                && request.future_trusted matches Some(f) && bracketed(p, f, c.frame_index))
        }
    }
}

/// The distances are those of the chosen candidate, each where it means anything.
pub open spec fn distances_measured<H: Fn(Single, Single) -> Single>(
    request: BallRecoveryRequest,
    candidate_id: Option<u32>,
    hypot: H,
    d: RecoveryDistances,
) -> bool {
    match chosen_candidate(request, candidate_id) {
        None => d.previous is None && d.future is None && d.path is None,
        Some(c) => {
            &&& match (request.previous_trusted, d.previous) {
                (Some(p), Some(x)) => distance_measured(hypot, p.yaw, p.pitch, c.yaw, c.pitch, x),
                (None, None) => true,
                _ => false,
            }
            &&& match (request.future_trusted, d.future) {
                (Some(f), Some(x)) => distance_measured(hypot, c.yaw, c.pitch, f.yaw, f.pitch, x),
                (None, None) => true,
                _ => false,
            }
            &&& match (request.previous_trusted, request.future_trusted, d.path) {
                (Some(p), Some(f), Some(x)) => {
                    let along = fraction_of_way(p, f, c.frame_index);
                    &&& bracketed(p, f, c.frame_index)
                    &&& distance_measured(
                        hypot,
                        c.yaw,
                        c.pitch,
                        interpolated(p.yaw, f.yaw, along),
                        interpolated(p.pitch, f.pitch, along),
                        x,
                    )
                },
                (Some(p), Some(f), None) => !bracketed(p, f, c.frame_index),
                (_, _, None) => true,
                _ => false,
            }
        },
    }
}

/// Measures how far the chosen candidate lies from the trusted balls and from the
/// way between them.
pub fn measure_distances<H: Fn(Single, Single) -> Single>(
    request: &BallRecoveryRequest,
    candidate_id: Option<u32>,
    hypot: &H,
) -> (r: RecoveryDistances)
    requires
        forall|x: Single, y: Single| hypot.requires((x, y)),
    ensures
        distances_measured(*request, candidate_id, *hypot, r),
{
    let c = match find_candidate(request, candidate_id) {
        Some(c) => c,
        None => {
            return RecoveryDistances { previous: None, future: None, path: None };
        },
    };
    let previous = match request.previous_trusted {
        Some(p) => Some(angular_distance_deg(p.yaw, p.pitch, c.yaw, c.pitch, hypot)),
        None => None,
    };
    let future = match request.future_trusted {
        Some(f) => Some(angular_distance_deg(c.yaw, c.pitch, f.yaw, f.pitch, hypot)),
        None => None,
    };
    let path = match (request.previous_trusted, request.future_trusted) {
        (Some(p), Some(f)) => if f.frame_index > p.frame_index && c.frame_index >= p.frame_index
            && c.frame_index <= f.frame_index {
            let fraction = Single::from_u64(c.frame_index - p.frame_index).over(
                Single::from_u64(f.frame_index - p.frame_index),
            );
            let yaw = p.yaw.plus(f.yaw.minus(p.yaw).times(fraction));
            let pitch = p.pitch.plus(f.pitch.minus(p.pitch).times(fraction));
            Some(angular_distance_deg(c.yaw, c.pitch, yaw, pitch, hypot))
        } else {
            None
        },
        _ => None,
    };
    RecoveryDistances { previous, future, path }
}

/// The verdict on an answer.
#[derive(Clone, Copy, Debug, PartialEq, Eq, Structural)]
pub enum BallRecoveryVerdict {
    NothingSelected,
    UnknownCandidate,
    LowConfidence,
    OutOfBounds,
    Stationary,
    ImplausibleFromPrevious,
    ImplausibleToFuture,
    OffThePath,
    Accepted,
}

impl BallRecoveryVerdict {
    /// The verdict in words.
    pub open spec fn text(self) -> Seq<char> {
        match self {
            BallRecoveryVerdict::NothingSelected => "reasoner selected none"@,
            BallRecoveryVerdict::UnknownCandidate => "reasoner selected an unknown candidate"@,
            BallRecoveryVerdict::LowConfidence => "reasoner confidence below threshold"@,
            BallRecoveryVerdict::OutOfBounds => "candidate outside panorama bounds"@,
            BallRecoveryVerdict::Stationary => "stationary/spare-ball candidate rejected"@,
            BallRecoveryVerdict::ImplausibleFromPrevious =>
                "trajectory from previous trusted ball is implausible"@,
            BallRecoveryVerdict::ImplausibleToFuture =>
                "trajectory to future trusted ball is implausible"@,
            BallRecoveryVerdict::OffThePath =>
                "candidate inconsistent with bidirectional trajectory"@,
            BallRecoveryVerdict::Accepted => "accepted"@,
        }
    }

    /// The verdict in words.
    pub fn reason(self) -> (r: &'static str)
        ensures
            r@ == self.text(),
    {
        match self {
            BallRecoveryVerdict::NothingSelected => "reasoner selected none",
            BallRecoveryVerdict::UnknownCandidate => "reasoner selected an unknown candidate",
            BallRecoveryVerdict::LowConfidence => "reasoner confidence below threshold",
            BallRecoveryVerdict::OutOfBounds => "candidate outside panorama bounds",
            BallRecoveryVerdict::Stationary => "stationary/spare-ball candidate rejected",
            BallRecoveryVerdict::ImplausibleFromPrevious =>
                "trajectory from previous trusted ball is implausible",
            BallRecoveryVerdict::ImplausibleToFuture =>
                "trajectory to future trusted ball is implausible",
            BallRecoveryVerdict::OffThePath =>
                "candidate inconsistent with bidirectional trajectory",
            BallRecoveryVerdict::Accepted => "accepted",
        }
    }
}

/// A direction lies outside the bounds.
pub open spec fn out_of_bounds(bounds: BallRecoveryBounds, yaw: Single, pitch: Single) -> bool {
    ||| yaw.below(bounds.yaw_min)
    ||| bounds.yaw_max.below(yaw)
    ||| pitch.below(bounds.pitch_min)
    ||| bounds.pitch_max.below(pitch)
}

impl BallRecoveryConfig {
    /// The verdict on an answer: the first test that it fails, or acceptance.
    pub open spec fn verdict(
        self,
        request: BallRecoveryRequest,
        candidate_id: Option<u32>,
        confidence: Single,
        d: RecoveryDistances,
    ) -> BallRecoveryVerdict {
        match (candidate_id, chosen_candidate(request, candidate_id)) {
            (None, _) => BallRecoveryVerdict::NothingSelected,
            (Some(_), None) => BallRecoveryVerdict::UnknownCandidate,
            (Some(_), Some(c)) => if !(confidence.value() is Finite) || confidence.below(
                self.min_reasoner_confidence,
            ) {
                BallRecoveryVerdict::LowConfidence
            } else if request.bounds matches Some(b) && out_of_bounds(b, c.yaw, c.pitch) {
                BallRecoveryVerdict::OutOfBounds
            } else if 0 < self.stationary_reject_observations <= c.stationary_observations {
                BallRecoveryVerdict::Stationary
            } else if (request.previous_trusted matches Some(p) && d.previous matches Some(x)
                && !speed_plausible(
                p.frame_index,
                c.frame_index,
                x,
                request.fps,
                self.max_speed_deg_per_s,
            )) {
                BallRecoveryVerdict::ImplausibleFromPrevious
            } else if (request.future_trusted matches Some(f) && d.future matches Some(x)
                && !speed_plausible(
                c.frame_index,
                f.frame_index,
                x,
                request.fps,
                self.max_speed_deg_per_s,
            )) {
                BallRecoveryVerdict::ImplausibleToFuture
            } else if d.path matches Some(x) && self.max_interpolation_error_deg.below(x) {
                BallRecoveryVerdict::OffThePath
            } else {
                BallRecoveryVerdict::Accepted
            },
        }
    }

    /// Tests an answer, given how far its candidate lies from the trusted balls.
    pub fn judge(
        &self,
        request: &BallRecoveryRequest,
        candidate_id: Option<u32>,
        confidence: Single,
        d: &RecoveryDistances,
    ) -> (r: BallRecoveryVerdict)
        requires
            d.complete_for(*request, candidate_id),
        ensures
            r == self.verdict(*request, candidate_id, confidence, *d),
    {
        if candidate_id.is_none() {
            return BallRecoveryVerdict::NothingSelected;
        }
        let c = match find_candidate(request, candidate_id) {
            Some(c) => c,
            None => {
                return BallRecoveryVerdict::UnknownCandidate;
            },
        };
        if !confidence.is_finite() || confidence.below(self.min_reasoner_confidence) {
            return BallRecoveryVerdict::LowConfidence;
        }
        if let Some(b) = request.bounds {
            if c.yaw.below(b.yaw_min) || b.yaw_max.below(c.yaw) || c.pitch.below(b.pitch_min)
                || b.pitch_max.below(c.pitch) {
                return BallRecoveryVerdict::OutOfBounds;
            }
        }
        if self.stationary_reject_observations > 0 && c.stationary_observations
            >= self.stationary_reject_observations {
            return BallRecoveryVerdict::Stationary;
        }
        if let (Some(p), Some(x)) = (request.previous_trusted, d.previous) {
            if !speed_is_plausible(
                p.frame_index,
                c.frame_index,
                x,
                request.fps,
                self.max_speed_deg_per_s,
            ) {
                return BallRecoveryVerdict::ImplausibleFromPrevious;
            }
        }
        if let (Some(f), Some(x)) = (request.future_trusted, d.future) {
            if !speed_is_plausible(
                c.frame_index,
                f.frame_index,
                x,
                request.fps,
                self.max_speed_deg_per_s,
            ) {
                return BallRecoveryVerdict::ImplausibleToFuture;
            }
        }
        if let Some(x) = d.path {
            if self.max_interpolation_error_deg.below(x) {
                return BallRecoveryVerdict::OffThePath;
            }
        }
        BallRecoveryVerdict::Accepted
    }
}

/// What was made of an answer.
#[derive(Clone, Debug, PartialEq, Eq)]
pub struct BallRecoveryValidation {
    pub accepted: bool,
    pub candidate_id: Option<u32>,
    pub reason: String,
}

/// What came of one frame.
#[derive(Clone, Debug)]
pub enum BallRecoveryDecision {
    /// The reasoner was not asked.
    NotTriggered,
    /// The reasoner was asked.
    Invoked {
        backend: String,
        request: BallRecoveryRequest,
        hypothesis: BallRecoveryHypothesis,
        validation: BallRecoveryValidation,
        accepted_candidate: Option<BallRecoveryCandidate>,
    },
}

impl BallRecoveryValidation {
    /// The validation that records a verdict.
    pub open spec fn records(self, verdict: BallRecoveryVerdict, candidate_id: Option<u32>) -> bool {
        &&& self.accepted == (verdict == BallRecoveryVerdict::Accepted)
        &&& self.candidate_id == candidate_id
        &&& self.reason@ == verdict.text()
    }
}

impl BallRecoveryConfig {
    /// Tests an answer, and says which candidate is accepted.
    pub fn validate(
        &self,
        request: &BallRecoveryRequest,
        hypothesis: &BallRecoveryHypothesis,
        d: &RecoveryDistances,
    ) -> (r: (BallRecoveryValidation, Option<BallRecoveryCandidate>))
        requires
            d.complete_for(*request, hypothesis.candidate_id),
        ensures
            ({
                let verdict = self.verdict(
                    *request,
                    hypothesis.candidate_id,
                    hypothesis.confidence,
                    *d,
                );
                &&& r.0.records(verdict, hypothesis.candidate_id)
                &&& r.1 == if verdict == BallRecoveryVerdict::Accepted {
                    chosen_candidate(*request, hypothesis.candidate_id)
                } else {
                    None
                }
            }),
    {
        let verdict = self.judge(request, hypothesis.candidate_id, hypothesis.confidence, d);
        let accepted = verdict == BallRecoveryVerdict::Accepted;
        (
            BallRecoveryValidation {
                accepted,
                candidate_id: hypothesis.candidate_id,
                reason: verdict.reason().to_owned(),
            },
            if accepted {
                find_candidate(request, hypothesis.candidate_id)
            } else {
                None
            },
        )
    }

    /// What comes of a question, given the answer and the distances.
    pub open spec fn concluded(
        self,
        backend: Seq<char>,
        request: BallRecoveryRequest,
        answer: Result<BallRecoveryHypothesis, BallRecoveryReasonerError>,
        d: RecoveryDistances,
        r: BallRecoveryDecision,
    ) -> bool {
        &&& r matches BallRecoveryDecision::Invoked {
            backend: b,
            request: q,
            hypothesis,
            validation,
            accepted_candidate,
        }
        &&& b@ == backend
        &&& q == request
        &&& match answer {
            Ok(h) => {
                let verdict = self.verdict(request, h.candidate_id, h.confidence, d);
                &&& hypothesis == h
                &&& validation.records(verdict, h.candidate_id)
                &&& accepted_candidate == if verdict == BallRecoveryVerdict::Accepted {
                    chosen_candidate(request, h.candidate_id)
                } else {
                    None
                }
            },
            Err(e) => {
                &&& hypothesis@ == HypothesisModel::nothing()
                &&& !validation.accepted
                &&& validation.candidate_id is None
                &&& validation.reason@ == e.text()
                &&& accepted_candidate is None
            },
        }
    }

    /// Turns an answer into a decision, given the distances of its candidate.
    pub fn conclude(
        &self,
        backend: String,
        request: BallRecoveryRequest,
        answer: Result<BallRecoveryHypothesis, BallRecoveryReasonerError>,
        d: &RecoveryDistances,
    ) -> (r: BallRecoveryDecision)
        requires
            d.complete_for(request, answer_choice(answer)),
        ensures
            self.concluded(backend@, request, answer, *d, r),
    {
        match answer {
            Ok(hypothesis) => {
                let (validation, accepted_candidate) = self.validate(&request, &hypothesis, d);
                BallRecoveryDecision::Invoked {
                    backend,
                    request,
                    hypothesis,
                    validation,
                    accepted_candidate,
                }
            },
            Err(error) => BallRecoveryDecision::Invoked {
                backend,
                request,
                hypothesis: BallRecoveryHypothesis::none(),
                validation: BallRecoveryValidation {
                    accepted: false,
                    candidate_id: None,
                    reason: error.message(),
                },
                accepted_candidate: None,
            },
        }
    }
}

/// How long the ball has been gone, and when the reasoner was last asked.
#[derive(Clone, Copy, Debug, PartialEq, Eq)]
pub struct RecoveryTrigger {
    pub uncertain_frames: u64,
    pub last_invocation_frame: Option<u64>,
}

impl RecoveryTrigger {
    /// Nothing has happened yet.
    pub open spec fn idle() -> RecoveryTrigger {
        RecoveryTrigger { uncertain_frames: 0, last_invocation_frame: None }
    }

    /// One more frame without a ball.
    pub open spec fn waited(self) -> RecoveryTrigger {
        RecoveryTrigger {
            uncertain_frames: if self.uncertain_frames == u64::MAX {
                u64::MAX
            } else {
                (self.uncertain_frames + 1) as u64
            },
            ..self
        }
    }

    /// The question is due at that frame, which has been counted already.
    pub open spec fn due(self, config: BallRecoveryConfig, frame_index: u64) -> bool {
        &&& self.uncertain_frames >= config.min_uncertain_frames
        &&& self.last_invocation_frame matches Some(last) ==> frame_index - last
            >= config.retry_interval_frames && frame_index > last
    }

    /// The trigger after a frame, and whether the question is asked.
    pub open spec fn stepped(
        self,
        config: BallRecoveryConfig,
        has_ball: bool,
        frame_index: u64,
    ) -> (RecoveryTrigger, bool) {
        if has_ball {
            (RecoveryTrigger::idle(), false)
        } else if self.waited().due(config, frame_index) {
            (
                RecoveryTrigger { last_invocation_frame: Some(frame_index), ..self.waited() },
                true,
            )
        } else {
            (self.waited(), false)
        }
    }

    /// Counts a frame, and says whether the question is asked.
    pub fn step(&mut self, config: &BallRecoveryConfig, has_ball: bool, frame_index: u64) -> (r:
        bool)
        ensures
            (*final(self), r) == old(self).stepped(*config, has_ball, frame_index),
    {
        if has_ball {
            self.uncertain_frames = 0;
            self.last_invocation_frame = None;
            return false;
        }
        self.uncertain_frames = self.uncertain_frames.saturating_add(1);
        if self.uncertain_frames < config.min_uncertain_frames {
            return false;
        }
        if let Some(last) = self.last_invocation_frame {
            let spacing = frame_index.saturating_sub(last);
            let interval: u64 = if config.retry_interval_frames > 1 {
                config.retry_interval_frames
            } else {
                1
            };
            if spacing < interval {
                return false;
            }
        }
        self.last_invocation_frame = Some(frame_index);
        true
    }
}

/// Asks a reasoner when it is time, and tests what it says.
pub struct BallRecoveryEngine<R: BallRecoveryReasoner + ?Sized> {
    pub reasoner: Box<R>,
    pub config: BallRecoveryConfig,
    pub trigger: RecoveryTrigger,
}

impl<R: BallRecoveryReasoner + ?Sized> BallRecoveryEngine<R> {
    /// An engine that has seen nothing.
    pub fn new(reasoner: Box<R>, config: BallRecoveryConfig) -> (r: BallRecoveryEngine<R>)
        ensures
            r.reasoner == reasoner,
            r.config == config,
            r.trigger == RecoveryTrigger::idle(),
    {
        BallRecoveryEngine {
            reasoner,
            config,
            trigger: RecoveryTrigger { uncertain_frames: 0, last_invocation_frame: None },
        }
    }

    /// The reasoner's name.
    pub fn backend_name(&self) -> (r: &str)
        ensures
            self.reasoner.may_be_called(r@),
    {
        self.reasoner.name()
    }

    /// Takes a frame in. A frame with a ball ends the gap; one without may be the
    /// one at which the reasoner is asked.
    pub fn consider<H: Fn(Single, Single) -> Single>(
        &mut self,
        world: &WorldState,
        request: BallRecoveryRequest,
        hypot: &H,
    ) -> (r: BallRecoveryDecision)
        requires
            forall|x: Single, y: Single| hypot.requires((x, y)),
        ensures
            final(self).config == old(self).config,
            ({
                let (trigger, asked) = old(self).trigger.stepped(
                    old(self).config,
                    world.ball is Some,
                    request.current_frame_index,
                );
                let counted = BallRecoveryRequest {
                    uncertain_frames: trigger.uncertain_frames,
                    ..request
                };
                &&& final(self).trigger == trigger
                &&& !asked ==> r is NotTriggered && final(self).reasoner == old(self).reasoner
                &&& asked ==> old(self).answered(
                    counted,
                    *hypot,
                    r,
                    final(self).reasoner.memory(),
                )
            }),
    {
        let has_ball = world.ball.is_some();
        let config = self.config;
        if !self.trigger.step(&config, has_ball, request.current_frame_index) {
            return BallRecoveryDecision::NotTriggered;
        }
        let mut counted = request;
        counted.uncertain_frames = self.trigger.uncertain_frames;
        let backend = self.reasoner.name().to_owned();
        let answer = self.reasoner.reason(&counted);
        let chosen: Option<u32> = match &answer {
            Ok(h) => h.candidate_id,
            Err(_) => None,
        };
        let d = measure_distances(&counted, chosen, hypot);
        config.conclude(backend, counted, answer, &d)
    }
}

/// The candidate that an answer chooses, if there is an answer.
pub open spec fn answer_choice(
    answer: Result<BallRecoveryHypothesis, BallRecoveryReasonerError>,
) -> Option<u32> {
    match answer {
        Ok(h) => h.candidate_id,
        Err(_) => None,
    }
}

impl<R: BallRecoveryReasoner + ?Sized> BallRecoveryEngine<R> {
    /// What comes of a question, put to the reasoner once: an answer that it can give,
    /// with the verdict on it and with what it remembers after that one question.
    pub open spec fn answered<H: Fn(Single, Single) -> Single>(
        self,
        request: BallRecoveryRequest,
        hypot: H,
        r: BallRecoveryDecision,
        memory: Seq<int>,
    ) -> bool {
        exists|
            name: Seq<char>,
            answer: Result<BallRecoveryHypothesis, BallRecoveryReasonerError>,
            d: RecoveryDistances,
        |
            {
                &&& self.reasoner.may_be_called(name)
                &&& self.reasoner.may_answer(request, answer, memory)
                &&& distances_measured(request, answer_choice(answer), hypot, d)
                &&& #[trigger] self.config.concluded(
                    name,
                    request,
                    answer,
                    d,
                    r,
                )
            }
    }
}

/// The trigger after frames without a ball.
pub open spec fn after_frames(
    trigger: RecoveryTrigger,
    config: BallRecoveryConfig,
    frames: Seq<u64>,
) -> RecoveryTrigger
    decreases frames.len(),
{
    if frames.len() == 0 {
        trigger
    } else {
        after_frames(trigger, config, frames.drop_last()).stepped(config, false, frames.last()).0
    }
}

proof fn lemma_frames_counted(config: BallRecoveryConfig, frames: Seq<u64>)
    requires
        frames.len() <= u64::MAX,
    ensures
        after_frames(RecoveryTrigger::idle(), config, frames).uncertain_frames == frames.len(),
    decreases frames.len(),
{
    if frames.len() > 0 {
        lemma_frames_counted(config, frames.drop_last());
    }
}

/// A gap is met with a question only once it has lasted for the set number of
/// frames: none of the frames before asks.
pub proof fn law_short_gap_asks_nothing(config: BallRecoveryConfig, frames: Seq<u64>, frame: u64)
    requires
        frames.len() + 1 < config.min_uncertain_frames,
    ensures
        !after_frames(RecoveryTrigger::idle(), config, frames).stepped(config, false, frame).1,
{
    lemma_frames_counted(config, frames);
}

/// A frame with a ball asks nothing and ends the gap, whatever came before.
pub proof fn law_ball_ends_gap(
    trigger: RecoveryTrigger,
    config: BallRecoveryConfig,
    frame: u64,
)
    ensures
        trigger.stepped(config, true, frame) == (RecoveryTrigger::idle(), false),
{
}

/// After a question, no other is asked in the same gap until the set number of
/// frames has passed, and never at the same frame again.
pub proof fn law_questions_are_spaced(
    trigger: RecoveryTrigger,
    config: BallRecoveryConfig,
    asked_at: u64,
    frames: Seq<u64>,
    i: int,
)
    requires
        trigger.stepped(config, false, asked_at).1,
        0 <= i < frames.len(),
        forall|k: int|
            0 <= k < i ==> (#[trigger] frames[k] <= asked_at || frames[k] - asked_at
                < config.retry_interval_frames),
        frames[i] <= asked_at || frames[i] - asked_at < config.retry_interval_frames,
    ensures
        !after_frames(
            trigger.stepped(config, false, asked_at).0,
            config,
            frames.take(i),
        ).stepped(config, false, frames[i]).1,
{
    lemma_last_question_kept(trigger.stepped(config, false, asked_at).0, config, asked_at, frames, i);
}

proof fn lemma_last_question_kept(
    start: RecoveryTrigger,
    config: BallRecoveryConfig,
    asked_at: u64,
    frames: Seq<u64>,
    i: int,
)
    requires
        start.last_invocation_frame == Some(asked_at),
        0 <= i <= frames.len(),
        forall|k: int|
            0 <= k < i ==> (#[trigger] frames[k] <= asked_at || frames[k] - asked_at
                < config.retry_interval_frames),
    ensures
        after_frames(start, config, frames.take(i)).last_invocation_frame == Some(asked_at),
    decreases i,
{
    if i > 0 {
        lemma_last_question_kept(start, config, asked_at, frames, i - 1);
        assert(frames.take(i).drop_last() =~= frames.take(i - 1));
        assert(frames.take(i).last() == frames[i - 1]);
    }
}

proof fn lemma_found_by_id(candidates: Seq<BallRecoveryCandidate>, id: u32)
    ensures
        candidate_with_id(candidates, id) matches Some(c) ==> candidates.contains(c) && c.id == id,
        candidate_with_id(candidates, id) is None ==> forall|k: int|
            0 <= k < candidates.len() ==> (#[trigger] candidates[k]).id != id,
    decreases candidates.len(),
{
    if candidates.len() > 0 {
        let rest = candidates.drop_first();
        lemma_found_by_id(rest, id);
        if candidates.first().id == id {
            assert(candidates[0] == candidates.first());
        } else {
            assert forall|k: int| 0 <= k < candidates.len() && k > 0 implies candidates[k] == rest[k
                - 1] by {}
            if let Some(c) = candidate_with_id(rest, id) {
                let k = choose|k: int| 0 <= k < rest.len() && rest[k] == c;
                assert(candidates[k + 1] == c);
            } else {
                assert forall|k: int| 0 <= k < candidates.len() implies (
                #[trigger] candidates[k]).id != id by {
                    if k > 0 {
                        assert(rest[k - 1].id != id);
                    }
                }
            }
        }
    }
}

/// A reasoner can have nothing accepted but a candidate that it was offered, under
/// the number that it chose, and in every case the recorded validation says whether
/// one was accepted.
pub proof fn law_accepted_candidate_was_offered(
    config: BallRecoveryConfig,
    backend: Seq<char>,
    request: BallRecoveryRequest,
    answer: Result<BallRecoveryHypothesis, BallRecoveryReasonerError>,
    d: RecoveryDistances,
    r: BallRecoveryDecision,
)
    requires
        config.concluded(backend, request, answer, d, r),
    ensures
        r matches BallRecoveryDecision::Invoked { hypothesis, validation, accepted_candidate, .. }
            && {
            &&& validation.accepted <==> accepted_candidate is Some
            &&& accepted_candidate matches Some(c) ==> request.candidates@.contains(c)
                && hypothesis.candidate_id == Some(c.id)
        },
{
    if let Ok(h) = answer {
        if let Some(id) = h.candidate_id {
            lemma_found_by_id(request.candidates@, id);
        }
    }
}

/// What is accepted has passed every test: the confidence is a number and high
/// enough, the candidate lies in the bounds, it moves, it can be reached from the
/// trusted ball before it and the one after can be reached from it, and it lies near
/// the way between them.
pub proof fn law_accepted_candidate_passed_every_test<H: Fn(Single, Single) -> Single>(
    config: BallRecoveryConfig,
    request: BallRecoveryRequest,
    candidate_id: Option<u32>,
    confidence: Single,
    hypot: H,
    d: RecoveryDistances,
)
    requires
        distances_measured(request, candidate_id, hypot, d),
        config.verdict(request, candidate_id, confidence, d) == BallRecoveryVerdict::Accepted,
    ensures
        chosen_candidate(request, candidate_id) matches Some(c) && {
            let speed = config.max_speed_deg_per_s;
            &&& confidence.value() is Finite && !confidence.below(config.min_reasoner_confidence)
            &&& request.bounds matches Some(b) ==> !out_of_bounds(b, c.yaw, c.pitch)
            &&& config.stationary_reject_observations == 0 || c.stationary_observations
                < config.stationary_reject_observations
            &&& request.previous_trusted matches Some(p) ==> d.previous is Some && speed_plausible(
                p.frame_index,
                c.frame_index,
                d.previous->0,
                request.fps,
                speed,
            )
            &&& request.future_trusted matches Some(f) ==> d.future is Some && speed_plausible(
                c.frame_index,
                f.frame_index,
                d.future->0,
                request.fps,
                speed,
            )
            &&& d.path matches Some(x) ==> !config.max_interpolation_error_deg.below(x)
        },
{
}

/// The reasoner is asked as soon as the gap has lasted for the set number of frames, if
/// it has not been asked in it before.
pub proof fn law_long_gap_asks(config: BallRecoveryConfig, frames: Seq<u64>, frame: u64)
    requires
        frames.len() < u64::MAX,
        frames.len() + 1 >= config.min_uncertain_frames,
        after_frames(RecoveryTrigger::idle(), config, frames).last_invocation_frame is None,
    ensures
        after_frames(RecoveryTrigger::idle(), config, frames).stepped(config, false, frame).1,
{
    lemma_frames_counted(config, frames);
}

/// In a gap that goes on, the reasoner is asked again once the set number of frames has
/// passed since the last question, and it is told how long the gap has lasted.
pub proof fn law_gap_that_goes_on_asks_again(
    trigger: RecoveryTrigger,
    config: BallRecoveryConfig,
    last: u64,
    frame: u64,
)
    requires
        trigger.last_invocation_frame == Some(last),
        trigger.uncertain_frames >= config.min_uncertain_frames,
        frame > last,
        frame - last >= config.retry_interval_frames,
    ensures
        ({
            let (after, asked) = trigger.stepped(config, false, frame);
            &&& asked
            &&& after.last_invocation_frame == Some(frame)
            &&& trigger.uncertain_frames < u64::MAX ==> after.uncertain_frames
                == trigger.uncertain_frames + 1
        }),
{
}

/// The candidate that an answer chooses carries the number that the answer gives; there
/// is one wherever a candidate carries it.
pub proof fn law_chosen_candidate_carries_the_number(
    request: BallRecoveryRequest,
    id: u32,
    k: int,
)
    ensures
        chosen_candidate(request, Some(id)) matches Some(c) ==> c.id == id
            && request.candidates@.contains(c),
        0 <= k < request.candidates@.len() && request.candidates@[k].id == id ==> chosen_candidate(
            request,
            Some(id),
        ) is Some,
        chosen_candidate(request, None) is None,
{
    lemma_found_by_id(request.candidates@, id);
}

} // verus!
