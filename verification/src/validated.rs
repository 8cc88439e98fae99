//! The detector behind the guard for ball candidates.

use crate::binary::double::Double;
use crate::binary::single::Single;
use crate::camera::CameraId;
use crate::detection::{detections_of_class, of_class, Detection};
use crate::detector::{DetectorError, DetectorFrame};
use crate::inference::DetectorSetUp;
use crate::ort_gpu::OrtGpuDetector;
use crate::recovery::RecoveryModel;
use crate::recovery_filter::{
    best_candidate, choose_candidate, law_acceptance_is_decided, law_chosen_candidate_fits_best,
    BallDecision, CandidateGuard, CrossCameraEvidence, GuardModel, ProvisionalState,
};
use crate::roi::{ball_inside_roi, ball_placed, non_ball_inside_roi, other_placed, FieldRoi};
use crate::search_laws::same_ball;
use crate::search_run::{recovery_model, DetectEvent, DetectPhase, DetectRun, RunModel};
use vstd::prelude::*;

verus! {

/// The detections whose flag is `want`, in order.
pub open spec fn picked(detections: Seq<Detection>, flags: Seq<bool>, want: bool) -> Seq<Detection>
    decreases detections.len(),
{
    if detections.len() == 0 {
        seq![]
    } else {
        let before = picked(detections.drop_last(), flags, want);
        if flags[detections.len() - 1] == want {
            before.push(detections.last())
        } else {
            before
        }
    }
}

/// Keeps the detections whose flag is `want`.
fn pick(detections: &[Detection], flags: &[bool], want: bool) -> (r: Vec<Detection>)
    requires
        flags@.len() == detections@.len(),
    ensures
        r@ == picked(detections@, flags@, want),
{
    let mut r: Vec<Detection> = Vec::new();
    let mut i: usize = 0;
    while i < detections.len()
        invariant
            i <= detections@.len(),
            flags@.len() == detections@.len(),
            r@ == picked(detections@.take(i as int), flags@, want),
        decreases detections@.len() - i,
    {
        proof {
            assert(detections@.take(i + 1).drop_last() =~= detections@.take(i as int));
        }
        if flags[i] == want {
            r.push(detections[i]);
        }
        i = i + 1;
    }
    proof {
        assert(detections@.take(i as int) =~= detections@);
    }
    r
}

impl GuardModel {
    /// The judgement on balls of which the flags say whether they are on the field.
    pub open spec fn judged_balls(
        self,
        camera: CameraId,
        balls: Seq<Detection>,
        places: Seq<bool>,
        predicted: Option<(Single, Single)>,
    ) -> (GuardModel, Option<Detection>, BallDecision) {
        self.judged(
            camera,
            best_candidate(picked(balls, places, true), predicted),
            best_candidate(picked(balls, places, false), predicted),
            predicted,
        )
    }
}

impl CandidateGuard {
    /// Judges balls of which the flags say whether they are on the field.
    pub fn judge_balls(
        &mut self,
        camera: CameraId,
        balls: &[Detection],
        places: &[bool],
        predicted: Option<(Single, Single)>,
    ) -> (r: (Option<Detection>, BallDecision))
        requires
            places@.len() == balls@.len(),
        ensures
            (final(self)@, r.0, r.1) == old(self)@.judged_balls(
                camera,
                balls@,
                places@,
                predicted,
            ),
            old(self)@.well_formed() ==> final(self)@.well_formed(),
    {
        let inside = choose_candidate(pick(balls, places, true).as_slice(), predicted);
        let outside = choose_candidate(pick(balls, places, false).as_slice(), predicted);
        self.judge(camera, inside, outside, predicted)
    }
}

/// What the guard goes by.
#[derive(Debug)]
pub struct GuardRules {
    pub roi: Option<FieldRoi>,
    pub ball_class_id: u16,
    pub person_class_id: u16,
}

/// A detector whose balls pass the guard.
#[derive(Debug)]
pub struct ValidatedBallRecoveryDetector {
    pub inner: OrtGpuDetector,
    pub rules: GuardRules,
    pub guard: CandidateGuard,
}

/// The flags say of each ball whether it is on the field.
pub open spec fn balls_placed<P: Fn([Double; 2], &Vec<[Double; 2]>) -> bool>(
    balls: Seq<Detection>,
    roi: Option<FieldRoi>,
    inside: P,
    places: Seq<bool>,
) -> bool {
    &&& places.len() == balls.len()
    &&& forall|i: int|
        0 <= i < balls.len() ==> ball_placed(balls[i], roi, inside, #[trigger] places[i])
}

/// The flags say of each detection that is no ball whether it is on the field.
pub open spec fn others_placed<P: Fn([Double; 2], &Vec<[Double; 2]>) -> bool>(
    others: Seq<Detection>,
    roi: Option<FieldRoi>,
    person_class_id: u16,
    inside: P,
    places: Seq<bool>,
) -> bool {
    &&& places.len() == others.len()
    &&& forall|i: int|
        0 <= i < others.len() ==> other_placed(
            others[i],
            roi,
            person_class_id,
            inside,
            #[trigger] places[i],
        )
}

/// The detections that are of another class, in order.
pub open spec fn not_of_class(detections: Seq<Detection>, class_id: u16) -> Seq<Detection> {
    detections.filter(|d: Detection| d.class_id != class_id)
}

/// What comes of the candidates of a frame.
pub open spec fn candidates_judged<P: Fn([Double; 2], &Vec<[Double; 2]>) -> bool>(
    guard: GuardModel,
    camera: CameraId,
    balls: Seq<Detection>,
    roi: Option<FieldRoi>,
    predicted: Option<(Single, Single)>,
    inside: P,
    outcome: (GuardModel, Option<Detection>, BallDecision),
) -> bool {
    exists|places: Seq<bool>|
        #[trigger] balls_placed(balls, roi, inside, places) && outcome == guard.judged_balls(
            camera,
            balls,
            places,
            predicted,
        )
}

/// What is kept of the detections that are no balls.
pub open spec fn others_kept<P: Fn([Double; 2], &Vec<[Double; 2]>) -> bool>(
    others: Seq<Detection>,
    roi: Option<FieldRoi>,
    person_class_id: u16,
    inside: P,
    kept: Seq<Detection>,
) -> bool {
    exists|places: Seq<bool>|
        #[trigger] others_placed(others, roi, person_class_id, inside, places) && kept == picked(
            others,
            places,
            true,
        )
}

/// Where a camera expects the ball, from what is known of it.
pub open spec fn expected_place(
    known: Option<RecoveryModel>,
    camera: CameraId,
) -> Option<(Single, Single)> {
    match known {
        Some(b) => b.cameras[camera.index()].prediction(),
        None => None,
    }
}

/// Whether a search was made for the camera.
pub open spec fn search_made(known: Option<RecoveryModel>, camera: CameraId) -> bool {
    known matches Some(b) && b.attempted[camera.index()]
}

/// What is known of the ball after the verdict on a frame.
pub open spec fn settled(
    known: Option<RecoveryModel>,
    camera: CameraId,
    accepted: Option<Detection>,
) -> Option<RecoveryModel> {
    match (known, accepted) {
        (None, _) => None,
        (Some(b), Some(ball)) => Some(b.committed(camera, seq![ball])),
        (Some(b), None) => Some(b.rejected(camera)),
    }
}

impl ValidatedBallRecoveryDetector {
    /// Puts a detector behind the guard.
    pub fn new(
        inner: OrtGpuDetector,
        roi: Option<FieldRoi>,
        ball_class_id: u16,
        person_class_id: u16,
    ) -> (r: ValidatedBallRecoveryDetector)
        ensures
            r.inner == inner,
            r.rules == (GuardRules { roi, ball_class_id, person_class_id }),
            r.guard@ == (GuardModel {
                provisional: seq![
                    ProvisionalState::empty(),
                    ProvisionalState::empty(),
                ],
                evidence: seq![
                    CrossCameraEvidence::empty(),
                    CrossCameraEvidence::empty(),
                ],
                call_index: 0,
            }),
            r.guard@.well_formed(),
    {
        ValidatedBallRecoveryDetector {
            inner,
            rules: GuardRules { roi, ball_class_id, person_class_id },
            guard: CandidateGuard::new(),
        }
    }

    /// The name under which the detector reports.
    pub fn name(&self) -> (r: &'static str)
        ensures
            r@ == "ort-cuda"@,
    {
        self.inner.name()
    }

    /// The names of the classes, by number.
    pub fn class_names(&self) -> (r: Option<&[String]>)
        ensures
            r matches Some(names) && names@ == self.inner.set_up.labels@,
    {
        self.inner.class_names()
    }

    /// Judges the balls among the candidates of a frame.
    pub fn validate_ball_candidates<P: Fn([Double; 2], &Vec<[Double; 2]>) -> bool>(
        &mut self,
        camera: CameraId,
        candidates: &[Detection],
        inside: &P,
    ) -> (r: (Option<Detection>, BallDecision))
        requires
            forall|p: [Double; 2], v: &Vec<[Double; 2]>| inside.requires((p, v)),
        ensures
            final(self).inner == old(self).inner,
            final(self).rules == old(self).rules,
            old(self).guard@.well_formed() ==> final(self).guard@.well_formed(),
            candidates_judged(
                old(self).guard@,
                camera,
                of_class(candidates@, old(self).rules.ball_class_id),
                old(self).rules.roi,
                expected_place(recovery_model(old(self).inner.ball_recovery), camera),
                *inside,
                (final(self).guard@, r.0, r.1),
            ),
    {
        let predicted = self.inner.recovery_prediction(camera);
        let balls = detections_of_class(candidates, self.rules.ball_class_id);
        let mut places: Vec<bool> = Vec::new();
        let mut i: usize = 0;
        while i < balls.len()
            invariant
                i <= balls@.len(),
                places@.len() == i,
                forall|p: [Double; 2], v: &Vec<[Double; 2]>| inside.requires((p, v)),
                forall|k: int|
                    0 <= k < i ==> ball_placed(
                        balls@[k],
                        self.rules.roi,
                        *inside,
                        #[trigger] places@[k],
                    ),
            decreases balls@.len() - i,
        {
            places.push(ball_inside_roi(&balls[i], self.rules.roi.as_ref(), inside));
            i = i + 1;
        }
        assert(balls_placed(balls@, self.rules.roi, *inside, places@));
        self.guard.judge_balls(camera, balls.as_slice(), places.as_slice(), predicted)
    }

    /// Keeps what is no ball and is on the field.
    pub fn filter_non_balls<P: Fn([Double; 2], &Vec<[Double; 2]>) -> bool>(
        &self,
        detections: &[Detection],
        inside: &P,
    ) -> (r: Vec<Detection>)
        requires
            forall|p: [Double; 2], v: &Vec<[Double; 2]>| inside.requires((p, v)),
        ensures
            others_kept(
                not_of_class(detections@, self.rules.ball_class_id),
                self.rules.roi,
                self.rules.person_class_id,
                *inside,
                r@,
            ),
    {
        let others = detections_not_of_class(detections, self.rules.ball_class_id);
        let mut places: Vec<bool> = Vec::new();
        let mut i: usize = 0;
        while i < others.len()
            invariant
                i <= others@.len(),
                places@.len() == i,
                forall|p: [Double; 2], v: &Vec<[Double; 2]>| inside.requires((p, v)),
                forall|k: int|
                    0 <= k < i ==> other_placed(
                        others@[k],
                        self.rules.roi,
                        self.rules.person_class_id,
                        *inside,
                        #[trigger] places@[k],
                    ),
            decreases others@.len() - i,
        {
            places.push(
                non_ball_inside_roi(&others[i], self.rules.roi.as_ref(), self.rules.person_class_id, inside),
            );
            i = i + 1;
        }
        assert(others_placed(others@, self.rules.roi, self.rules.person_class_id, *inside, places@));
        pick(others.as_slice(), places.as_slice(), true)
    }
}

/// Keeps the detections that are of another class.
fn detections_not_of_class(detections: &[Detection], class_id: u16) -> (r: Vec<Detection>)
    ensures
        r@ == not_of_class(detections@, class_id),
{
    let mut r: Vec<Detection> = Vec::new();
    let ghost other = |d: Detection| d.class_id != class_id;
    let mut i: usize = 0;
    while i < detections.len()
        invariant
            i <= detections@.len(),
            other == (|d: Detection| d.class_id != class_id),
            r@ == detections@.take(i as int).filter(other),
        decreases detections@.len() - i,
    {
        proof {
            reveal(Seq::filter);
            assert(detections@.take(i + 1).drop_last() =~= detections@.take(i as int));
        }
        if detections[i].class_id != class_id {
            r.push(detections[i]);
        }
        i = i + 1;
    }
    proof {
        assert(detections@.take(i as int) =~= detections@);
    }
    r
}

/// How far a call has come.
#[derive(Clone, Copy, Debug, PartialEq, Eq, Structural)]
pub enum CallStage {
    /// The detector runs.
    First,
    /// None of its candidates was accepted, and it searches.
    Second,
    /// The verdict is in, or the detector failed.
    Over,
}

/// A call of the detector behind the guard. What the device is to do is said in the
/// run.
#[derive(Debug)]
pub struct ValidatedRun {
    pub run: DetectRun,
    pub stage: CallStage,
    /// What is no ball and is on the field.
    pub kept: Vec<Detection>,
    pub output: Vec<Detection>,
}

/// A call as mathematical values.
pub struct CallModel {
    pub guard: GuardModel,
    pub inner: RunModel,
    pub stage: CallStage,
    pub kept: Seq<Detection>,
    pub output: Seq<Detection>,
}

impl CallModel {
    /// The call is over, and this ball is accepted, or none: what is kept is returned,
    /// and the accepted ball after it.
    pub open spec fn concluded(self, guard: GuardModel, accepted: Option<Detection>) -> CallModel {
        CallModel {
            guard,
            inner: RunModel {
                known: settled(self.inner.known, self.inner.camera, accepted),
                ..self.inner
            },
            stage: CallStage::Over,
            output: match accepted {
                Some(ball) => self.kept.push(ball),
                None => self.kept,
            },
            ..self
        }
    }

    /// The call is over, with nothing decided.
    pub open spec fn given_up(self) -> CallModel {
        CallModel { stage: CallStage::Over, ..self }
    }

    /// None of the candidates was accepted, and the search is begun.
    pub open spec fn searching(
        self,
        set_up: DetectorSetUp,
        guard: GuardModel,
        kept: Seq<Detection>,
    ) -> CallModel {
        CallModel {
            guard,
            inner: RunModel::idle(
                self.inner.known,
                self.inner.camera,
                self.inner.frame,
            ).recovering(set_up),
            stage: CallStage::Second,
            kept,
            ..self
        }
    }

    /// There is something for the device to do, and it can be done.
    pub open spec fn sound(self, set_up: DetectorSetUp) -> bool {
        self.stage != CallStage::Over ==> {
            &&& self.inner.sound(set_up)
            &&& !(self.inner.phase is Done)
            &&& !(self.inner.phase is Failed)
        }
    }
}

impl GuardRules {
    /// The search has ended: its candidates are judged.
    pub open spec fn search_judged<P: Fn([Double; 2], &Vec<[Double; 2]>) -> bool>(
        self,
        inside: P,
        call: CallModel,
        next: CallModel,
    ) -> bool {
        exists|o: (GuardModel, Option<Detection>, BallDecision)|
            #[trigger] candidates_judged(
                call.guard,
                call.inner.camera,
                of_class(call.inner.found, self.ball_class_id),
                self.roi,
                expected_place(call.inner.known, call.inner.camera),
                inside,
                o,
            ) && next == call.concluded(o.0, o.1)
    }

    /// The search goes on as far as the device is not needed.
    pub open spec fn search_moved<P: Fn([Double; 2], &Vec<[Double; 2]>) -> bool>(
        self,
        inside: P,
        call: CallModel,
        next: CallModel,
    ) -> bool {
        match call.inner.phase {
            DetectPhase::Failed => next == call.given_up(),
            DetectPhase::Done => self.search_judged(inside, call, next),
            _ => next == call,
        }
    }

    /// A call goes on as far as the device is not needed. Once the detector has its
    /// candidates, what is no ball is kept if it is on the field, and the balls are
    /// judged; where none is accepted and no search was made, one is begun.
    pub open spec fn moved<P: Fn([Double; 2], &Vec<[Double; 2]>) -> bool>(
        self,
        set_up: DetectorSetUp,
        inside: P,
        call: CallModel,
        next: CallModel,
    ) -> bool {
        let camera = call.inner.camera;
        match (call.stage, call.inner.phase) {
            (CallStage::First, DetectPhase::Failed) => next == call.given_up(),
            (CallStage::First, DetectPhase::Done) => exists|
                kept: Seq<Detection>,
                o: (GuardModel, Option<Detection>, BallDecision),
            |
                {
                    &&& #[trigger] others_kept(
                        not_of_class(call.inner.found, self.ball_class_id),
                        self.roi,
                        self.person_class_id,
                        inside,
                        kept,
                    )
                    &&& #[trigger] candidates_judged(
                        call.guard,
                        camera,
                        of_class(call.inner.found, self.ball_class_id),
                        self.roi,
                        expected_place(call.inner.known, camera),
                        inside,
                        o,
                    )
                    &&& if o.1 is None && !search_made(call.inner.known, camera) {
                        self.search_moved(inside, call.searching(set_up, o.0, kept), next)
                    } else {
                        next == (CallModel { kept, ..call }).concluded(o.0, o.1)
                    }
                },
            (CallStage::Second, _) => self.search_moved(inside, call, next),
            _ => next == call,
        }
    }
}

impl ValidatedBallRecoveryDetector {
    /// A call, with what the detector and the guard know.
    pub open spec fn call(self, call: ValidatedRun) -> CallModel {
        CallModel {
            guard: self.guard@,
            inner: call.run.model(self.inner.ball_recovery),
            stage: call.stage,
            kept: call.kept@,
            output: call.output@,
        }
    }

    /// Hands the verdict on to the inner detector, and the accepted ball out.
    fn conclude(&mut self, call: &mut ValidatedRun, accepted: Option<Detection>)
        requires
            old(self).inner.ball_recovery matches Some(b) ==> b.stats.commits < u64::MAX
                && b.stats.rejects < u64::MAX,
        ensures
            final(self).inner.set_up == old(self).inner.set_up,
            final(self).rules == old(self).rules,
            final(self).guard == old(self).guard,
            final(self).call(*final(call)) == old(self).call(*old(call)).concluded(
                old(self).guard@,
                accepted,
            ),
    {
        let camera = call.run.camera;
        call.output = Vec::new();
        let mut i: usize = 0;
        let ghost kept = call.kept@;
        while i < call.kept.len()
            invariant
                i <= call.kept@.len(),
                call.kept@ == kept,
                call.output@ =~= kept.take(i as int),
                call.run == old(call).run,
                call.stage == old(call).stage,
            decreases call.kept@.len() - i,
        {
            call.output.push(call.kept[i]);
            i = i + 1;
        }
        assert(call.output@ =~= kept);
        match accepted {
            Some(ball) => {
                let one = [ball];
                assert(one@ =~= seq![ball]);
                self.inner.commit_ball_recovery(camera, &one);
                call.output.push(ball);
            },
            None => {
                self.inner.reject_ball_recovery(camera);
            },
        }
        call.stage = CallStage::Over;
    }

    /// Goes on with the search as far as the device is not needed.
    fn move_search<P: Fn([Double; 2], &Vec<[Double; 2]>) -> bool>(
        &mut self,
        call: &mut ValidatedRun,
        inside: &P,
    )
        requires
            old(call).stage == CallStage::Second,
            old(call).run.model(old(self).inner.ball_recovery).sound(old(self).inner.set_up),
            forall|p: [Double; 2], v: &Vec<[Double; 2]>| inside.requires((p, v)),
        ensures
            final(self).inner.set_up == old(self).inner.set_up,
            final(self).rules == old(self).rules,
            old(self).guard@.well_formed() ==> final(self).guard@.well_formed(),
            final(self).call(*final(call)).sound(old(self).inner.set_up),
            old(self).rules.search_moved(
                *inside,
                old(self).call(*old(call)),
                final(self).call(*final(call)),
            ),
    {
        match call.run.phase {
            DetectPhase::Failed => {
                call.stage = CallStage::Over;
            },
            DetectPhase::Done => {
                let camera = call.run.camera;
                let ghost before = self.call(*call);
                let verdict = self.validate_ball_candidates(
                    camera,
                    call.run.found.as_slice(),
                    inside,
                );
                let ghost o = (self.guard@, verdict.0, verdict.1);
                assert(candidates_judged(
                    before.guard,
                    before.inner.camera,
                    of_class(before.inner.found, self.rules.ball_class_id),
                    self.rules.roi,
                    expected_place(before.inner.known, before.inner.camera),
                    *inside,
                    o,
                ));
                self.conclude(call, verdict.0);
            },
            _ => {},
        }
    }

    /// Goes on with a call as far as the device is not needed.
    fn move_on<P: Fn([Double; 2], &Vec<[Double; 2]>) -> bool>(
        &mut self,
        call: &mut ValidatedRun,
        inside: &P,
    )
        requires
            old(call).stage != CallStage::Over,
            old(call).run.model(old(self).inner.ball_recovery).sound(old(self).inner.set_up),
            forall|p: [Double; 2], v: &Vec<[Double; 2]>| inside.requires((p, v)),
        ensures
            final(self).inner.set_up == old(self).inner.set_up,
            final(self).rules == old(self).rules,
            old(self).guard@.well_formed() ==> final(self).guard@.well_formed(),
            final(self).call(*final(call)).sound(old(self).inner.set_up),
            old(self).rules.moved(
                old(self).inner.set_up,
                *inside,
                old(self).call(*old(call)),
                final(self).call(*final(call)),
            ),
    {
        if call.stage == CallStage::Second {
            self.move_search(call, inside);
            return;
        }
        match call.run.phase {
            DetectPhase::Failed => {
                call.stage = CallStage::Over;
            },
            DetectPhase::Done => {
                self.settle_candidates(call, inside);
            },
            _ => {},
        }
    }

    /// Judges the candidates of the inner detector, and has it search where none is
    /// accepted and it has not done so yet.
    fn settle_candidates<P: Fn([Double; 2], &Vec<[Double; 2]>) -> bool>(
        &mut self,
        call: &mut ValidatedRun,
        inside: &P,
    )
        requires
            old(call).stage == CallStage::First,
            old(call).run.phase == DetectPhase::Done,
            old(call).run.model(old(self).inner.ball_recovery).sound(old(self).inner.set_up),
            forall|p: [Double; 2], v: &Vec<[Double; 2]>| inside.requires((p, v)),
        ensures
            final(self).inner.set_up == old(self).inner.set_up,
            final(self).rules == old(self).rules,
            old(self).guard@.well_formed() ==> final(self).guard@.well_formed(),
            final(self).call(*final(call)).sound(old(self).inner.set_up),
            old(self).rules.moved(
                old(self).inner.set_up,
                *inside,
                old(self).call(*old(call)),
                final(self).call(*final(call)),
            ),
    {
        let ghost before = self.call(*call);
        let camera = call.run.camera;
        let frame = call.run.frame;
        let kept = self.filter_non_balls(call.run.found.as_slice(), inside);
        let verdict = self.validate_ball_candidates(camera, call.run.found.as_slice(), inside);
        let ghost o = (self.guard@, verdict.0, verdict.1);
        let ghost kept_now = kept@;
        proof {
            assert(others_kept(
                not_of_class(before.inner.found, self.rules.ball_class_id),
                self.rules.roi,
                self.rules.person_class_id,
                *inside,
                kept_now,
            ));
            assert(candidates_judged(
                before.guard,
                camera,
                of_class(before.inner.found, self.rules.ball_class_id),
                self.rules.roi,
                expected_place(before.inner.known, camera),
                *inside,
                o,
            ));
        }
        call.kept = kept;
        if verdict.0.is_some() || self.inner.recovery_was_attempted(camera) {
            self.conclude(call, verdict.0);
            return;
        }
        let wrapped = DetectorFrame::Cuda(frame);
        if let Ok(run) = self.inner.force_recovery_candidates(camera, &wrapped) {
            call.run = run;
        }
        call.stage = CallStage::Second;
        assert(self.call(*call) == before.searching(self.inner.set_up, o.0, kept_now));
        self.move_search(call, inside);
    }

    /// Starts a call of the detector on a frame.
    pub fn detect<P: Fn([Double; 2], &Vec<[Double; 2]>) -> bool>(
        &mut self,
        camera: CameraId,
        frame: &DetectorFrame,
        inside: &P,
    ) -> (r: Result<ValidatedRun, DetectorError>)
        requires
            frame matches DetectorFrame::Cuda(f) ==> old(self).inner.can_search_in(
                camera,
                f.width,
                f.height,
            ),
            forall|p: [Double; 2], v: &Vec<[Double; 2]>| inside.requires((p, v)),
        ensures
            final(self).inner.set_up == old(self).inner.set_up,
            final(self).rules == old(self).rules,
            old(self).guard@.well_formed() ==> final(self).guard@.well_formed(),
            match *frame {
                DetectorFrame::Cuda(f) => {
                    &&& r matches Ok(call)
                    &&& final(self).call(call).sound(old(self).inner.set_up)
                    &&& old(self).rules.moved(
                        old(self).inner.set_up,
                        *inside,
                        CallModel {
                            guard: old(self).guard@.next_call(),
                            inner: old(self).inner.started(camera, f),
                            stage: CallStage::First,
                            kept: seq![],
                            output: seq![],
                        },
                        final(self).call(call),
                    )
                },
                DetectorFrame::Other => {
                    &&& r matches Err(e) && e == DetectorError::UnsupportedFrameKind
                    &&& final(self).inner == old(self).inner
                    &&& final(self).guard@ == old(self).guard@.next_call()
                },
            },
    {
        self.guard.call_index = self.guard.call_index.saturating_add(1);
        match self.inner.detect(camera, frame) {
            Ok(run) => {
                let mut call = ValidatedRun {
                    run,
                    stage: CallStage::First,
                    kept: Vec::new(),
                    output: Vec::new(),
                };
                assert(call.kept@ =~= seq![]);
                assert(call.output@ =~= seq![]);
                self.move_on(&mut call, inside);
                Ok(call)
            },
            Err(e) => Err(e),
        }
    }

    /// Takes in what came of the last step, and says in the call what is next.
    pub fn step<P: Fn([Double; 2], &Vec<[Double; 2]>) -> bool>(
        &mut self,
        call: &mut ValidatedRun,
        event: DetectEvent,
        inside: &P,
    )
        requires
            old(call).stage != CallStage::Over,
            old(self).call(*old(call)).sound(old(self).inner.set_up),
            old(self).call(*old(call)).inner.answers(event@),
            forall|p: [Double; 2], v: &Vec<[Double; 2]>| inside.requires((p, v)),
        ensures
            final(self).inner.set_up == old(self).inner.set_up,
            final(self).rules == old(self).rules,
            old(self).guard@.well_formed() ==> final(self).guard@.well_formed(),
            final(self).call(*final(call)).sound(old(self).inner.set_up),
            ({
                let before = old(self).call(*old(call));
                old(self).rules.moved(
                    old(self).inner.set_up,
                    *inside,
                    CallModel {
                        inner: before.inner.stepped(old(self).inner.set_up, event@),
                        ..before
                    },
                    final(self).call(*final(call)),
                )
            }),
    {
        let ghost before = self.call(*call);
        self.inner.step(&mut call.run, event);
        assert(self.call(*call) == (CallModel {
            inner: before.inner.stepped(self.inner.set_up, event@),
            ..before
        }));
        self.move_on(call, inside);
    }
}

impl ValidatedRun {
    /// What a call that is over comes to: all of what is no ball and is on the field,
    /// and after it the accepted ball.
    pub fn outcome(self) -> (r: Result<Vec<Detection>, DetectorError>)
        ensures
            match self.run.error {
                Some(e) => r == Err::<Vec<Detection>, DetectorError>(e),
                None => r == Ok::<Vec<Detection>, DetectorError>(self.output),
            },
    {
        match self.run.error {
            Some(e) => Err(e),
            None => Ok(self.output),
        }
    }
}

impl GuardModel {
    /// One more call.
    pub open spec fn next_call(self) -> GuardModel {
        GuardModel {
            call_index: if self.call_index == u64::MAX {
                u64::MAX
            } else {
                (self.call_index + 1) as u64
            },
            ..self
        }
    }
}

/// What is picked is one of the detections.
proof fn lemma_picked(detections: Seq<Detection>, flags: Seq<bool>, want: bool, i: int)
    requires
        0 <= i < picked(detections, flags, want).len(),
    ensures
        detections.contains(picked(detections, flags, want)[i]),
    decreases detections.len(),
{
    let init = detections.drop_last();
    let before = picked(init, flags, want);
    if i < before.len() {
        lemma_picked(init, flags, want, i);
        let k = choose|k: int| 0 <= k < init.len() && init[k] == before[i];
        assert(detections[k] == before[i]);
    } else {
        assert(detections[detections.len() - 1] == picked(detections, flags, want)[i]);
    }
}

/// Nothing of the ball's class is kept with the rest.
proof fn lemma_kept_is_no_ball<P: Fn([Double; 2], &Vec<[Double; 2]>) -> bool>(
    rules: GuardRules,
    candidates: Seq<Detection>,
    inside: P,
    kept: Seq<Detection>,
    i: int,
)
    requires
        others_kept(
            not_of_class(candidates, rules.ball_class_id),
            rules.roi,
            rules.person_class_id,
            inside,
            kept,
        ),
        0 <= i < kept.len(),
    ensures
        kept[i].class_id != rules.ball_class_id,
{
    let others = not_of_class(candidates, rules.ball_class_id);
    let other = |d: Detection| d.class_id != rules.ball_class_id;
    let places = choose|places: Seq<bool>|
        #[trigger] others_placed(others, rules.roi, rules.person_class_id, inside, places) && kept
            == picked(others, places, true);
    lemma_picked(others, places, true, i);
    let k = choose|k: int| 0 <= k < others.len() && others[k] == kept[i];
    candidates.lemma_filter_pred(other, k);
}

/// An accepted ball is of the ball's class.
proof fn lemma_accepted_is_ball<P: Fn([Double; 2], &Vec<[Double; 2]>) -> bool>(
    rules: GuardRules,
    guard: GuardModel,
    camera: CameraId,
    candidates: Seq<Detection>,
    predicted: Option<(Single, Single)>,
    inside: P,
    o: (GuardModel, Option<Detection>, BallDecision),
)
    requires
        candidates_judged(
            guard,
            camera,
            of_class(candidates, rules.ball_class_id),
            rules.roi,
            predicted,
            inside,
            o,
        ),
    ensures
        o.1 matches Some(ball) ==> ball.class_id == rules.ball_class_id && candidates.contains(
            ball,
        ),
{
    let balls = of_class(candidates, rules.ball_class_id);
    let same = |d: Detection| d.class_id == rules.ball_class_id;
    let places = choose|places: Seq<bool>|
        #[trigger] balls_placed(balls, rules.roi, inside, places) && o == guard.judged_balls(
            camera,
            balls,
            places,
            predicted,
        );
    if let Some(ball) = o.1 {
        law_acceptance_is_decided(
            guard,
            camera,
            best_candidate(picked(balls, places, true), predicted),
            best_candidate(picked(balls, places, false), predicted),
            predicted,
        );
        let want = best_candidate(picked(balls, places, true), predicted) is Some;
        let from = picked(balls, places, want);
        law_chosen_candidate_fits_best(from, predicted, 0);
        let i = choose|i: int| 0 <= i < from.len() && from[i] == ball;
        lemma_picked(balls, places, want, i);
        let k = choose|k: int| 0 <= k < balls.len() && balls[k] == ball;
        candidates.lemma_filter_pred(same, k);
        candidates.lemma_filter_contains_rev(same, ball);
    }
}

/// Nothing of the ball's class is among what is kept, nor among what is returned but
/// for the last.
pub open spec fn one_ball_at_most(rules: GuardRules, call: CallModel) -> bool {
    &&& call.stage == CallStage::Second ==> forall|i: int|
        0 <= i < call.kept.len() ==> (#[trigger] call.kept[i]).class_id != rules.ball_class_id
    &&& call.stage == CallStage::Over && call.inner.phase is Done ==> forall|i: int|
        0 <= i < call.output.len() - 1 ==> (#[trigger] call.output[i]).class_id
            != rules.ball_class_id
}

/// A call returns at most one ball, and returns it last: it keeps to this from its
/// start to its end.
pub proof fn law_at_most_one_ball_is_returned<P: Fn([Double; 2], &Vec<[Double; 2]>) -> bool>(
    rules: GuardRules,
    set_up: DetectorSetUp,
    inside: P,
    call: CallModel,
    next: CallModel,
)
    requires
        call.stage != CallStage::Over,
        one_ball_at_most(rules, call),
        rules.moved(set_up, inside, call, next),
    ensures
        one_ball_at_most(rules, next),
{
    assert forall|kept: Seq<Detection>|
        #[trigger] others_kept(
            not_of_class(call.inner.found, rules.ball_class_id),
            rules.roi,
            rules.person_class_id,
            inside,
            kept,
        ) implies forall|i: int|
        0 <= i < kept.len() ==> (#[trigger] kept[i]).class_id != rules.ball_class_id by {
        assert forall|i: int| 0 <= i < kept.len() implies (#[trigger] kept[i]).class_id
            != rules.ball_class_id by {
            lemma_kept_is_no_ball(rules, call.inner.found, inside, kept, i);
        }
    }
}

/// How the trajectories stand after a call that began with `known`: as they were, or,
/// once the call is over with a verdict, one miss later, or moved on by the ball that
/// the call returns last.
pub open spec fn moved_by_verdict_only(
    rules: GuardRules,
    known: Option<RecoveryModel>,
    call: CallModel,
) -> bool {
    let camera = call.inner.camera;
    match (known, call.inner.known) {
        (None, None) => true,
        (Some(b), Some(now)) => {
            let state = b.cameras[camera.index()];
            if call.stage != CallStage::Over || call.inner.phase is Failed {
                now.cameras == b.cameras
            } else {
                ||| now.cameras == b.cameras.update(camera.index(), state.missed())
                ||| {
                    &&& call.output.len() > 0
                    &&& call.output.last().class_id == rules.ball_class_id
                    &&& now.cameras == b.cameras.update(
                        camera.index(),
                        state.observed(seq![call.output.last()], b.class_id),
                    )
                }
            }
        },
        _ => false,
    }
}

/// A trajectory moves only by a ball that was accepted, and that the call returns
/// last: otherwise a call leaves both cameras' trajectories as they were, and counts
/// at most a miss for its own camera.
pub proof fn law_only_accepted_balls_move_trajectories<
    P: Fn([Double; 2], &Vec<[Double; 2]>) -> bool,
>(
    rules: GuardRules,
    set_up: DetectorSetUp,
    inside: P,
    known: Option<RecoveryModel>,
    call: CallModel,
    next: CallModel,
)
    requires
        call.stage != CallStage::Over,
        same_ball(known, call.inner.known),
        rules.moved(set_up, inside, call, next),
    ensures
        moved_by_verdict_only(rules, known, next),
{
    assert forall|
        g: GuardModel,
        k: Option<RecoveryModel>,
        candidates: Seq<Detection>,
        o: (GuardModel, Option<Detection>, BallDecision),
    |
        #[trigger] candidates_judged(
            g,
            call.inner.camera,
            of_class(candidates, rules.ball_class_id),
            rules.roi,
            expected_place(k, call.inner.camera),
            inside,
            o,
        ) implies (o.1 matches Some(ball) ==> ball.class_id == rules.ball_class_id) by {
        lemma_accepted_is_ball(
            rules,
            g,
            call.inner.camera,
            candidates,
            expected_place(k, call.inner.camera),
            inside,
            o,
        );
    }
}

/// What is picked carries the flag.
proof fn lemma_picked_has_flag(
    detections: Seq<Detection>,
    flags: Seq<bool>,
    want: bool,
    i: int,
) -> (k: int)
    requires
        flags.len() >= detections.len(),
        0 <= i < picked(detections, flags, want).len(),
    ensures
        0 <= k < detections.len(),
        flags[k] == want,
        detections[k] == picked(detections, flags, want)[i],
    decreases detections.len(),
{
    let init = detections.drop_last();
    let before = picked(init, flags, want);
    if i < before.len() {
        let k = lemma_picked_has_flag(init, flags, want, i);
        assert(detections[k] == init[k]);
        k
    } else {
        detections.len() - 1
    }
}

/// What carries the flag is picked.
proof fn lemma_flagged_is_picked(
    detections: Seq<Detection>,
    flags: Seq<bool>,
    want: bool,
    k: int,
) -> (i: int)
    requires
        flags.len() >= detections.len(),
        0 <= k < detections.len(),
        flags[k] == want,
    ensures
        0 <= i < picked(detections, flags, want).len(),
        detections[k] == picked(detections, flags, want)[i],
    decreases detections.len(),
{
    let init = detections.drop_last();
    let before = picked(init, flags, want);
    if k < init.len() {
        let i = lemma_flagged_is_picked(init, flags, want, k);
        assert(before[i] == init[k]);
        i
    } else {
        before.len() as int
    }
}

/// A ball on the field is accepted wherever there is one, and a ball from outside only
/// where there is none; what is accepted as being on the field was placed there, and what
/// is accepted from outside was not.
pub proof fn law_balls_on_the_field_come_first(
    guard: GuardModel,
    camera: CameraId,
    balls: Seq<Detection>,
    places: Seq<bool>,
    predicted: Option<(Single, Single)>,
)
    requires
        places.len() == balls.len(),
    ensures
        ({
            let (_, accepted, decision) = guard.judged_balls(camera, balls, places, predicted);
            let some_inside = exists|k: int| 0 <= k < balls.len() && #[trigger] places[k];
            &&& some_inside <==> decision == BallDecision::StrongInside
            &&& decision == BallDecision::StrongInside ==> exists|k: int|
                0 <= k < balls.len() && #[trigger] places[k] && accepted == Some(balls[k])
            &&& decision == BallDecision::PromotedOutside ==> exists|k: int|
                0 <= k < balls.len() && !#[trigger] places[k] && accepted == Some(balls[k])
            &&& balls.len() == 0 ==> accepted is None
        }),
{
    let yes = picked(balls, places, true);
    let no = picked(balls, places, false);
    let (_, accepted, decision) = guard.judged_balls(camera, balls, places, predicted);
    if yes.len() > 0 {
        law_chosen_candidate_fits_best(yes, predicted, 0);
        let c = best_candidate(yes, predicted)->0;
        let i = choose|i: int| 0 <= i < yes.len() && yes[i] == c;
        let k = lemma_picked_has_flag(balls, places, true, i);
        assert(places[k] && accepted == Some(balls[k]));
    } else {
        assert forall|k: int| 0 <= k < balls.len() implies !#[trigger] places[k] by {
            if places[k] {
                let i = lemma_flagged_is_picked(balls, places, true, k);
            }
        }
        if no.len() > 0 {
            law_chosen_candidate_fits_best(no, predicted, 0);
            let c = best_candidate(no, predicted)->0;
            let i = choose|i: int| 0 <= i < no.len() && no[i] == c;
            let k = lemma_picked_has_flag(balls, places, false, i);
            assert(!places[k] && balls[k] == c);
        }
    }
}

/// Of what is no ball exactly what is on the field is kept.
pub proof fn law_others_on_the_field_are_kept<P: Fn([Double; 2], &Vec<[Double; 2]>) -> bool>(
    others: Seq<Detection>,
    roi: Option<FieldRoi>,
    person_class_id: u16,
    inside: P,
    kept: Seq<Detection>,
    i: int,
)
    requires
        others_kept(others, roi, person_class_id, inside, kept),
    ensures
        0 <= i < kept.len() ==> others.contains(kept[i]) && other_placed(
            kept[i],
            roi,
            person_class_id,
            inside,
            true,
        ),
        0 <= i < others.len() ==> kept.contains(others[i]) || other_placed(
            others[i],
            roi,
            person_class_id,
            inside,
            false,
        ),
{
    let places = choose|places: Seq<bool>|
        #[trigger] others_placed(others, roi, person_class_id, inside, places) && kept == picked(
            others,
            places,
            true,
        );
    if 0 <= i < kept.len() {
        let k = lemma_picked_has_flag(others, places, true, i);
        assert(other_placed(others[k], roi, person_class_id, inside, places[k]));
        assert(others.contains(others[k]));
    }
    if 0 <= i < others.len() {
        assert(other_placed(others[i], roi, person_class_id, inside, places[i]));
        if places[i] {
            let j = lemma_flagged_is_picked(others, places, true, i);
            assert(kept[j] == others[i]);
        }
    }
}

/// A verdict moves the trajectory of its own camera, and no other: an accepted ball of
/// the class that is searched for is the new place, with no miss since; without one the
/// place stays and one more miss counts. What is kept is returned, and the accepted ball
/// after it.
pub proof fn law_verdict_moves_the_trajectory(
    call: CallModel,
    guard: GuardModel,
    accepted: Option<Detection>,
    b: RecoveryModel,
)
    requires
        call.inner.known == Some(b),
        b.complete(),
        b.counters.room(),
    ensures
        ({
            let next = call.concluded(guard, accepted);
            let now = next.inner.known->0;
            let i = call.inner.camera.index();
            let o = call.inner.camera.other().index();
            &&& next.inner.known is Some
            &&& next.stage == CallStage::Over
            &&& now.class_id == b.class_id
            &&& now.cameras[o] == b.cameras[o]
            &&& accepted is None ==> {
                &&& next.output == call.kept
                &&& now.cameras[i].last_center == b.cameras[i].last_center
                &&& now.cameras[i].velocity == b.cameras[i].velocity
                &&& b.cameras[i].misses < u32::MAX ==> now.cameras[i].misses
                    == b.cameras[i].misses + 1
                &&& now.counters.rejects == b.counters.rejects + 1
                &&& now.counters.commits == b.counters.commits
            }
            &&& accepted matches Some(ball) ==> {
                &&& next.output == call.kept.push(ball)
                &&& ball.class_id == b.class_id ==> now.cameras[i].last_center == Some(
                    (ball.center_x, ball.center_y),
                ) && now.cameras[i].misses == 0
                &&& now.counters.commits == b.counters.commits + 1
                &&& now.counters.rejects == b.counters.rejects
            }
        }),
{
    if let Some(ball) = accepted {
        if ball.class_id == b.class_id {
            let same = |d: Detection| d.class_id == b.class_id;
            reveal(Seq::filter);
            assert(seq![ball].drop_last() =~= Seq::<Detection>::empty());
            assert(Seq::<Detection>::empty().filter(same) =~= Seq::<Detection>::empty());
            assert(of_class(seq![ball], b.class_id) =~= seq![ball]);
        }
    }
}

/// Where a camera expects the ball, and whether a search was made for it, depends on
/// what is known of that camera alone.
pub proof fn law_expectation_is_the_cameras_own(
    a: RecoveryModel,
    b: RecoveryModel,
    camera: CameraId,
)
    requires
        a.cameras[camera.index()] == b.cameras[camera.index()],
        a.attempted[camera.index()] == b.attempted[camera.index()],
    ensures
        expected_place(Some(a), camera) == expected_place(Some(b), camera),
        expected_place(Some(a), camera) is Some <==> a.cameras[camera.index()].last_center is Some,
        search_made(Some(a), camera) == search_made(Some(b), camera),
        search_made(Some(a), camera) <==> a.attempted[camera.index()],
        expected_place(None, camera) is None,
        !search_made(None, camera),
{
}

/// A ball on the field that the other camera saw counts against candidates in the call
/// in which it was seen and in the two calls after it, and no longer. Calls leave what
/// the guard remembers as it is.
pub proof fn law_rival_is_forgotten_after_two_calls(
    guard: GuardModel,
    camera: CameraId,
    confidence: Single,
)
    requires
        guard.well_formed(),
        guard.call_index < u64::MAX - 3,
        guard.evidence[camera.other().index()].call_index == guard.call_index,
        guard.outshone(camera, confidence),
    ensures
        guard.next_call().outshone(camera, confidence),
        guard.next_call().next_call().outshone(camera, confidence),
        !guard.next_call().next_call().next_call().outshone(camera, confidence),
        guard.next_call().evidence == guard.evidence,
        guard.next_call().provisional == guard.provisional,
{
}

/// Once the detector has its candidates, a search of the guard's own is begun only where
/// none was made; where one was made the call is over.
pub proof fn law_frame_is_searched_once<P: Fn([Double; 2], &Vec<[Double; 2]>) -> bool>(
    rules: GuardRules,
    set_up: DetectorSetUp,
    inside: P,
    call: CallModel,
    next: CallModel,
)
    requires
        call.stage == CallStage::First,
        call.inner.phase is Done,
        rules.moved(set_up, inside, call, next),
    ensures
        next.stage == CallStage::Second ==> call.inner.known is None
            || !call.inner.known->0.attempted[call.inner.camera.index()],
        call.inner.known is Some && call.inner.known->0.attempted[call.inner.camera.index()]
            ==> next.stage == CallStage::Over,
{
}

/// A ball is one that the rules let through: it is of the ball's class and among what was
/// found, and it is on the field, or it is outside and a place was expected.
pub open spec fn let_through<P: Fn([Double; 2], &Vec<[Double; 2]>) -> bool>(
    rules: GuardRules,
    inside: P,
    found: Seq<Detection>,
    expected: Option<(Single, Single)>,
    ball: Detection,
) -> bool {
    &&& found.contains(ball)
    &&& ball.class_id == rules.ball_class_id
    &&& ball_placed(ball, rules.roi, inside, true) || (ball_placed(ball, rules.roi, inside, false)
        && expected is Some)
}

proof fn lemma_accepted_is_let_through<P: Fn([Double; 2], &Vec<[Double; 2]>) -> bool>(
    rules: GuardRules,
    guard: GuardModel,
    camera: CameraId,
    found: Seq<Detection>,
    predicted: Option<(Single, Single)>,
    inside: P,
    o: (GuardModel, Option<Detection>, BallDecision),
)
    requires
        candidates_judged(
            guard,
            camera,
            of_class(found, rules.ball_class_id),
            rules.roi,
            predicted,
            inside,
            o,
        ),
    ensures
        o.1 matches Some(ball) ==> let_through(rules, inside, found, predicted, ball),
{
    let balls = of_class(found, rules.ball_class_id);
    let places = choose|places: Seq<bool>|
        #[trigger] balls_placed(balls, rules.roi, inside, places) && o == guard.judged_balls(
            camera,
            balls,
            places,
            predicted,
        );
    if let Some(ball) = o.1 {
        lemma_accepted_is_ball(rules, guard, camera, found, predicted, inside, o);
        law_balls_on_the_field_come_first(guard, camera, balls, places, predicted);
        law_acceptance_is_decided(
            guard,
            camera,
            best_candidate(picked(balls, places, true), predicted),
            best_candidate(picked(balls, places, false), predicted),
            predicted,
        );
        if o.2 == BallDecision::StrongInside {
            let k = choose|k: int|
                0 <= k < balls.len() && #[trigger] places[k] && o.1 == Some(balls[k]);
            assert(ball_placed(balls[k], rules.roi, inside, places[k]));
        } else {
            let k = choose|k: int|
                0 <= k < balls.len() && !#[trigger] places[k] && o.1 == Some(balls[k]);
            assert(ball_placed(balls[k], rules.roi, inside, places[k]));
        }
    }
}

/// What a call returns, once it is over without a failure: first what is kept, and after
/// it at most one more, which is a ball that the rules let through.
pub open spec fn returns_what_is_let_through<P: Fn([Double; 2], &Vec<[Double; 2]>) -> bool>(
    rules: GuardRules,
    inside: P,
    found: Seq<Detection>,
    expected: Option<(Single, Single)>,
    next: CallModel,
) -> bool {
    next.stage == CallStage::Over && next.inner.phase is Done ==> {
        ||| next.output == next.kept
        ||| {
            &&& next.output.len() == next.kept.len() + 1
            &&& next.output.drop_last() == next.kept
            &&& let_through(rules, inside, found, expected, next.output.last())
        }
    }
}

/// A call whose search has ended returns what is kept, and a ball only if the rules let
/// it through.
pub proof fn law_search_returns_what_is_let_through<
    P: Fn([Double; 2], &Vec<[Double; 2]>) -> bool,
>(rules: GuardRules, set_up: DetectorSetUp, inside: P, call: CallModel, next: CallModel)
    requires
        call.stage == CallStage::Second,
        call.inner.phase is Done,
        rules.moved(set_up, inside, call, next),
    ensures
        next.stage == CallStage::Over,
        next.kept == call.kept,
        returns_what_is_let_through(
            rules,
            inside,
            call.inner.found,
            expected_place(call.inner.known, call.inner.camera),
            next,
        ),
{
    let camera = call.inner.camera;
    let o = choose|o: (GuardModel, Option<Detection>, BallDecision)|
        #[trigger] candidates_judged(
            call.guard,
            camera,
            of_class(call.inner.found, rules.ball_class_id),
            rules.roi,
            expected_place(call.inner.known, camera),
            inside,
            o,
        ) && next == call.concluded(o.0, o.1);
    lemma_accepted_is_let_through(
        rules,
        call.guard,
        camera,
        call.inner.found,
        expected_place(call.inner.known, camera),
        inside,
        o,
    );
    if let Some(ball) = o.1 {
        assert(next.output.drop_last() =~= next.kept);
    }
}

/// Once the detector has its candidates, everything is kept of them that is no ball and
/// is on the field, where persons are told by the rules, and nothing else.
pub proof fn law_call_keeps_what_is_on_the_field<P: Fn([Double; 2], &Vec<[Double; 2]>) -> bool>(
    rules: GuardRules,
    set_up: DetectorSetUp,
    inside: P,
    call: CallModel,
    next: CallModel,
    i: int,
)
    requires
        call.stage == CallStage::First,
        call.inner.phase is Done,
        rules.moved(set_up, inside, call, next),
    ensures
        0 <= i < next.kept.len() ==> {
            let d = next.kept[i];
            &&& call.inner.found.contains(d)
            &&& d.class_id != rules.ball_class_id
            &&& other_placed(d, rules.roi, rules.person_class_id, inside, true)
        },
        0 <= i < call.inner.found.len() && call.inner.found[i].class_id != rules.ball_class_id
            ==> next.kept.contains(call.inner.found[i]) || other_placed(
            call.inner.found[i],
            rules.roi,
            rules.person_class_id,
            inside,
            false,
        ),
{
    let camera = call.inner.camera;
    let found = call.inner.found;
    let others = not_of_class(found, rules.ball_class_id);
    let (kept, o) = choose|
        kept: Seq<Detection>,
        o: (GuardModel, Option<Detection>, BallDecision),
    |
        {
            &&& #[trigger] others_kept(others, rules.roi, rules.person_class_id, inside, kept)
            &&& #[trigger] candidates_judged(
                call.guard,
                camera,
                of_class(found, rules.ball_class_id),
                rules.roi,
                expected_place(call.inner.known, camera),
                inside,
                o,
            )
            &&& if o.1 is None && !search_made(call.inner.known, camera) {
                rules.search_moved(inside, call.searching(set_up, o.0, kept), next)
            } else {
                next == (CallModel { kept, ..call }).concluded(o.0, o.1)
            }
        };
    assert(next.kept == kept);
    let other = |d: Detection| d.class_id != rules.ball_class_id;
    if 0 <= i < kept.len() {
        law_others_on_the_field_are_kept(
            others,
            rules.roi,
            rules.person_class_id,
            inside,
            kept,
            i,
        );
        let k = choose|k: int| 0 <= k < others.len() && others[k] == kept[i];
        found.lemma_filter_pred(other, k);
        found.lemma_filter_contains_rev(other, others[k]);
    }
    if 0 <= i < found.len() && found[i].class_id != rules.ball_class_id {
        found.lemma_filter_contains(other, i);
        let k = choose|k: int| 0 <= k < others.len() && others[k] == found[i];
        law_others_on_the_field_are_kept(
            others,
            rules.roi,
            rules.person_class_id,
            inside,
            kept,
            k,
        );
    }
}

/// A call that is over with the detector's own candidates returns what is kept, and a
/// ball only if the rules let it through.
pub proof fn law_call_returns_what_is_let_through<P: Fn([Double; 2], &Vec<[Double; 2]>) -> bool>(
    rules: GuardRules,
    set_up: DetectorSetUp,
    inside: P,
    call: CallModel,
    next: CallModel,
)
    requires
        call.stage == CallStage::First,
        call.inner.phase is Done,
        rules.moved(set_up, inside, call, next),
    ensures
        returns_what_is_let_through(
            rules,
            inside,
            call.inner.found,
            expected_place(call.inner.known, call.inner.camera),
            next,
        ),
{
    let camera = call.inner.camera;
    let found = call.inner.found;
    let expected = expected_place(call.inner.known, camera);
    let (kept, o) = choose|
        kept: Seq<Detection>,
        o: (GuardModel, Option<Detection>, BallDecision),
    |
        {
            &&& #[trigger] others_kept(
                not_of_class(found, rules.ball_class_id),
                rules.roi,
                rules.person_class_id,
                inside,
                kept,
            )
            &&& #[trigger] candidates_judged(
                call.guard,
                camera,
                of_class(found, rules.ball_class_id),
                rules.roi,
                expected,
                inside,
                o,
            )
            &&& if o.1 is None && !search_made(call.inner.known, camera) {
                rules.search_moved(inside, call.searching(set_up, o.0, kept), next)
            } else {
                next == (CallModel { kept, ..call }).concluded(o.0, o.1)
            }
        };
    lemma_accepted_is_let_through(rules, call.guard, camera, found, expected, inside, o);
    if o.1 is None && !search_made(call.inner.known, camera) {
        let begun = call.searching(set_up, o.0, kept);
        if begun.inner.phase is Done {
            assert(rules.search_judged(inside, begun, next));
            let p = choose|p: (GuardModel, Option<Detection>, BallDecision)|
                #[trigger] candidates_judged(
                    begun.guard,
                    begun.inner.camera,
                    of_class(begun.inner.found, rules.ball_class_id),
                    rules.roi,
                    expected_place(begun.inner.known, begun.inner.camera),
                    inside,
                    p,
                ) && next == begun.concluded(p.0, p.1);
            lemma_accepted_is_let_through(
                rules,
                begun.guard,
                begun.inner.camera,
                begun.inner.found,
                expected_place(begun.inner.known, begun.inner.camera),
                inside,
                p,
            );
            assert(begun.inner.found.len() == 0);
        }
    } else if let Some(ball) = o.1 {
        assert(next.output.drop_last() =~= next.kept);
    }
}

} // verus!
