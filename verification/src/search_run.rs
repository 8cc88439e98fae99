//! What a detector has done on the device for a frame, step by step.
//!
//! The program does each step and reports what came of it. What comes next is
//! decided here: which planes are converted, which regions are looked at and in
//! which order, and how the run ends.

use crate::camera::CameraId;
use crate::crop::CropRegion;
use crate::detection::{of_class, shows_class, Detection};
use crate::detector::{DetectorError, DeviceStage, ErrorModel, GpuNv12Frame};
use crate::inference::{
    all_remapped, prepared_planes, region_addresses, region_ends, DetectorSetUp, PlaneConversion,
    RegionInference,
};
use crate::recovery::{BallRecovery, RecoveryModel};
use crate::search::{
    lemma_steps_are_counted, lemma_steps_are_ordered, numbered_before, search_steps, SearchStep,
};
use vstd::prelude::*;

verus! {

/// What is known of the ball, if it is searched for at all.
pub open spec fn recovery_model(recovery: Option<BallRecovery>) -> Option<RecoveryModel> {
    match recovery {
        Some(r) => Some(r@),
        None => None,
    }
}

/// The steps of a search in a frame of that size.
pub open spec fn steps_for(
    b: RecoveryModel,
    camera: CameraId,
    width: u32,
    height: u32,
) -> Seq<SearchStep> {
    let state = b.cameras[camera.index()];
    match state.prediction() {
        Some(p) => search_steps(width, height, p, state.misses),
        None => seq![],
    }
}

/// What is known of the ball when a frame comes in: no search was made yet.
pub open spec fn recovery_cleared(
    known: Option<RecoveryModel>,
    camera: CameraId,
) -> Option<RecoveryModel> {
    match known {
        Some(b) => Some(b.with_attempted(camera, false)),
        None => None,
    }
}

/// What the device is to do.
#[derive(Clone, Copy, Debug, PartialEq, Eq, Structural)]
pub enum DetectPhase {
    /// Make the context current.
    EnsureContext,
    /// Reduce the luma plane to eight bits.
    ConvertLuma { conversion: PlaneConversion },
    /// Reduce the chroma plane to eight bits.
    ConvertChroma { conversion: PlaneConversion },
    /// Run the model on a region.
    Infer { request: RegionInference, region: CropRegion },
    /// Nothing: the detections are there.
    Done,
    /// Nothing: there are none.
    Failed,
}

/// What is looked at.
#[derive(Clone, Copy, Debug, PartialEq, Eq, Structural)]
pub enum DetectGoal {
    /// The whole frame.
    Whole,
    /// The regions of a search.
    Search,
}

/// What came of it.
#[derive(Debug)]
pub enum DetectEvent {
    /// The context or the conversion is done.
    Done,
    /// The context or the conversion failed.
    Failed { reason: String },
    /// The model ran, and found this in the region.
    Found { detections: Vec<Detection> },
    /// The model did not run.
    Refused { error: DetectorError },
}

/// What came of it, as mathematical values.
pub enum EventModel {
    Done,
    Failed { reason: Seq<char> },
    Found { detections: Seq<Detection> },
    Refused { error: ErrorModel },
}

impl View for DetectEvent {
    type V = EventModel;

    open spec fn view(&self) -> EventModel {
        match self {
            DetectEvent::Done => EventModel::Done,
            DetectEvent::Failed { reason } => EventModel::Failed { reason: reason@ },
            DetectEvent::Found { detections } => EventModel::Found { detections: detections@ },
            DetectEvent::Refused { error } => EventModel::Refused { error: error@ },
        }
    }
}

/// The run of a detector on one frame.
#[derive(Debug)]
pub struct DetectRun {
    pub camera: CameraId,
    pub frame: GpuNv12Frame,
    pub phase: DetectPhase,
    pub goal: DetectGoal,
    /// The steps of the search, and how many of them were begun before this one.
    pub steps: Vec<SearchStep>,
    pub place: usize,
    pub found: Vec<Detection>,
    pub error: Option<DetectorError>,
}

/// A run, and what its detector knows of the ball, as mathematical values.
pub struct RunModel {
    pub known: Option<RecoveryModel>,
    pub camera: CameraId,
    pub frame: GpuNv12Frame,
    pub phase: DetectPhase,
    pub goal: DetectGoal,
    pub steps: Seq<SearchStep>,
    pub place: int,
    pub found: Seq<Detection>,
    pub error: Option<ErrorModel>,
}

impl DetectRun {
    /// The run, with what the detector knows.
    pub open spec fn model(self, recovery: Option<BallRecovery>) -> RunModel {
        RunModel {
            known: recovery_model(recovery),
            camera: self.camera,
            frame: self.frame,
            phase: self.phase,
            goal: self.goal,
            steps: self.steps@,
            place: self.place as int,
            found: self.found@,
            error: match self.error {
                Some(e) => Some(e@),
                None => None,
            },
        }
    }
}

impl RunModel {
    /// A run that has not begun.
    pub open spec fn idle(
        known: Option<RecoveryModel>,
        camera: CameraId,
        frame: GpuNv12Frame,
    ) -> RunModel {
        RunModel {
            known,
            camera,
            frame,
            phase: DetectPhase::EnsureContext,
            goal: DetectGoal::Whole,
            steps: seq![],
            place: 0,
            found: seq![],
            error: None,
        }
    }

    /// The run has failed.
    pub open spec fn failed(self, error: ErrorModel) -> RunModel {
        RunModel { phase: DetectPhase::Failed, error: Some(error), ..self }
    }

    /// The run has its detections.
    pub open spec fn done(self) -> RunModel {
        RunModel { phase: DetectPhase::Done, ..self }
    }

    /// The request for a region, or why its address is none.
    pub open spec fn request(self, set_up: DetectorSetUp, region: CropRegion) -> Result<
        RegionInference,
        Seq<char>,
    > {
        let frame = self.frame;
        match prepared_planes(set_up.buffers, frame) {
            Err(text) => Err(text),
            Ok((planes, _)) => match region_addresses(
                planes,
                frame.width,
                frame.height,
                frame.rotation,
                region,
            ) {
                Err(text) => Err(text),
                Ok(start) => Ok(
                    set_up.region_request(
                        self.camera,
                        planes,
                        frame.width,
                        frame.height,
                        frame.rotation,
                        region,
                        start,
                    ),
                ),
            },
        }
    }

    /// The search ends in vain.
    pub open spec fn exhausted(self) -> RunModel {
        match self.known {
            Some(b) => RunModel {
                known: Some(RecoveryModel { counters: b.counters.with_exhausted(), ..b }),
                ..self
            }.done(),
            None => self.done(),
        }
    }

    /// An inference of the search failed, which ends it.
    pub open spec fn broken_off(self) -> RunModel {
        match self.known {
            Some(b) => RunModel {
                known: Some(RecoveryModel { counters: b.counters.with_error(), ..b }),
                ..self
            }.exhausted(),
            None => self.done(),
        }
    }

    /// The search goes on with the step at that place. Its attempt counts, even
    /// where the region has no address.
    pub open spec fn searching(self, set_up: DetectorSetUp, place: int) -> RunModel {
        let here = RunModel { place, ..self };
        if place >= self.steps.len() {
            here.exhausted()
        } else {
            let step = self.steps[place];
            let tried = RunModel {
                known: match self.known {
                    Some(b) => Some(
                        RecoveryModel { counters: b.counters.with_attempt(step), ..b },
                    ),
                    None => None,
                },
                ..here
            };
            match self.request(set_up, step.area()) {
                Ok(request) => RunModel {
                    phase: DetectPhase::Infer { request, region: step.area() },
                    ..tried
                },
                Err(_) => tried.broken_off(),
            }
        }
    }

    /// The planes are ready to be read.
    pub open spec fn ready(self, set_up: DetectorSetUp) -> RunModel {
        let whole = CropRegion::whole(self.frame.width, self.frame.height);
        match self.goal {
            DetectGoal::Whole => match self.request(set_up, whole) {
                Ok(request) => RunModel {
                    phase: DetectPhase::Infer { request, region: whole },
                    ..self
                },
                Err(text) => self.failed(ErrorModel::Inference(text)),
            },
            DetectGoal::Search => self.searching(set_up, 0),
        }
    }

    /// The planes are made ready: those of a ten-bit frame are converted first.
    pub open spec fn preparing(self, set_up: DetectorSetUp) -> RunModel {
        match prepared_planes(set_up.buffers, self.frame) {
            Err(text) => self.failed(ErrorModel::Inference(text)),
            Ok((_, conversions)) => if conversions.len() == 0 {
                self.ready(set_up)
            } else {
                RunModel {
                    phase: DetectPhase::ConvertLuma { conversion: conversions[0] },
                    ..self
                }
            },
        }
    }

    /// A search is noted, and its steps are listed.
    pub open spec fn noted(self) -> RunModel {
        match self.known {
            Some(b) => RunModel {
                known: Some(b.with_attempted(self.camera, true)),
                goal: DetectGoal::Search,
                steps: steps_for(b, self.camera, self.frame.width, self.frame.height),
                place: 0,
                ..self
            },
            None => self,
        }
    }

    /// A search begins, where a ball is searched for. It is noted first; without a
    /// place to expect the ball at, there is nothing to search.
    pub open spec fn recovering(self, set_up: DetectorSetUp) -> RunModel {
        match self.known {
            None => self.done(),
            Some(b) => {
                let noted = self.noted();
                match b.cameras[self.camera.index()].prediction() {
                    None => noted.done(),
                    Some(_) => noted.preparing(set_up),
                }
            },
        }
    }

    /// The whole frame showed this. Where a ball is searched for and none was seen,
    /// the search begins.
    pub open spec fn looked(self, set_up: DetectorSetUp, seen: Seq<Detection>) -> RunModel {
        let now = RunModel { found: self.found + seen, ..self };
        if self.known matches Some(b) && !shows_class(seen, b.class_id) {
            now.recovering(set_up)
        } else {
            now.done()
        }
    }

    /// A region of the search showed this. A ball ends the search.
    pub open spec fn searched(self, set_up: DetectorSetUp, seen: Seq<Detection>) -> RunModel {
        match self.known {
            None => self.done(),
            Some(b) => {
                let balls = of_class(seen, b.class_id);
                if balls.len() > 0 {
                    RunModel {
                        known: Some(
                            RecoveryModel {
                                counters: b.counters.with_hit(self.steps[self.place]),
                                ..b
                            },
                        ),
                        found: self.found + balls,
                        ..self
                    }.done()
                } else {
                    self.searching(set_up, self.place + 1)
                }
            },
        }
    }

    /// The event answers the phase.
    pub open spec fn answers(self, event: EventModel) -> bool {
        match self.phase {
            DetectPhase::Infer { .. } => event is Found || event is Refused,
            DetectPhase::Done => false,
            DetectPhase::Failed => false,
            _ => event is Done || event is Failed,
        }
    }

    /// The run after an event that answers its phase.
    pub open spec fn stepped(self, set_up: DetectorSetUp, event: EventModel) -> RunModel {
        match (self.phase, event) {
            (DetectPhase::EnsureContext, EventModel::Done) => RunModel {
                known: recovery_cleared(self.known, self.camera),
                ..self
            }.preparing(set_up),
            (DetectPhase::EnsureContext, EventModel::Failed { reason }) => self.failed(
                ErrorModel::Inference(DeviceStage::Context.label() + reason),
            ),
            (DetectPhase::ConvertLuma { .. }, EventModel::Done) => RunModel {
                phase: DetectPhase::ConvertChroma {
                    conversion: prepared_planes(set_up.buffers, self.frame)->Ok_0.1[1],
                },
                ..self
            },
            (DetectPhase::ConvertLuma { .. }, EventModel::Failed { reason }) => self.failed(
                ErrorModel::Inference(DeviceStage::LumaConversion.label() + reason),
            ),
            (DetectPhase::ConvertChroma { .. }, EventModel::Done) => self.ready(set_up),
            (DetectPhase::ConvertChroma { .. }, EventModel::Failed { reason }) => self.failed(
                ErrorModel::Inference(DeviceStage::ChromaConversion.label() + reason),
            ),
            (DetectPhase::Infer { region, .. }, EventModel::Found { detections }) => {
                let seen = all_remapped(
                    detections,
                    region,
                    self.frame.width,
                    self.frame.height,
                );
                match self.goal {
                    DetectGoal::Whole => self.looked(set_up, seen),
                    DetectGoal::Search => self.searched(set_up, seen),
                }
            },
            (DetectPhase::Infer { .. }, EventModel::Refused { error }) => match self.goal {
                DetectGoal::Whole => self.failed(error),
                DetectGoal::Search => self.broken_off(),
            },
            _ => self,
        }
    }
}

/// Every region of a search can be scaled into the model's input, and the counters
/// can take what the search adds.
pub open spec fn searchable(
    set_up: DetectorSetUp,
    known: Option<RecoveryModel>,
    camera: CameraId,
    width: u32,
    height: u32,
) -> bool {
    known matches Some(b) ==> {
        &&& b.complete()
        &&& b.counters.room()
        &&& forall|k: int|
            0 <= k < steps_for(b, camera, width, height).len() ==> set_up.region_fits(
                width,
                height,
                (#[trigger] steps_for(b, camera, width, height)[k]).area(),
            )
    }
}

impl RunModel {
    /// The search can go on from that place: every step can be counted, located and
    /// scaled.
    pub open spec fn search_sound(self, set_up: DetectorSetUp, from: int) -> bool {
        &&& self.goal == DetectGoal::Search
        &&& self.verdict_counts()
        &&& self.known->0.counters.complete()
        &&& self.known->0.counters.errors < u64::MAX
        &&& self.known->0.counters.exhausted < u64::MAX
        &&& forall|i: int|
            0 <= i < self.steps.len() ==> {
                &&& (#[trigger] self.steps[i]).counted()
                &&& region_ends(self.steps[i].area())
                &&& set_up.region_fits(
                    self.frame.width,
                    self.frame.height,
                    self.steps[i].area(),
                )
                &&& self.known->0.counters.can_hit(self.steps[i])
                &&& i >= from ==> self.known->0.counters.can_attempt(self.steps[i])
            }
        &&& forall|i: int, j: int|
            0 <= i < j < self.steps.len() ==> numbered_before(
                #[trigger] self.steps[i],
                #[trigger] self.steps[j],
            )
    }

    /// The frame, or the regions of the search, can be looked at.
    pub open spec fn can_look(self, set_up: DetectorSetUp) -> bool {
        &&& self.verdict_counts()
        &&& match self.goal {
            DetectGoal::Whole => searchable(
                set_up,
                self.known,
                self.camera,
                self.frame.width,
                self.frame.height,
            ),
            DetectGoal::Search => self.search_sound(set_up, 0),
        }
    }

    /// The verdict on the frame can be counted, and a search is noted.
    pub open spec fn verdict_counts(self) -> bool {
        &&& self.known matches Some(b) ==> b.counters.commits < u64::MAX && b.counters.rejects
            < u64::MAX
        &&& self.goal == DetectGoal::Search ==> {
            &&& self.known is Some
            &&& self.known->0.attempted.len() == 2
            &&& self.known->0.attempted[self.camera.index()]
        }
    }

    /// The two conversions of a ten-bit frame.
    pub open spec fn conversions(self, set_up: DetectorSetUp) -> Seq<PlaneConversion> {
        prepared_planes(set_up.buffers, self.frame)->Ok_0.1
    }

    /// The run is in order: what it is to do belongs to its frame, and what comes
    /// later can be done.
    pub open spec fn sound(self, set_up: DetectorSetUp) -> bool {
        let converting = self.phase is ConvertLuma || self.phase is ConvertChroma;
        &&& self.phase is Failed <==> self.error is Some
        &&& self.verdict_counts()
        &&& self.phase is EnsureContext ==> self.goal == DetectGoal::Whole
        &&& !(self.phase is Failed) && self.goal == DetectGoal::Whole ==> searchable(
            set_up,
            self.known,
            self.camera,
            self.frame.width,
            self.frame.height,
        )
        &&& converting ==> {
            &&& prepared_planes(set_up.buffers, self.frame) is Ok
            &&& self.conversions(set_up).len() == 2
            &&& self.goal == DetectGoal::Search ==> self.search_sound(set_up, 0)
        }
        &&& self.phase matches DetectPhase::ConvertLuma { conversion } ==> conversion
            == self.conversions(set_up)[0]
        &&& self.phase matches DetectPhase::ConvertChroma { conversion } ==> conversion
            == self.conversions(set_up)[1]
        &&& self.phase matches DetectPhase::Infer { request, region } ==> {
            &&& self.request(set_up, region) == Ok::<RegionInference, Seq<char>>(request)
            &&& match self.goal {
                DetectGoal::Whole => region == CropRegion::whole(
                    self.frame.width,
                    self.frame.height,
                ),
                DetectGoal::Search => {
                    &&& 0 <= self.place < self.steps.len()
                    &&& region == self.steps[self.place].area()
                    &&& self.search_sound(set_up, self.place + 1)
                },
            }
        }
    }
}

/// A search whose regions fit and whose counters have room can be made.
pub proof fn lemma_noted_search_is_sound(set_up: DetectorSetUp, run: RunModel)
    requires
        run.known is Some,
        searchable(set_up, run.known, run.camera, run.frame.width, run.frame.height),
    ensures
        run.noted().search_sound(set_up, 0),
{
    let b = run.known->0;
    let now = run.noted();
    let state = b.cameras[run.camera.index()];
    let width = run.frame.width;
    let height = run.frame.height;
    if let Some(p) = state.prediction() {
        assert forall|i: int| 0 <= i < now.steps.len() implies {
            &&& (#[trigger] now.steps[i]).counted()
            &&& region_ends(now.steps[i].area())
            &&& set_up.region_fits(width, height, now.steps[i].area())
            &&& now.known->0.counters.can_hit(now.steps[i])
            &&& now.known->0.counters.can_attempt(now.steps[i])
        } by {
            lemma_steps_are_counted(width, height, p, state.misses, i);
            assert(set_up.region_fits(
                width,
                height,
                steps_for(b, run.camera, width, height)[i].area(),
            ));
        }
        assert forall|i: int, j: int| 0 <= i < j < now.steps.len() implies numbered_before(
            #[trigger] now.steps[i],
            #[trigger] now.steps[j],
        ) by {
            lemma_steps_are_ordered(width, height, p, state.misses, i, j);
        }
    }
}

} // verus!
