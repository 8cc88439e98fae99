//! A ball and player detector on frames in device memory.
//!
//! The detector runs on the whole frame. Where no ball shows up it looks again at
//! native resolution, in the regions that [`crate::search`] lists.

use crate::binary::single::Single;
use crate::camera::{camera_index, CameraId};
use crate::crop::CropRegion;
use crate::detection::{any_of_class, detections_of_class, Detection};
use crate::detector::{DetectorError, DetectorFrame, DeviceStage, ErrorModel, GpuNv12Frame};
use crate::gpu_buffers::{buffer_plan, BufferPlan, BufferPlanError, GpuBuffers};
use crate::inference::{prepared_planes, remap_all, DetectorSetUp};
use crate::labels::{ball_names, label_position, position, views};
use crate::letterbox::Letterbox;
use crate::recovery::BallRecovery;
use crate::region_laws::law_image_fills_the_input;
use crate::search::{numbered_before, plan_search};
use crate::search_run::{
    lemma_noted_search_is_sound, recovery_cleared, recovery_model, searchable, steps_for,
    DetectEvent, DetectGoal, DetectPhase, DetectRun, RunModel,
};
use crate::text::{decimal, decimal_text, joined};
use vstd::prelude::*;

verus! {

/// A detector on frames of one size.
#[derive(Debug)]
pub struct OrtGpuDetector {
    pub set_up: DetectorSetUp,
    pub ball_recovery: Option<BallRecovery>,
}

/// The class of the first label that names a ball, if it has a class number.
pub open spec fn ball_class(labels: Seq<String>) -> Option<u16> {
    match position(labels, ball_names()) {
        Some(i) => if i <= u16::MAX {
            Some(i as u16)
        } else {
            None
        },
        None => None,
    }
}

impl OrtGpuDetector {
    /// Sets a detector up for a model and frames of one size, without buffers.
    /// There is none where the device's image library, NPP, is not available, nor
    /// without an execution provider that runs on the device.
    pub fn try_new(
        tensorrt: bool,
        cuda: bool,
        npp_available: bool,
        input_size: u32,
        frame_width: u32,
        frame_height: u32,
        confidence_threshold: Single,
        labels: Vec<String>,
        is_10bit: bool,
    ) -> (r: Result<Option<(OrtGpuDetector, BufferPlan)>, BufferPlanError>)
        requires
            (tensorrt || cuda) && npp_available ==> Letterbox::fits(
                input_size,
                frame_width,
                frame_height,
            ),
        ensures
            !npp_available || (!tensorrt && !cuda) ==> r == Ok::<
                Option<(OrtGpuDetector, BufferPlan)>,
                BufferPlanError,
            >(None),
            (tensorrt || cuda) && npp_available ==> match buffer_plan(
                input_size,
                frame_width,
                frame_height,
                is_10bit,
            ) {
                Err(e) => r == Err::<Option<(OrtGpuDetector, BufferPlan)>, BufferPlanError>(e),
                Ok(plan) => {
                    &&& r matches Ok(Some((d, p)))
                    &&& p == plan
                    &&& d.set_up == (DetectorSetUp {
                        input_size,
                        confidence_threshold,
                        labels,
                        letterbox: Letterbox::of(input_size, frame_width, frame_height),
                        buffers: GpuBuffers::none(),
                        frame_width,
                        frame_height,
                    })
                    &&& d.set_up.frames_fill_input()
                    &&& d.ball_recovery is None
                },
            },
    {
        if !npp_available || (!tensorrt && !cuda) {
            return Ok(None);
        }
        let letterbox = Letterbox::new(input_size, frame_width, frame_height);
        proof {
            if 1 <= input_size < 0x40_0000 && frame_width >= 1 && frame_height >= 1 {
                law_image_fills_the_input(input_size, frame_width, frame_height);
            }
        }
        match BufferPlan::new(input_size, frame_width, frame_height, is_10bit) {
            Err(e) => Err(e),
            Ok(plan) => Ok(
                Some(
                    (
                        OrtGpuDetector {
                            set_up: DetectorSetUp {
                                input_size,
                                confidence_threshold,
                                labels,
                                letterbox,
                                buffers: GpuBuffers {
                                    rgb_u8: 0,
                                    rgb_scratch: 0,
                                    resized_u8: 0,
                                    tensor_f32: 0,
                                    nv12_8bit_y: 0,
                                    nv12_8bit_uv: 0,
                                },
                                frame_width,
                                frame_height,
                            },
                            ball_recovery: None,
                        },
                        plan,
                    ),
                ),
            ),
        }
    }

    /// Turns the search for lost balls on, if the model knows a ball.
    pub fn with_high_res_ball_recovery(self, enabled: bool) -> (r: OrtGpuDetector)
        ensures
            r.set_up == self.set_up,
            !enabled ==> r == self,
            enabled ==> match ball_class(self.set_up.labels@) {
                Some(class_id) => r.ball_recovery matches Some(b) && b.is_fresh(class_id),
                None => r == self,
            },
    {
        if !enabled {
            return self;
        }
        let names = ["ball", "sports ball"];
        proof {
            assert(views(names@) =~= ball_names());
        }
        let mut r = self;
        if let Some(id) = label_position(r.set_up.labels.as_slice(), &names) {
            if id <= 0xffff {
                r.ball_recovery = Some(BallRecovery::new(id as u16));
            }
        }
        r
    }

    /// The class of the balls that are searched for.
    pub fn recovery_ball_class_id(&self) -> (r: Option<u16>)
        ensures
            r == match self.ball_recovery {
                Some(b) => Some(b.class_id),
                None => None,
            },
    {
        match &self.ball_recovery {
            Some(b) => Some(b.class_id),
            None => None,
        }
    }

    /// Where a camera expects the ball.
    pub fn recovery_prediction(&self, camera: CameraId) -> (r: Option<(Single, Single)>)
        ensures
            r == match self.ball_recovery {
                Some(b) => b.cameras@[camera.index()].prediction(),
                None => None,
            },
    {
        match &self.ball_recovery {
            Some(b) => b.state(camera).predicted_center(),
            None => None,
        }
    }

    /// Whether a search was made for the camera since its last frame came in.
    pub fn recovery_was_attempted(&self, camera: CameraId) -> (r: bool)
        ensures
            r == (self.ball_recovery matches Some(b)
                && b.attempted_this_call@[camera.index()]),
    {
        match &self.ball_recovery {
            Some(b) => b.attempted_this_call[camera_index(camera)],
            None => false,
        }
    }

    /// Takes the best of the accepted balls as seen.
    pub fn commit_ball_recovery(&mut self, camera: CameraId, accepted: &[Detection])
        requires
            old(self).ball_recovery matches Some(b) ==> b.stats.commits < u64::MAX,
        ensures
            final(self).set_up == old(self).set_up,
            recovery_model(final(self).ball_recovery) == match old(self).ball_recovery {
                Some(b) => Some(b@.committed(camera, accepted@)),
                None => None,
            },
    {
        if let Some(b) = &mut self.ball_recovery {
            b.commit(camera, accepted);
        }
    }

    /// Counts a frame in which no ball was accepted.
    pub fn reject_ball_recovery(&mut self, camera: CameraId)
        requires
            old(self).ball_recovery matches Some(b) ==> b.stats.rejects < u64::MAX,
        ensures
            final(self).set_up == old(self).set_up,
            recovery_model(final(self).ball_recovery) == match old(self).ball_recovery {
                Some(b) => Some(b@.rejected(camera)),
                None => None,
            },
    {
        if let Some(b) = &mut self.ball_recovery {
            b.reject(camera);
        }
    }
}

impl OrtGpuDetector {
    /// Gives the detector its buffers.
    pub fn attach_buffers(&mut self, buffers: GpuBuffers)
        ensures
            final(self).ball_recovery == old(self).ball_recovery,
            final(self).set_up == (DetectorSetUp { buffers, ..old(self).set_up }),
    {
        self.set_up.buffers = buffers;
    }

    /// The name under which the detector reports.
    pub fn name(&self) -> (r: &'static str)
        ensures
            r@ == "ort-cuda"@,
    {
        "ort-cuda"
    }

    /// The names of the classes, by number.
    pub fn class_names(&self) -> (r: Option<&[String]>)
        ensures
            r matches Some(names) && names@ == self.set_up.labels@,
    {
        Some(self.set_up.labels.as_slice())
    }
}

impl OrtGpuDetector {
    /// Every region of a search can be scaled into the model's input, and the
    /// counters can take what the search adds.
    pub open spec fn can_search_in(self, camera: CameraId, width: u32, height: u32) -> bool {
        searchable(self.set_up, recovery_model(self.ball_recovery), camera, width, height)
    }

    /// Whether a search can be made in a frame of that size.
    pub fn can_search(&self, camera: CameraId, width: u32, height: u32) -> (r: bool)
        ensures
            r == self.can_search_in(camera, width, height),
    {
        let b = match &self.ball_recovery {
            Some(b) => b,
            None => {
                return true;
            },
        };
        if !b.stats.has_room() {
            return false;
        }
        let state = b.state(camera);
        let predicted = match state.predicted_center() {
            Some(p) => p,
            None => {
                return true;
            },
        };
        let steps = plan_search(width, height, predicted, state.misses);
        let mut i: usize = 0;
        while i < steps.len()
            invariant
                i <= steps@.len(),
                self.ball_recovery == Some(*b),
                steps@ == steps_for(b@, camera, width, height),
                forall|k: int|
                    0 <= k < i ==> self.set_up.region_fits(
                        width,
                        height,
                        (#[trigger] steps_for(b@, camera, width, height)[k]).area(),
                    ),
            decreases steps@.len() - i,
        {
            let region = steps[i].region();
            if region != CropRegion::full(width, height) && !Letterbox::has_room(
                self.set_up.input_size,
                region.width,
                region.height,
            ) {
                assert(!self.set_up.region_fits(
                    width,
                    height,
                    steps_for(b@, camera, width, height)[i as int].area(),
                ));
                return false;
            }
            i = i + 1;
        }
        true
    }
}

/// What is said of a frame of another size than the detector's.
pub open spec fn size_changed(
    frame_width: u32,
    frame_height: u32,
    width: u32,
    height: u32,
) -> Seq<char> {
    "GPU detector frame dimensions changed: configured="@ + decimal(frame_width as nat) + "x"@
        + decimal(frame_height as nat) + ", received="@ + decimal(width as nat) + "x"@ + decimal(
        height as nat,
    )
}

fn size_changed_error(frame_width: u32, frame_height: u32, width: u32, height: u32) -> (r:
    DetectorError)
    ensures
        r.says(size_changed(frame_width, frame_height, width, height)),
{
    let mut text = joined(
        "GPU detector frame dimensions changed: configured=",
        decimal_text(frame_width as u64).as_str(),
    );
    text.append("x");
    text.append(decimal_text(frame_height as u64).as_str());
    text.append(", received=");
    text.append(decimal_text(width as u64).as_str());
    text.append("x");
    text.append(decimal_text(height as u64).as_str());
    DetectorError::InferenceFailed(text)
}

impl OrtGpuDetector {
    fn fail(&self, run: &mut DetectRun, error: DetectorError)
        requires
            old(run).model(self.ball_recovery).verdict_counts(),
        ensures
            final(run).model(self.ball_recovery) == old(run).model(self.ball_recovery).failed(
                error@,
            ),
            final(run).model(self.ball_recovery).sound(self.set_up),
    {
        run.phase = DetectPhase::Failed;
        run.error = Some(error);
    }

    /// Ends a search in vain.
    fn exhaust(&mut self, run: &mut DetectRun)
        requires
            old(run).error is None,
            old(run).goal == DetectGoal::Search,
            old(run).model(old(self).ball_recovery).verdict_counts(),
            old(self).ball_recovery matches Some(b) ==> b.stats.exhausted < u64::MAX,
        ensures
            final(self).set_up == old(self).set_up,
            final(run).model(final(self).ball_recovery) == old(run).model(
                old(self).ball_recovery,
            ).exhausted(),
            final(run).model(final(self).ball_recovery).sound(old(self).set_up),
    {
        if let Some(b) = &mut self.ball_recovery {
            b.stats.exhausted = b.stats.exhausted + 1;
        }
        run.phase = DetectPhase::Done;
    }

    /// Ends a search after a failed inference.
    fn break_off(&mut self, run: &mut DetectRun)
        requires
            old(run).error is None,
            old(run).goal == DetectGoal::Search,
            old(run).model(old(self).ball_recovery).verdict_counts(),
            old(self).ball_recovery matches Some(b) ==> b.stats.exhausted < u64::MAX
                && b.stats.errors < u64::MAX,
        ensures
            final(self).set_up == old(self).set_up,
            final(run).model(final(self).ball_recovery) == old(run).model(
                old(self).ball_recovery,
            ).broken_off(),
            final(run).model(final(self).ball_recovery).sound(old(self).set_up),
    {
        if let Some(b) = &mut self.ball_recovery {
            b.stats.errors = b.stats.errors + 1;
        }
        self.exhaust(run);
    }

    /// Goes on with the step at a place, if there is one.
    fn search_from(&mut self, run: &mut DetectRun, place: usize)
        requires
            old(run).error is None,
            old(run).model(old(self).ball_recovery).search_sound(old(self).set_up, place as int),
            prepared_planes(old(self).set_up.buffers, old(run).frame) is Ok,
        ensures
            final(self).set_up == old(self).set_up,
            final(run).model(final(self).ball_recovery) == old(run).model(
                old(self).ball_recovery,
            ).searching(old(self).set_up, place as int),
            final(run).model(final(self).ball_recovery).sound(old(self).set_up),
    {
        let ghost before = run.model(self.ball_recovery);
        run.place = place;
        if place >= run.steps.len() {
            self.exhaust(run);
            return;
        }
        let step = run.steps[place];
        assert(before.steps[place as int].counted());
        if let Some(b) = &mut self.ball_recovery {
            b.stats.count_attempt(&step);
        }
        let ghost tried = run.model(self.ball_recovery);
        proof {
            assert forall|i: int| 0 <= i < tried.steps.len() implies {
                &&& (#[trigger] tried.steps[i]).counted()
                &&& tried.known->0.counters.can_hit(tried.steps[i])
                &&& i >= place + 1 ==> tried.known->0.counters.can_attempt(tried.steps[i])
            } by {
                assert(before.steps[i].counted());
                if i > place {
                    assert(numbered_before(before.steps[place as int], before.steps[i]));
                }
            }
            assert(tried.search_sound(self.set_up, place + 1));
        }
        let region = step.region();
        let planes = match self.set_up.prepared_nv12(&run.frame) {
            Ok(p) => p.0,
            Err(_) => {
                self.break_off(run);
                return;
            },
        };
        match self.set_up.infer_region(
            run.camera,
            planes,
            run.frame.width,
            run.frame.height,
            run.frame.rotation,
            region,
        ) {
            Ok(request) => {
                run.phase = DetectPhase::Infer { request, region };
            },
            Err(_) => {
                self.break_off(run);
            },
        }
    }

    /// Looks at the whole frame, or begins with the regions of a search.
    fn planes_are_ready(&mut self, run: &mut DetectRun)
        requires
            old(run).error is None,
            old(run).model(old(self).ball_recovery).can_look(old(self).set_up),
            prepared_planes(old(self).set_up.buffers, old(run).frame) is Ok,
        ensures
            final(self).set_up == old(self).set_up,
            final(run).model(final(self).ball_recovery) == old(run).model(
                old(self).ball_recovery,
            ).ready(old(self).set_up),
            final(run).model(final(self).ball_recovery).sound(old(self).set_up),
    {
        match run.goal {
            DetectGoal::Whole => {
                let region = CropRegion::full(run.frame.width, run.frame.height);
                let planes = match self.set_up.prepared_nv12(&run.frame) {
                    Ok(p) => p.0,
                    Err(e) => {
                        self.fail(run, e);
                        return;
                    },
                };
                match self.set_up.infer_region(
                    run.camera,
                    planes,
                    run.frame.width,
                    run.frame.height,
                    run.frame.rotation,
                    region,
                ) {
                    Ok(request) => {
                        run.phase = DetectPhase::Infer { request, region };
                    },
                    Err(e) => {
                        self.fail(run, e);
                    },
                }
            },
            DetectGoal::Search => {
                self.search_from(run, 0);
            },
        }
    }

    /// Has the planes of a ten-bit frame converted; others are ready.
    fn prepare(&mut self, run: &mut DetectRun)
        requires
            old(run).error is None,
            old(run).model(old(self).ball_recovery).can_look(old(self).set_up),
        ensures
            final(self).set_up == old(self).set_up,
            final(run).model(final(self).ball_recovery) == old(run).model(
                old(self).ball_recovery,
            ).preparing(old(self).set_up),
            final(run).model(final(self).ball_recovery).sound(old(self).set_up),
    {
        match self.set_up.prepared_nv12(&run.frame) {
            Ok((_, conversions)) => if conversions.len() == 0 {
                self.planes_are_ready(run);
            } else {
                run.phase = DetectPhase::ConvertLuma { conversion: conversions[0] };
            },
            Err(e) => {
                self.fail(run, e);
            },
        }
    }

    /// Begins the search of a frame for a lost ball.
    fn recovery_candidates_gpu(&mut self, run: &mut DetectRun)
        requires
            old(run).error is None,
            old(run).goal == DetectGoal::Whole,
            searchable(
                old(self).set_up,
                recovery_model(old(self).ball_recovery),
                old(run).camera,
                old(run).frame.width,
                old(run).frame.height,
            ),
        ensures
            final(self).set_up == old(self).set_up,
            final(run).model(final(self).ball_recovery) == old(run).model(
                old(self).ball_recovery,
            ).recovering(old(self).set_up),
            final(run).model(final(self).ball_recovery).sound(old(self).set_up),
    {
        let ghost before = run.model(self.ball_recovery);
        let camera = run.camera;
        let width = run.frame.width;
        let height = run.frame.height;
        let state = match &self.ball_recovery {
            Some(b) => b.state(camera),
            None => {
                run.phase = DetectPhase::Done;
                return;
            },
        };
        if let Some(b) = &mut self.ball_recovery {
            b.set_attempted(camera, true);
        }
        run.goal = DetectGoal::Search;
        run.place = 0;
        let predicted = match state.predicted_center() {
            Some(p) => p,
            None => {
                run.steps = Vec::new();
                run.phase = DetectPhase::Done;
                assert(run.steps@ =~= seq![]);
                return;
            },
        };
        run.steps = plan_search(width, height, predicted, state.misses);
        proof {
            lemma_noted_search_is_sound(self.set_up, before);
            assert(run.model(self.ball_recovery) == before.noted());
        }
        self.prepare(run);
    }
}

impl OrtGpuDetector {
    /// Takes in what the whole frame showed.
    fn take_whole_frame(&mut self, run: &mut DetectRun, seen: Vec<Detection>)
        requires
            old(run).error is None,
            old(run).goal == DetectGoal::Whole,
            searchable(
                old(self).set_up,
                recovery_model(old(self).ball_recovery),
                old(run).camera,
                old(run).frame.width,
                old(run).frame.height,
            ),
        ensures
            final(self).set_up == old(self).set_up,
            final(run).model(final(self).ball_recovery) == old(run).model(
                old(self).ball_recovery,
            ).looked(old(self).set_up, seen@),
            final(run).model(final(self).ball_recovery).sound(old(self).set_up),
    {
        let lost = match &self.ball_recovery {
            Some(b) => !any_of_class(seen.as_slice(), b.class_id),
            None => false,
        };
        let mut more = seen;
        run.found.append(&mut more);
        if lost {
            self.recovery_candidates_gpu(run);
        } else {
            run.phase = DetectPhase::Done;
        }
    }

    /// Takes in what a region of the search showed.
    fn take_region(&mut self, run: &mut DetectRun, seen: Vec<Detection>)
        requires
            old(run).error is None,
            old(run).place < old(run).steps@.len(),
            old(run).model(old(self).ball_recovery).search_sound(
                old(self).set_up,
                old(run).place + 1,
            ),
            prepared_planes(old(self).set_up.buffers, old(run).frame) is Ok,
        ensures
            final(self).set_up == old(self).set_up,
            final(run).model(final(self).ball_recovery) == old(run).model(
                old(self).ball_recovery,
            ).searched(old(self).set_up, seen@),
            final(run).model(final(self).ball_recovery).sound(old(self).set_up),
    {
        let class_id: u16 = match &self.ball_recovery {
            Some(b) => b.class_id,
            None => {
                run.phase = DetectPhase::Done;
                return;
            },
        };
        let mut balls = detections_of_class(seen.as_slice(), class_id);
        if balls.len() > 0 {
            let step = run.steps[run.place];
            assert(run.model(self.ball_recovery).steps[run.place as int].counted());
            if let Some(b) = &mut self.ball_recovery {
                b.stats.count_hit(&step);
            }
            run.found.append(&mut balls);
            run.phase = DetectPhase::Done;
        } else {
            let count: usize = run.steps.len();
            assert(run.place < count);
            let next: usize = run.place + 1;
            self.search_from(run, next);
        }
    }

    /// Takes in what came of the last step, and says in the run what is next.
    pub fn step(&mut self, run: &mut DetectRun, event: DetectEvent)
        requires
            old(run).model(old(self).ball_recovery).sound(old(self).set_up),
            old(run).model(old(self).ball_recovery).answers(event@),
        ensures
            final(self).set_up == old(self).set_up,
            final(run).model(final(self).ball_recovery) == old(run).model(
                old(self).ball_recovery,
            ).stepped(old(self).set_up, event@),
            final(run).model(final(self).ball_recovery).sound(old(self).set_up),
    {
        match (run.phase, event) {
            (DetectPhase::EnsureContext, DetectEvent::Done) => {
                let ghost before = run.model(self.ball_recovery);
                if let Some(b) = &mut self.ball_recovery {
                    b.set_attempted(run.camera, false);
                }
                proof {
                    let now = run.model(self.ball_recovery);
                    assert(now.known == recovery_cleared(before.known, run.camera));
                    if let Some(b) = before.known {
                        assert(steps_for(
                            now.known->0,
                            run.camera,
                            run.frame.width,
                            run.frame.height,
                        ) == steps_for(b, run.camera, run.frame.width, run.frame.height));
                    }
                    assert(now.can_look(self.set_up));
                }
                self.prepare(run);
            },
            (DetectPhase::EnsureContext, DetectEvent::Failed { reason }) => {
                self.fail(run, DeviceStage::Context.failure(reason.as_str()));
            },
            (DetectPhase::ConvertLuma { .. }, DetectEvent::Done) => {
                match self.set_up.prepared_nv12(&run.frame) {
                    Ok((_, conversions)) => {
                        run.phase = DetectPhase::ConvertChroma { conversion: conversions[1] };
                    },
                    Err(e) => {
                        self.fail(run, e);
                    },
                }
            },
            (DetectPhase::ConvertLuma { .. }, DetectEvent::Failed { reason }) => {
                self.fail(run, DeviceStage::LumaConversion.failure(reason.as_str()));
            },
            (DetectPhase::ConvertChroma { .. }, DetectEvent::Done) => {
                self.planes_are_ready(run);
            },
            (DetectPhase::ConvertChroma { .. }, DetectEvent::Failed { reason }) => {
                self.fail(run, DeviceStage::ChromaConversion.failure(reason.as_str()));
            },
            (DetectPhase::Infer { region, .. }, DetectEvent::Found { detections }) => {
                let seen = remap_all(
                    detections.as_slice(),
                    region,
                    run.frame.width,
                    run.frame.height,
                );
                match run.goal {
                    DetectGoal::Whole => {
                        self.take_whole_frame(run, seen);
                    },
                    DetectGoal::Search => {
                        self.take_region(run, seen);
                    },
                }
            },
            (DetectPhase::Infer { .. }, DetectEvent::Refused { error }) => match run.goal {
                DetectGoal::Whole => {
                    self.fail(run, error);
                },
                DetectGoal::Search => {
                    self.break_off(run);
                },
            },
            _ => {},
        }
    }

    /// How a run on a frame starts: a frame of the wrong size is refused.
    pub open spec fn started(self, camera: CameraId, frame: GpuNv12Frame) -> RunModel {
        let idle = RunModel::idle(recovery_model(self.ball_recovery), camera, frame);
        if frame.width != self.set_up.frame_width || frame.height != self.set_up.frame_height {
            idle.failed(
                ErrorModel::Inference(
                    size_changed(
                        self.set_up.frame_width,
                        self.set_up.frame_height,
                        frame.width,
                        frame.height,
                    ),
                ),
            )
        } else {
            idle
        }
    }

    fn idle_run(camera: CameraId, frame: GpuNv12Frame) -> (r: DetectRun)
        ensures
            forall|b: Option<BallRecovery>| #[trigger]
                r.model(b) == RunModel::idle(recovery_model(b), camera, frame),
            r.error is None,
    {
        let r = DetectRun {
            camera,
            frame,
            phase: DetectPhase::EnsureContext,
            goal: DetectGoal::Whole,
            steps: Vec::new(),
            place: 0,
            found: Vec::new(),
            error: None,
        };
        assert(r.steps@ =~= seq![]);
        assert(r.found@ =~= seq![]);
        r
    }

    /// Starts the detector on a frame.
    pub fn detect(&self, camera: CameraId, frame: &DetectorFrame) -> (r: Result<
        DetectRun,
        DetectorError,
    >)
        requires
            frame matches DetectorFrame::Cuda(f) ==> self.can_search_in(camera, f.width, f.height),
        ensures
            match *frame {
                DetectorFrame::Cuda(f) => {
                    &&& r matches Ok(run)
                    &&& run.model(self.ball_recovery) == self.started(camera, f)
                    &&& run.model(self.ball_recovery).sound(self.set_up)
                },
                DetectorFrame::Other => r == Err::<DetectRun, DetectorError>(
                    DetectorError::UnsupportedFrameKind,
                ),
            },
    {
        match frame {
            DetectorFrame::Cuda(f) => Ok(self.detect_gpu_raw(camera, *f)),
            DetectorFrame::Other => Err(DetectorError::UnsupportedFrameKind),
        }
    }

    /// Starts the detector on a frame in device memory.
    fn detect_gpu_raw(&self, camera: CameraId, frame: GpuNv12Frame) -> (r: DetectRun)
        requires
            self.can_search_in(camera, frame.width, frame.height),
        ensures
            r.model(self.ball_recovery) == self.started(camera, frame),
            r.model(self.ball_recovery).sound(self.set_up),
    {
        let mut r = OrtGpuDetector::idle_run(camera, frame);
        assert(r.model(self.ball_recovery) == RunModel::idle(
            recovery_model(self.ball_recovery),
            camera,
            frame,
        ));
        if frame.width != self.set_up.frame_width || frame.height != self.set_up.frame_height {
            self.fail(
                &mut r,
                size_changed_error(
                    self.set_up.frame_width,
                    self.set_up.frame_height,
                    frame.width,
                    frame.height,
                ),
            );
        }
        r
    }

    /// Starts a search of a frame for a lost ball, whether or not one was seen in it.
    pub fn force_recovery_candidates(&mut self, camera: CameraId, frame: &DetectorFrame) -> (r:
        Result<DetectRun, DetectorError>)
        requires
            frame matches DetectorFrame::Cuda(f) ==> old(self).can_search_in(
                camera,
                f.width,
                f.height,
            ),
        ensures
            final(self).set_up == old(self).set_up,
            match *frame {
                DetectorFrame::Cuda(f) => {
                    &&& r matches Ok(run)
                    &&& run.model(final(self).ball_recovery) == RunModel::idle(
                        recovery_model(old(self).ball_recovery),
                        camera,
                        f,
                    ).recovering(old(self).set_up)
                    &&& run.model(final(self).ball_recovery).sound(old(self).set_up)
                },
                DetectorFrame::Other => {
                    &&& r == Err::<DetectRun, DetectorError>(DetectorError::UnsupportedFrameKind)
                    &&& *final(self) == *old(self)
                },
            },
    {
        match frame {
            DetectorFrame::Cuda(f) => {
                let mut run = OrtGpuDetector::idle_run(camera, *f);
                assert(run.model(self.ball_recovery) == RunModel::idle(
                    recovery_model(self.ball_recovery),
                    camera,
                    *f,
                ));
                self.recovery_candidates_gpu(&mut run);
                Ok(run)
            },
            DetectorFrame::Other => Err(DetectorError::UnsupportedFrameKind),
        }
    }
}

impl DetectRun {
    /// What a run that has ended comes to.
    pub fn outcome(self) -> (r: Result<Vec<Detection>, DetectorError>)
        ensures
            match self.error {
                Some(e) => r == Err::<Vec<Detection>, DetectorError>(e),
                None => r == Ok::<Vec<Detection>, DetectorError>(self.found),
            },
    {
        match self.error {
            Some(e) => Err(e),
            None => Ok(self.found),
        }
    }
}

} // verus!
