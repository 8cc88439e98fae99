//! Setting up automatic camera control.

use crate::binary::single::Single;
use crate::labels::{ball_names, class_id_of, resolve_class_id, resolve_or, views};
use crate::roi::FieldRoi;
use crate::stride::{
    clamp_stride, coast_frames, coast_frames_for_stride, config_converted,
    rebase_panner_config_for_stride, supported_stride, FieldPannerConfig,
};
use crate::text::{ends_in, is_suffix, joined};
use vstd::prelude::*;

verus! {

/// What the virtual camera follows.
#[derive(Clone, Copy, Debug, PartialEq, Eq, Structural)]
pub enum TrackingMode {
    /// The players, and the ball with a small weight.
    Field,
    /// The ball alone.
    Ball,
    /// Nothing: it swings to and fro.
    Sweep,
}

/// How automatic camera control is set up.
#[derive(Clone, Debug)]
pub struct AutocamConfig {
    pub model_path: String,
    pub tracking_mode: TrackingMode,
    pub detection_interval: u64,
    pub frame_stride: u64,
    pub field_roi: Option<FieldRoi>,
    pub is_10bit: bool,
    pub field_panner_config: Option<FieldPannerConfig>,
    pub confidence_threshold: Option<Single>,
    pub high_res_ball_recovery: bool,
}

impl AutocamConfig {
    /// Follows the field in every frame, with the model at that path.
    pub fn new(model_path: String) -> (r: AutocamConfig)
        ensures
            r == (AutocamConfig {
                model_path,
                tracking_mode: TrackingMode::Field,
                detection_interval: 1,
                frame_stride: 1,
                field_roi: None,
                is_10bit: false,
                field_panner_config: None,
                confidence_threshold: None,
                high_res_ball_recovery: false,
            }),
    {
        AutocamConfig {
            model_path,
            tracking_mode: TrackingMode::Field,
            detection_interval: 1,
            frame_stride: 1,
            field_roi: None,
            is_10bit: false,
            field_panner_config: None,
            confidence_threshold: None,
            high_res_ball_recovery: false,
        }
    }

    /// Follows something else.
    pub fn with_tracking_mode(self, mode: TrackingMode) -> (r: AutocamConfig)
        ensures
            r == (AutocamConfig { tracking_mode: mode, ..self }),
    {
        let mut r = self;
        r.tracking_mode = mode;
        r
    }

    /// Runs the detector once in that many analysed frames.
    pub fn with_detection_interval(self, interval: u64) -> (r: AutocamConfig)
        ensures
            r == (AutocamConfig { detection_interval: interval, ..self }),
    {
        let mut r = self;
        r.detection_interval = interval;
        r
    }

    /// Analyses one of that many frames, as far as that is supported.
    pub fn with_frame_stride(self, stride: u64) -> (r: AutocamConfig)
        ensures
            r == (AutocamConfig { frame_stride: supported_stride(stride), ..self }),
    {
        let mut r = self;
        r.frame_stride = clamp_stride(stride);
        r
    }

    /// Leaves out what lies outside the field.
    pub fn with_field_roi(self, roi: FieldRoi) -> (r: AutocamConfig)
        ensures
            r == (AutocamConfig { field_roi: Some(roi), ..self }),
    {
        let mut r = self;
        r.field_roi = Some(roi);
        r
    }

    /// Takes frames of ten bits.
    pub fn with_10bit(self, is_10bit: bool) -> (r: AutocamConfig)
        ensures
            r == (AutocamConfig { is_10bit, ..self }),
    {
        let mut r = self;
        r.is_10bit = is_10bit;
        r
    }

    /// Searches for lost balls at native resolution.
    pub fn with_high_res_ball_recovery(self, enabled: bool) -> (r: AutocamConfig)
        ensures
            r == (AutocamConfig { high_res_ball_recovery: enabled, ..self }),
    {
        let mut r = self;
        r.high_res_ball_recovery = enabled;
        r
    }
}

/// Why a model cannot be used.
#[derive(Debug)]
pub enum ModelPathError<E> {
    /// There is nothing at the path. The text says so.
    NotFound(String),
    /// Whether there is something could not be found out.
    Probe(E),
}

/// What is said where there is nothing at a path.
pub open spec fn missing_model_text(path: Seq<char>) -> Seq<char> {
    "AI model path does not exist: "@ + path
}

/// Whether a model's path is good: `r` says so, given what looking there showed. An
/// empty path is not looked at.
pub open spec fn model_path_validated<E, P: Fn(&str) -> Result<bool, E>>(
    path: &str,
    probe: P,
    r: Result<(), ModelPathError<E>>,
) -> bool {
    if path@.len() == 0 {
        r matches Err(ModelPathError::NotFound(text)) && text@ == missing_model_text(path@)
    } else {
        exists|found: Result<bool, E>|
            #![trigger probe.ensures((path,), found)]
            probe.ensures((path,), found) && match found {
                Ok(true) => r is Ok,
                Ok(false) => r matches Err(ModelPathError::NotFound(text)) && text@
                    == missing_model_text(path@),
                Err(e) => r == Err::<(), ModelPathError<E>>(ModelPathError::Probe(e)),
            }
    }
}

/// Makes sure that there is something at a model's path: a file or a directory.
pub fn validate_model_path<E, P: Fn(&str) -> Result<bool, E>>(path: &str, probe: &P) -> (r: Result<
    (),
    ModelPathError<E>,
>)
    requires
        path@.len() > 0 ==> probe.requires((path,)),
    ensures
        model_path_validated(path, *probe, r),
{
    if !path.is_empty() {
        match probe(path) {
            Ok(true) => {
                return Ok(());
            },
            Ok(false) => {},
            Err(e) => {
                return Err(ModelPathError::Probe(e));
            },
        }
    }
    Err(ModelPathError::NotFound(joined("AI model path does not exist: ", path)))
}

/// What the program was built with, and for which system.
#[derive(Clone, Copy, Debug, PartialEq, Eq, Structural)]
pub struct BuildFeatures {
    pub ort: bool,
    pub tensorrt_native: bool,
    pub ncnn: bool,
    pub linux: bool,
    pub macos: bool,
}

/// The detectors, in the order in which they are tried.
#[derive(Clone, Copy, Debug, PartialEq, Eq, Structural)]
pub enum DetectorBackend {
    TensorRt,
    OrtGpu,
    Metal,
    Ncnn,
    WgpuPreprocessing,
    Cpu,
}

/// What decides which detectors are tried.
#[derive(Clone, Copy, Debug, PartialEq, Eq, Structural)]
pub struct BackendConditions {
    pub features: BuildFeatures,
    /// Frames stay in the memory of the graphics device.
    pub gpu_resident: bool,
    /// The model is a TensorRT engine.
    pub engine_file: bool,
    /// The model is a directory.
    pub directory: bool,
}

/// A detector to set up and attach.
#[derive(Clone, Copy, Debug, PartialEq, Eq, Structural)]
pub struct BackendRequest {
    pub backend: DetectorBackend,
    pub confidence_threshold: Single,
    pub ball_class_id: u16,
    pub person_class_id: u16,
    /// Detections outside the field are left out.
    pub filters_roi: bool,
    pub high_res_ball_recovery: bool,
}

/// What stands between a detector and the session.
#[derive(Clone, Copy, Debug, PartialEq, Eq, Structural)]
pub enum DetectorWrapping {
    /// The guard for ball candidates.
    Validated,
    /// The filter for detections outside the field.
    RoiFiltered,
    /// Nothing.
    Plain,
}

impl DetectorBackend {
    /// The detector that is tried at that place.
    pub open spec fn at(i: int) -> DetectorBackend {
        if i == 0 {
            DetectorBackend::TensorRt
        } else if i == 1 {
            DetectorBackend::OrtGpu
        } else if i == 2 {
            DetectorBackend::Metal
        } else if i == 3 {
            DetectorBackend::Ncnn
        } else if i == 4 {
            DetectorBackend::WgpuPreprocessing
        } else {
            DetectorBackend::Cpu
        }
    }

    /// The detector is tried.
    pub open spec fn applies(self, c: BackendConditions, active: bool) -> bool {
        match self {
            DetectorBackend::TensorRt => c.features.tensorrt_native && c.gpu_resident
                && c.engine_file,
            DetectorBackend::OrtGpu => c.features.ort && c.features.linux && !active
                && c.gpu_resident,
            DetectorBackend::Metal => c.features.ort && c.features.macos && c.gpu_resident,
            DetectorBackend::Ncnn => c.features.ncnn && !active && c.directory,
            DetectorBackend::WgpuPreprocessing => c.features.ort && !active && c.gpu_resident,
            DetectorBackend::Cpu => c.features.ort && !active && !c.gpu_resident,
        }
    }

    /// A failure of the detector ends the set-up.
    pub open spec fn must_work(self) -> bool {
        self == DetectorBackend::WgpuPreprocessing || self == DetectorBackend::Cpu
    }

    /// The confidence that detections need, unless the configuration sets one: 0.25
    /// for NCNN, 0.10 for all others.
    pub open spec fn standard_confidence(self) -> Single {
        if self == DetectorBackend::Ncnn {
            Single { bits: 0x3e80_0000 }
        } else {
            Single { bits: 0x3dcc_cccd }
        }
    }

    fn nth(i: usize) -> (r: DetectorBackend)
        ensures
            r == DetectorBackend::at(i as int),
    {
        if i == 0 {
            DetectorBackend::TensorRt
        } else if i == 1 {
            DetectorBackend::OrtGpu
        } else if i == 2 {
            DetectorBackend::Metal
        } else if i == 3 {
            DetectorBackend::Ncnn
        } else if i == 4 {
            DetectorBackend::WgpuPreprocessing
        } else {
            DetectorBackend::Cpu
        }
    }

    /// Whether the detector is tried.
    pub fn is_tried(self, c: &BackendConditions, active: bool) -> (r: bool)
        ensures
            r == self.applies(*c, active),
    {
        match self {
            DetectorBackend::TensorRt => c.features.tensorrt_native && c.gpu_resident
                && c.engine_file,
            DetectorBackend::OrtGpu => c.features.ort && c.features.linux && !active
                && c.gpu_resident,
            DetectorBackend::Metal => c.features.ort && c.features.macos && c.gpu_resident,
            DetectorBackend::Ncnn => c.features.ncnn && !active && c.directory,
            DetectorBackend::WgpuPreprocessing => c.features.ort && !active && c.gpu_resident,
            DetectorBackend::Cpu => c.features.ort && !active && !c.gpu_resident,
        }
    }

    /// What stands between the detector and the session. The guard for ball
    /// candidates is there where it is wanted and the detector knows a ball.
    pub open spec fn wrapped(
        self,
        high_res_ball_recovery: bool,
        knows_ball: bool,
        filters_roi: bool,
    ) -> DetectorWrapping {
        if self == DetectorBackend::OrtGpu && high_res_ball_recovery && knows_ball {
            DetectorWrapping::Validated
        } else if filters_roi {
            DetectorWrapping::RoiFiltered
        } else {
            DetectorWrapping::Plain
        }
    }

    /// What stands between the detector and the session.
    pub fn wrapping(
        self,
        high_res_ball_recovery: bool,
        knows_ball: bool,
        filters_roi: bool,
    ) -> (r: DetectorWrapping)
        ensures
            r == self.wrapped(high_res_ball_recovery, knows_ball, filters_roi),
    {
        if self == DetectorBackend::OrtGpu && high_res_ball_recovery && knows_ball {
            DetectorWrapping::Validated
        } else if filters_roi {
            DetectorWrapping::RoiFiltered
        } else {
            DetectorWrapping::Plain
        }
    }
}

/// The outlines leave anything out: one of them has an inside.
pub open spec fn roi_filters(roi: Option<FieldRoi>) -> bool {
    roi matches Some(r) && (r.left@.len() >= 3 || r.right@.len() >= 3)
}

/// The class of the ball: that of the model's labels, or the usual one.
pub open spec fn ball_class_or_usual(class_names: Seq<String>) -> u16 {
    match class_id_of(class_names, ball_names()) {
        Some(id) => id,
        None => 32,
    }
}

/// The class of persons, if the model's labels name them.
pub open spec fn person_class(class_names: Seq<String>) -> Option<u16> {
    class_id_of(class_names, seq!["person"@])
}

/// The classes of ball and persons, for the filters.
fn filter_classes(class_names: &[String]) -> (r: (u16, Option<u16>))
    ensures
        r.0 == ball_class_or_usual(class_names@),
        r.1 == person_class(class_names@),
{
    let balls = ["ball", "sports ball"];
    let persons = ["person"];
    proof {
        assert(views(balls@) =~= ball_names());
        assert(views(persons@) =~= seq!["person"@]);
    }
    (resolve_or(class_names, &balls, 32), resolve_class_id(class_names, &persons))
}

impl AutocamConfig {
    /// What is asked of a detector.
    pub open spec fn backend_request(
        self,
        class_names: Seq<String>,
        backend: DetectorBackend,
    ) -> BackendRequest {
        BackendRequest {
            backend,
            confidence_threshold: match self.confidence_threshold {
                Some(c) => c,
                None => backend.standard_confidence(),
            },
            ball_class_id: ball_class_or_usual(class_names),
            person_class_id: match person_class(class_names) {
                Some(id) => id,
                None => 0,
            },
            filters_roi: roi_filters(self.field_roi),
            high_res_ball_recovery: self.high_res_ball_recovery,
        }
    }

    fn request_for(&self, class_names: &[String], backend: DetectorBackend) -> (r: BackendRequest)
        ensures
            r == self.backend_request(class_names@, backend),
    {
        let (ball_class_id, person) = filter_classes(class_names);
        BackendRequest {
            backend,
            confidence_threshold: match self.confidence_threshold {
                Some(c) => c,
                None => if backend == DetectorBackend::Ncnn {
                    Single::from_bits(0x3e80_0000)
                } else {
                    Single::from_bits(0x3dcc_cccd)
                },
            },
            ball_class_id,
            person_class_id: match person {
                Some(id) => id,
                None => 0,
            },
            filters_roi: self.filters_roi(),
            high_res_ball_recovery: self.high_res_ball_recovery,
        }
    }

    /// Whether the outlines leave anything out.
    pub fn filters_roi(&self) -> (r: bool)
        ensures
            r == roi_filters(self.field_roi),
    {
        match &self.field_roi {
            Some(roi) => roi.left.len() >= 3 || roi.right.len() >= 3,
            None => false,
        }
    }
}

/// How the ball is tracked.
#[derive(Clone, Copy, Debug, PartialEq, Eq, Structural)]
pub struct BallTrackerPlan {
    pub class_id: u16,
    /// The farthest way from one analysed frame to the next, in radians.
    pub max_jump_rad: Single,
    pub max_coast_frames: u32,
}

/// How the virtual camera moves.
#[derive(Clone, Copy, Debug, PartialEq, Eq)]
pub enum PannerPlan {
    /// To and fro, with the two settings of the swing and the three of the zoom.
    Sweep { swing: (Single, Single), zoom: (Single, Single, Single) },
    /// After the field, at that number of analysed frames per second.
    Field { fps: Single, config: FieldPannerConfig },
}

/// What is attached to the session besides the detector.
#[derive(Clone, Copy, Debug, PartialEq, Eq)]
pub struct AutocamPlan {
    /// The camera is controlled.
    pub active: bool,
    /// The detector runs once in so many analysed frames, if not in all.
    pub detection_interval: Option<u64>,
    pub ball_tracker: Option<BallTrackerPlan>,
    pub player_class: Option<u16>,
    pub panner: Option<PannerPlan>,
}

impl AutocamPlan {
    /// Nothing is attached.
    fn empty() -> (r: AutocamPlan)
        ensures
            r == AutocamPlan::nothing(),
    {
        AutocamPlan {
            active: false,
            detection_interval: None,
            ball_tracker: None,
            player_class: None,
            panner: None,
        }
    }

    /// Nothing is attached.
    pub open spec fn nothing() -> AutocamPlan {
        AutocamPlan {
            active: false,
            detection_interval: None,
            ball_tracker: None,
            player_class: None,
            panner: None,
        }
    }

    /// The camera swings by 0.8 in 10 seconds, and zooms from 30 to 90 in 7.
    pub open spec fn sweeping() -> AutocamPlan {
        AutocamPlan {
            active: true,
            panner: Some(
                PannerPlan::Sweep {
                    swing: (Single { bits: 0x3f4c_cccd }, Single { bits: 0x4120_0000 }),
                    zoom: (
                        Single { bits: 0x41f0_0000 },
                        Single { bits: 0x42b4_0000 },
                        Single { bits: 0x40e0_0000 },
                    ),
                },
            ),
            ..AutocamPlan::nothing()
        }
    }
}

impl AutocamConfig {
    /// The virtual camera's configuration before any conversion. Without one of its
    /// own the field is followed with a ball weight of 0.20; a ball that is followed
    /// alone has all the weight.
    pub open spec fn panner_base(self, standard: FieldPannerConfig) -> FieldPannerConfig {
        match (self.tracking_mode, self.field_panner_config) {
            (TrackingMode::Ball, Some(own)) => FieldPannerConfig {
                ball_weight: Single { bits: 0x3f80_0000 },
                ..own
            },
            (TrackingMode::Ball, None) => FieldPannerConfig {
                ball_weight: Single { bits: 0x3f80_0000 },
                ..standard
            },
            (_, Some(own)) => own,
            (_, None) => FieldPannerConfig {
                ball_weight: Single { bits: 0x3e4c_cccd },
                ..standard
            },
        }
    }

    /// `plan` is what is attached besides a detector that works.
    pub open spec fn planned<W: Fn(Single, Single) -> Single>(
        self,
        class_names: Seq<String>,
        fps: Single,
        standard: FieldPannerConfig,
        powf: W,
        plan: AutocamPlan,
    ) -> bool {
        let stride = supported_stride(self.frame_stride);
        let ball = self.tracking_mode == TrackingMode::Ball;
        &&& plan.active
        &&& plan.detection_interval == if self.detection_interval > 1 {
            Some(self.detection_interval)
        } else {
            None
        }
        &&& plan.ball_tracker == Some(
            BallTrackerPlan {
                class_id: ball_class_or_usual(class_names),
                max_jump_rad: if ball {
                    Single { bits: 0x3f00_0000 }
                } else {
                    Single { bits: 0x3f4c_cccd }
                },
                max_coast_frames: coast_frames(stride),
            },
        )
        &&& plan.player_class == if ball {
            None
        } else {
            person_class(class_names)
        }
        &&& plan.panner matches Some(PannerPlan::Field { fps: panner_fps, config })
            && panner_fps == fps.over(Single::natural(stride as nat)) && config_converted(
            powf,
            self.panner_base(standard),
            stride,
            config,
        )
    }

    /// Plans what is attached besides a detector that works.
    pub fn plan<W: Fn(Single, Single) -> Single>(
        &self,
        class_names: &[String],
        fps: Single,
        standard: &FieldPannerConfig,
        powf: &W,
    ) -> (r: AutocamPlan)
        requires
            self.tracking_mode != TrackingMode::Sweep,
            forall|x: Single, y: Single| powf.requires((x, y)),
        ensures
            self.planned(class_names@, fps, *standard, *powf, r),
    {
        let stride = clamp_stride(self.frame_stride);
        let (ball_id, person) = filter_classes(class_names);
        let ball = self.tracking_mode == TrackingMode::Ball;
        let mut base = match self.field_panner_config {
            Some(own) => own,
            None => *standard,
        };
        if ball {
            base.ball_weight = Single::from_bits(0x3f80_0000);
        } else if self.field_panner_config.is_none() {
            base.ball_weight = Single::from_bits(0x3e4c_cccd);
        }
        let config = rebase_panner_config_for_stride(base, stride, powf);
        AutocamPlan {
            active: true,
            detection_interval: if self.detection_interval > 1 {
                Some(self.detection_interval)
            } else {
                None
            },
            ball_tracker: Some(
                BallTrackerPlan {
                    class_id: ball_id,
                    max_jump_rad: if ball {
                        Single::from_bits(0x3f00_0000)
                    } else {
                        Single::from_bits(0x3f4c_cccd)
                    },
                    max_coast_frames: coast_frames_for_stride(stride),
                },
            ),
            player_class: if ball {
                None
            } else {
                person
            },
            panner: Some(
                PannerPlan::Field { fps: fps.over(Single::from_u64(stride)), config },
            ),
        }
    }
}

/// Whether the labels are read from the model.
pub fn reads_labels(config: &AutocamConfig, features: &BuildFeatures) -> (r: bool)
    ensures
        r == (features.ort && is_suffix(".onnx"@, config.model_path@)),
{
    features.ort && ends_in(config.model_path.as_str(), ".onnx")
}

/// What the program is to do.
#[derive(Clone, Copy, Debug, PartialEq, Eq, Structural)]
pub enum SetupPhase {
    /// Find out whether there is anything at the model's path.
    Probe,
    /// Read the model's labels, where they are read, and find out whether the path is
    /// a directory.
    Inspect,
    /// Set the detector at that place up and attach it. Whether one is attached
    /// already is told.
    Attach { place: usize, active: bool, request: BackendRequest },
    /// Attach what is planned.
    Done { active: bool },
    /// Nothing: there is no model.
    Refused,
    /// Nothing: a detector that has to work does not.
    Failed,
}

/// What came of it.
#[derive(Debug)]
pub enum SetupEvent<E> {
    /// The model is there.
    Present,
    /// It is not, or that could not be found out.
    Absent { error: ModelPathError<E> },
    /// This was found at the path.
    Inspected { class_names: Vec<String>, directory: bool },
    /// The detector is attached.
    Attached,
    /// The detector is not available here.
    Unavailable,
    /// The detector could not be set up.
    Broken { reason: String },
}

/// Why nothing could be set up.
#[derive(Debug)]
pub enum AutocamError<E> {
    /// The model cannot be used.
    Model(ModelPathError<E>),
    /// A detector that has to work does not.
    Detector(String),
}

/// The set-up of automatic camera control.
#[derive(Debug)]
pub struct AutocamSetup<E> {
    pub config: AutocamConfig,
    pub features: BuildFeatures,
    /// Frames stay in the memory of the graphics device.
    pub gpu_resident: bool,
    pub class_names: Vec<String>,
    pub directory: bool,
    pub phase: SetupPhase,
    pub error: Option<AutocamError<E>>,
}

impl BuildFeatures {
    /// There is a detector to try.
    pub open spec fn detects(self) -> bool {
        self.ort || self.tensorrt_native || self.ncnn
    }
}

impl<E> AutocamSetup<E> {
    /// What decides which detectors are tried.
    pub open spec fn conditions(self) -> BackendConditions {
        BackendConditions {
            features: self.features,
            gpu_resident: self.gpu_resident,
            engine_file: is_suffix(".engine"@, self.config.model_path@),
            directory: self.directory,
        }
    }

    /// The first detector from a place on that is tried, or the end.
    pub open spec fn next_attach(self, place: int, active: bool) -> SetupPhase
        decreases 6 - place,
    {
        if place < 0 || place >= 6 {
            SetupPhase::Done { active }
        } else if DetectorBackend::at(place).applies(self.conditions(), active) {
            SetupPhase::Attach {
                place: place as usize,
                active,
                request: self.config.backend_request(
                    self.class_names@,
                    DetectorBackend::at(place),
                ),
            }
        } else {
            self.next_attach(place + 1, active)
        }
    }

    /// What is done once the model is known to be there, or is not needed.
    pub open spec fn after_path(self) -> SetupPhase {
        if self.features.detects() {
            SetupPhase::Inspect
        } else {
            SetupPhase::Done { active: false }
        }
    }

    /// How the set-up starts. A camera that only swings needs no model.
    pub open spec fn first_phase(self) -> SetupPhase {
        if self.config.tracking_mode == TrackingMode::Sweep {
            self.after_path()
        } else {
            SetupPhase::Probe
        }
    }

    /// The event answers the phase.
    pub open spec fn answers(self, event: SetupEvent<E>) -> bool {
        match self.phase {
            SetupPhase::Probe => event is Present || event is Absent,
            SetupPhase::Inspect => event is Inspected,
            SetupPhase::Attach { place, .. } => place < 6 && (event is Attached || event
                is Unavailable || event is Broken),
            _ => false,
        }
    }

    /// The set-up after an event that answers its phase.
    pub open spec fn stepped(self, event: SetupEvent<E>) -> AutocamSetup<E> {
        match (self.phase, event) {
            (SetupPhase::Probe, SetupEvent::Present) => AutocamSetup {
                phase: self.after_path(),
                ..self
            },
            (SetupPhase::Probe, SetupEvent::Absent { error }) => AutocamSetup {
                phase: SetupPhase::Refused,
                error: Some(AutocamError::Model(error)),
                ..self
            },
            (SetupPhase::Inspect, SetupEvent::Inspected { class_names, directory }) => {
                let told = AutocamSetup { class_names, directory, ..self };
                AutocamSetup { phase: told.next_attach(0, false), ..told }
            },
            (SetupPhase::Attach { place, .. }, SetupEvent::Attached) => AutocamSetup {
                phase: self.next_attach(place + 1, true),
                ..self
            },
            (SetupPhase::Attach { place, active, .. }, SetupEvent::Unavailable) => AutocamSetup {
                phase: self.next_attach(place + 1, active),
                ..self
            },
            (SetupPhase::Attach { place, active, .. }, SetupEvent::Broken { reason }) =>
                if DetectorBackend::at(place as int).must_work() {
                    AutocamSetup {
                        phase: SetupPhase::Failed,
                        error: Some(AutocamError::Detector(reason)),
                        ..self
                    }
                } else {
                    AutocamSetup { phase: self.next_attach(place + 1, active), ..self }
                },
            _ => self,
        }
    }

    fn phase_from(&self, place: usize, active: bool) -> (r: SetupPhase)
        requires
            place <= 6,
        ensures
            r == self.next_attach(place as int, active),
        decreases 6 - place,
    {
        if place >= 6 {
            return SetupPhase::Done { active };
        }
        let c = BackendConditions {
            features: self.features,
            gpu_resident: self.gpu_resident,
            engine_file: ends_in(self.config.model_path.as_str(), ".engine"),
            directory: self.directory,
        };
        let backend = DetectorBackend::nth(place);
        if backend.is_tried(&c, active) {
            SetupPhase::Attach {
                place,
                active,
                request: self.config.request_for(self.class_names.as_slice(), backend),
            }
        } else {
            self.phase_from(place + 1, active)
        }
    }

    fn phase_after_path(&self) -> (r: SetupPhase)
        ensures
            r == self.after_path(),
    {
        if self.features.ort || self.features.tensorrt_native || self.features.ncnn {
            SetupPhase::Inspect
        } else {
            SetupPhase::Done { active: false }
        }
    }

    /// Takes in what came of the last step, and says what is next.
    pub fn step(&mut self, event: SetupEvent<E>)
        requires
            old(self).answers(event),
        ensures
            *final(self) == old(self).stepped(event),
    {
        match (self.phase, event) {
            (SetupPhase::Probe, SetupEvent::Present) => {
                self.phase = self.phase_after_path();
            },
            (SetupPhase::Probe, SetupEvent::Absent { error }) => {
                self.phase = SetupPhase::Refused;
                self.error = Some(AutocamError::Model(error));
            },
            (SetupPhase::Inspect, SetupEvent::Inspected { class_names, directory }) => {
                self.class_names = class_names;
                self.directory = directory;
                self.phase = self.phase_from(0, false);
            },
            (SetupPhase::Attach { place, .. }, SetupEvent::Attached) => {
                self.phase = self.phase_from(place + 1, true);
            },
            (SetupPhase::Attach { place, active, .. }, SetupEvent::Unavailable) => {
                self.phase = self.phase_from(place + 1, active);
            },
            (SetupPhase::Attach { place, active, .. }, SetupEvent::Broken { reason }) => {
                let backend = DetectorBackend::nth(place);
                if backend == DetectorBackend::WgpuPreprocessing || backend
                    == DetectorBackend::Cpu {
                    self.phase = SetupPhase::Failed;
                    self.error = Some(AutocamError::Detector(reason));
                } else {
                    self.phase = self.phase_from(place + 1, active);
                }
            },
            _ => {},
        }
    }

    /// `plan` is what is attached besides the detectors once they were all tried.
    /// Where no detector is attached nothing is, but that a camera which only swings
    /// needs none.
    pub open spec fn plan_made<W: Fn(Single, Single) -> Single>(
        self,
        fps: Single,
        standard: FieldPannerConfig,
        powf: W,
        plan: AutocamPlan,
    ) -> bool {
        if !self.features.detects() {
            plan == AutocamPlan::nothing()
        } else if self.config.tracking_mode == TrackingMode::Sweep {
            plan == AutocamPlan::sweeping()
        } else if self.phase == (SetupPhase::Done { active: true }) {
            self.config.planned(self.class_names@, fps, standard, powf, plan)
        } else {
            plan == AutocamPlan::nothing()
        }
    }

    /// What a set-up that has ended comes to: what is attached besides the detectors,
    /// or why nothing is.
    pub fn outcome<W: Fn(Single, Single) -> Single>(
        self,
        fps: Single,
        standard: &FieldPannerConfig,
        powf: &W,
    ) -> (r: Result<AutocamPlan, AutocamError<E>>)
        requires
            forall|x: Single, y: Single| powf.requires((x, y)),
        ensures
            match self.error {
                Some(e) => r == Err::<AutocamPlan, AutocamError<E>>(e),
                None => r matches Ok(plan) && self.plan_made(fps, *standard, *powf, plan),
            },
    {
        let plan = self.plan(fps, standard, powf);
        match self.error {
            Some(e) => Err(e),
            None => Ok(plan),
        }
    }

    /// Plans what is attached besides the detectors.
    fn plan<W: Fn(Single, Single) -> Single>(
        &self,
        fps: Single,
        standard: &FieldPannerConfig,
        powf: &W,
    ) -> (r: AutocamPlan)
        requires
            forall|x: Single, y: Single| powf.requires((x, y)),
        ensures
            self.plan_made(fps, *standard, *powf, r),
    {
        if !(self.features.ort || self.features.tensorrt_native || self.features.ncnn) {
            return AutocamPlan::empty();
        }
        if self.config.tracking_mode == TrackingMode::Sweep {
            return AutocamPlan {
                active: true,
                detection_interval: None,
                ball_tracker: None,
                player_class: None,
                panner: Some(
                    PannerPlan::Sweep {
                        swing: (Single::from_bits(0x3f4c_cccd), Single::from_bits(0x4120_0000)),
                        zoom: (
                            Single::from_bits(0x41f0_0000),
                            Single::from_bits(0x42b4_0000),
                            Single::from_bits(0x40e0_0000),
                        ),
                    },
                ),
            };
        }
        match self.phase {
            SetupPhase::Done { active: true } => self.config.plan(
                self.class_names.as_slice(),
                fps,
                standard,
                powf,
            ),
            _ => AutocamPlan::empty(),
        }
    }
}

/// Starts to set automatic camera control up. The model has to be there, unless the
/// camera only swings. Then the detectors are tried in turn, and with one attached
/// the trackers and the virtual camera are planned.
pub fn setup_autocam<E>(config: AutocamConfig, features: BuildFeatures, gpu_resident: bool) -> (r:
    AutocamSetup<E>)
    ensures
        r.config == config,
        r.features == features,
        r.gpu_resident == gpu_resident,
        r.class_names@ == Seq::<String>::empty(),
        !r.directory,
        r.phase == r.first_phase(),
        r.error is None,
{
    let mut r = AutocamSetup {
        config,
        features,
        gpu_resident,
        class_names: Vec::new(),
        directory: false,
        phase: SetupPhase::Probe,
        error: None,
    };
    if r.config.tracking_mode == TrackingMode::Sweep {
        r.phase = r.phase_after_path();
    }
    r
}

/// Frames in device memory are never handed to the detector on the processor, and
/// frames in main memory to none that works on device memory; once a detector is
/// attached none is tried but that of TensorRT, which comes first of all, and that
/// for Metal.
pub proof fn law_backend_suits_the_frames(
    backend: DetectorBackend,
    c: BackendConditions,
    active: bool,
)
    requires
        backend.applies(c, active),
    ensures
        backend == DetectorBackend::Cpu ==> !c.gpu_resident,
        !c.gpu_resident ==> backend == DetectorBackend::Cpu || backend == DetectorBackend::Ncnn,
        active ==> backend == DetectorBackend::Metal || backend == DetectorBackend::TensorRt,
{
}

/// What is chosen of the virtual camera's framing, weighting and pitch reaches it as it
/// is, whatever is tracked and whatever the stride.
pub proof fn law_chosen_settings_reach_the_camera<W: Fn(Single, Single) -> Single>(
    config: AutocamConfig,
    class_names: Seq<String>,
    fps: Single,
    standard: FieldPannerConfig,
    powf: W,
    plan: AutocamPlan,
)
    requires
        config.planned(class_names, fps, standard, powf, plan),
    ensures
        plan.panner matches Some(PannerPlan::Field { config: used, .. }) && {
            let chosen = match config.field_panner_config {
                Some(own) => own,
                None => standard,
            };
            &&& used.framing == chosen.framing
            &&& used.confidence_weighted == chosen.confidence_weighted
            &&& used.lock_pitch == chosen.lock_pitch
        },
{
}

/// A stride that the configuration took in is used as it is.
pub proof fn law_configured_stride_is_used(stride: u64)
    ensures
        supported_stride(supported_stride(stride)) == supported_stride(stride),
        1 <= supported_stride(stride) <= 4,
{
}

/// The set-up after events.
pub open spec fn after_setup<E>(
    start: AutocamSetup<E>,
    events: Seq<SetupEvent<E>>,
) -> AutocamSetup<E>
    decreases events.len(),
{
    if events.len() == 0 {
        start
    } else {
        after_setup(start, events.drop_last()).stepped(events.last())
    }
}

/// How many detectors were attached.
pub open spec fn detectors_attached<E>(
    start: AutocamSetup<E>,
    events: Seq<SetupEvent<E>>,
) -> nat
    decreases events.len(),
{
    if events.len() == 0 {
        0
    } else {
        let before = after_setup(start, events.drop_last());
        detectors_attached(start, events.drop_last()) + if before.phase is Attach && events.last()
            is Attached {
            1nat
        } else {
            0
        }
    }
}

proof fn lemma_next_attach<E>(setup: AutocamSetup<E>, place: int, active: bool)
    requires
        0 <= place <= 6,
    ensures
        match setup.next_attach(place, active) {
            SetupPhase::Attach { place: p, active: a, request } => {
                &&& place <= p < 6
                &&& a == active
                &&& request == setup.config.backend_request(
                    setup.class_names@,
                    DetectorBackend::at(p as int),
                )
                &&& DetectorBackend::at(p as int).applies(setup.conditions(), active)
            },
            SetupPhase::Done { active: a } => a == active,
            _ => false,
        },
    decreases 6 - place,
{
    if place < 6 && !DetectorBackend::at(place).applies(setup.conditions(), active) {
        lemma_next_attach(setup, place + 1, active);
    }
}

/// A detector is tried only if it suits, with the request that the configuration
/// makes for it, and after all detectors that come before it in the order: the places
/// of the detectors that are tried increase from step to step.
pub proof fn law_detectors_are_tried_in_order<E>(setup: AutocamSetup<E>, event: SetupEvent<E>)
    requires
        setup.answers(event),
    ensures
        ({
            let next = setup.stepped(event);
            next.phase matches SetupPhase::Attach { place, active, request } ==> {
                &&& place < 6
                &&& request == next.config.backend_request(
                    next.class_names@,
                    DetectorBackend::at(place as int),
                )
                &&& DetectorBackend::at(place as int).applies(next.conditions(), active)
                &&& setup.phase matches SetupPhase::Attach { place: before, .. } ==> before < place
                &&& setup.phase is Attach || setup.phase is Inspect
            }
        }),
{
    match (setup.phase, event) {
        (SetupPhase::Inspect, SetupEvent::Inspected { class_names, directory }) => {
            lemma_next_attach(AutocamSetup { class_names, directory, ..setup }, 0, false);
        },
        (SetupPhase::Attach { place, active, .. }, _) => {
            lemma_next_attach(setup, place + 1, active);
            lemma_next_attach(setup, place + 1, true);
        },
        _ => {},
    }
}

/// A place that is tried is one of the six, and its detector is one that suits.
spec fn place_in_range<E>(setup: AutocamSetup<E>) -> bool {
    setup.phase matches SetupPhase::Attach { place, active, .. } ==> place < 6
        && DetectorBackend::at(place as int).applies(setup.conditions(), active)
}

proof fn lemma_place_in_range<E>(setup: AutocamSetup<E>, event: SetupEvent<E>)
    requires
        place_in_range(setup),
    ensures
        place_in_range(setup.stepped(event)),
{
    if setup.answers(event) {
        law_detectors_are_tried_in_order(setup, event);
    }
}

/// A detector is attached exactly where the result is active, and none is where the
/// model cannot be used or a detector that has to work does not: whatever happens, the
/// set-up knows of an attached detector exactly if there is one, and goes beyond the
/// model's path only after the answer that the model is there, or if the camera only
/// swings.
pub proof fn law_active_exactly_where_attached<E>(
    start: AutocamSetup<E>,
    events: Seq<SetupEvent<E>>,
)
    requires
        start.phase == start.first_phase(),
    ensures
        ({
            let now = after_setup(start, events);
            let attached = detectors_attached(start, events) > 0;
            &&& match now.phase {
                SetupPhase::Probe => !attached,
                SetupPhase::Inspect => !attached,
                SetupPhase::Attach { active, .. } => active == attached,
                SetupPhase::Done { active } => active == attached,
                SetupPhase::Refused => !attached,
                SetupPhase::Failed => !attached,
            }
            &&& start.config.tracking_mode != TrackingMode::Sweep && now.phase != SetupPhase::Probe
                && now.phase != SetupPhase::Refused ==> exists|k: int|
                0 <= k < events.len() && (#[trigger] events[k]) is Present
            &&& now.config == start.config
        }),
    decreases events.len(),
{
    lemma_setup_run(start, events);
}

proof fn lemma_setup_run<E>(start: AutocamSetup<E>, events: Seq<SetupEvent<E>>)
    requires
        start.phase == start.first_phase(),
    ensures
        ({
            let now = after_setup(start, events);
            let attached = detectors_attached(start, events) > 0;
            &&& place_in_range(now)
            &&& now.config == start.config
            &&& match now.phase {
                SetupPhase::Probe => !attached,
                SetupPhase::Inspect => !attached,
                SetupPhase::Attach { active, .. } => active == attached,
                SetupPhase::Done { active } => active == attached,
                SetupPhase::Refused => !attached,
                SetupPhase::Failed => !attached,
            }
            &&& start.config.tracking_mode != TrackingMode::Sweep && now.phase != SetupPhase::Probe
                && now.phase != SetupPhase::Refused ==> exists|k: int|
                0 <= k < events.len() && (#[trigger] events[k]) is Present
        }),
    decreases events.len(),
{
    if events.len() > 0 {
        let before = after_setup(start, events.drop_last());
        let event = events.last();
        lemma_setup_run(start, events.drop_last());
        lemma_place_in_range(before, event);
        if before.phase == SetupPhase::Probe && event is Present {
            assert(events[events.len() - 1] is Present);
        } else if start.config.tracking_mode != TrackingMode::Sweep && before.phase
            != SetupPhase::Probe && before.phase != SetupPhase::Refused {
            let init = events.drop_last();
            let k = choose|k: int| 0 <= k < init.len() && (#[trigger] init[k]) is Present;
            assert(events[k] is Present);
        }
        match (before.phase, event) {
            (SetupPhase::Inspect, SetupEvent::Inspected { class_names, directory }) => {
                lemma_next_attach(AutocamSetup { class_names, directory, ..before }, 0, false);
            },
            (SetupPhase::Attach { place, active, .. }, _) => {
                lemma_next_attach(before, place + 1, active);
                lemma_next_attach(before, place + 1, true);
            },
            _ => {},
        }
    }
}

/// No detector is tried before the model is known to be there, unless the camera only
/// swings: the only way past the model's path is the answer that the model is there.
pub proof fn law_detectors_wait_for_the_model<E>(setup: AutocamSetup<E>, event: SetupEvent<E>)
    requires
        setup.answers(event),
    ensures
        setup.phase == SetupPhase::Probe && !(event is Present) ==> {
            &&& setup.stepped(event).phase == SetupPhase::Refused
            &&& event matches SetupEvent::Absent { error } && setup.stepped(event).error == Some(
                AutocamError::Model(error),
            )
        },
        setup.stepped(event).phase is Inspect ==> setup.phase == SetupPhase::Probe && event
            is Present,
        setup.stepped(event).phase is Attach ==> setup.phase is Inspect || setup.phase is Attach,
{
    match (setup.phase, event) {
        (SetupPhase::Inspect, SetupEvent::Inspected { class_names, directory }) => {
            lemma_next_attach(AutocamSetup { class_names, directory, ..setup }, 0, false);
        },
        (SetupPhase::Attach { place, active, .. }, _) => {
            lemma_next_attach(setup, place + 1, active);
            lemma_next_attach(setup, place + 1, true);
        },
        _ => {},
    }
}

/// Without the ONNX runtime no detector has to work, so that the set-up fails for
/// no detector's sake.
pub proof fn law_only_onnx_runtime_can_fail<E>(setup: AutocamSetup<E>, event: SetupEvent<E>)
    requires
        setup.answers(event),
        setup.stepped(event).phase == SetupPhase::Failed,
        setup.phase matches SetupPhase::Attach { place, active, .. } ==> DetectorBackend::at(
            place as int,
        ).applies(setup.conditions(), active),
    ensures
        setup.features.ort,
{
    match (setup.phase, event) {
        (SetupPhase::Inspect, SetupEvent::Inspected { class_names, directory }) => {
            lemma_next_attach(AutocamSetup { class_names, directory, ..setup }, 0, false);
        },
        (SetupPhase::Attach { place, active, .. }, _) => {
            lemma_next_attach(setup, place + 1, active);
            lemma_next_attach(setup, place + 1, true);
        },
        _ => {},
    }
}

/// A plan is active exactly if detectors were built in and the camera only swings or a
/// detector is attached; otherwise nothing is attached at all.
pub proof fn law_plan_needs_a_detector<E, W: Fn(Single, Single) -> Single>(
    setup: AutocamSetup<E>,
    fps: Single,
    standard: FieldPannerConfig,
    powf: W,
    plan: AutocamPlan,
)
    requires
        setup.plan_made(fps, standard, powf, plan),
    ensures
        plan.active <==> (setup.features.ort || setup.features.tensorrt_native
            || setup.features.ncnn) && (setup.config.tracking_mode == TrackingMode::Sweep
            || setup.phase == (SetupPhase::Done { active: true })),
        plan.active <==> plan.panner is Some,
        plan.panner is None ==> plan.ball_tracker is None && plan.player_class is None
            && plan.detection_interval is None,
        plan.panner matches Some(PannerPlan::Sweep { .. }) ==> setup.config.tracking_mode
            == TrackingMode::Sweep,
        plan.panner matches Some(PannerPlan::Field { .. }) ==> setup.config.tracking_mode
            != TrackingMode::Sweep && plan.ball_tracker is Some,
{
}

/// None of the detectors before the next one suits.
proof fn lemma_next_attach_skips_none<E>(
    setup: AutocamSetup<E>,
    place: int,
    active: bool,
    k: int,
)
    requires
        0 <= place <= k < 6,
        DetectorBackend::at(k).applies(setup.conditions(), active),
    ensures
        setup.next_attach(place, active) matches SetupPhase::Attach { place: p, .. } && p <= k,
    decreases 6 - place,
{
    if !DetectorBackend::at(place).applies(setup.conditions(), active) {
        lemma_next_attach_skips_none(setup, place + 1, active, k);
    }
}

/// No detector that suits is passed over: after the model was inspected, and after each
/// detector, the next one that is tried comes no later than any that suits.
pub proof fn law_no_suitable_detector_is_passed_over<E>(
    setup: AutocamSetup<E>,
    event: SetupEvent<E>,
    k: int,
)
    requires
        setup.answers(event),
        0 <= k < 6,
        ({
            let next = setup.stepped(event);
            let active = match (setup.phase, event) {
                (SetupPhase::Attach { active, .. }, SetupEvent::Attached) => true,
                (SetupPhase::Attach { active, .. }, _) => active,
                _ => false,
            };
            &&& setup.phase is Inspect || setup.phase is Attach
            &&& setup.phase matches SetupPhase::Attach { place, .. } ==> place < k
            &&& next.phase != SetupPhase::Failed
            &&& DetectorBackend::at(k).applies(next.conditions(), active)
        }),
    ensures
        setup.stepped(event).phase matches SetupPhase::Attach { place, .. } && place <= k,
{
    match (setup.phase, event) {
        (SetupPhase::Inspect, SetupEvent::Inspected { class_names, directory }) => {
            lemma_next_attach_skips_none(
                AutocamSetup { class_names, directory, ..setup },
                0,
                false,
                k,
            );
        },
        (SetupPhase::Attach { place, .. }, SetupEvent::Attached) => {
            lemma_next_attach_skips_none(setup, place + 1, true, k);
        },
        (SetupPhase::Attach { place, active, .. }, _) => {
            lemma_next_attach_skips_none(setup, place + 1, active, k);
        },
        _ => {},
    }
}

/// The six detectors, each in its place.
pub proof fn law_detectors_have_their_order()
    ensures
        DetectorBackend::at(0) == DetectorBackend::TensorRt,
        DetectorBackend::at(1) == DetectorBackend::OrtGpu,
        DetectorBackend::at(2) == DetectorBackend::Metal,
        DetectorBackend::at(3) == DetectorBackend::Ncnn,
        DetectorBackend::at(4) == DetectorBackend::WgpuPreprocessing,
        DetectorBackend::at(5) == DetectorBackend::Cpu,
        forall|i: int|
            0 <= i < 6 ==> (#[trigger] DetectorBackend::at(i).must_work() <==> i == 4 || i == 5),
{
}

/// What decides which detectors are tried is what the set-up was told: what the program
/// was built with, where the frames are, whether the model is a directory, and whether
/// its path ends in ".engine".
pub proof fn law_conditions_are_those_of_the_set_up<E>(setup: AutocamSetup<E>, head: Seq<char>)
    ensures
        setup.conditions().features == setup.features,
        setup.conditions().gpu_resident == setup.gpu_resident,
        setup.conditions().directory == setup.directory,
        setup.config.model_path@ == head + ".engine"@ ==> setup.conditions().engine_file,
        setup.conditions().engine_file ==> exists|front: Seq<char>|
            setup.config.model_path@ == #[trigger] (front + ".engine"@),
{
    let path = setup.config.model_path@;
    let end = ".engine"@;
    if path == head + end {
        assert(path.skip(path.len() - end.len()) =~= end);
    }
    if setup.conditions().engine_file {
        let front = path.take(path.len() - end.len());
        assert(path =~= front + end);
    }
}

/// The model's path is looked at first, unless the camera only swings; without detectors
/// that is all.
pub proof fn law_set_up_begins_with_the_model<E>(setup: AutocamSetup<E>)
    ensures
        setup.config.tracking_mode != TrackingMode::Sweep <==> setup.first_phase()
            == SetupPhase::Probe,
        setup.after_path() == SetupPhase::Inspect <==> setup.features.ort
            || setup.features.tensorrt_native || setup.features.ncnn,
        setup.after_path() != SetupPhase::Inspect ==> setup.after_path() == (SetupPhase::Done {
            active: false,
        }),
{
}

/// What is found out about the model is what the detectors are chosen and asked by.
pub proof fn law_inspection_is_remembered<E>(
    setup: AutocamSetup<E>,
    class_names: Vec<String>,
    directory: bool,
)
    requires
        setup.phase == SetupPhase::Inspect,
    ensures
        ({
            let next = setup.stepped(SetupEvent::Inspected { class_names, directory });
            &&& next.class_names == class_names
            &&& next.directory == directory
            &&& next.config == setup.config
            &&& next.features == setup.features
            &&& next.gpu_resident == setup.gpu_resident
        }),
{
}

} // verus!
