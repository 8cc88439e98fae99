//! Where each camera last saw the ball, and what its recovery has cost.

use crate::binary::single::Single;
use crate::binary::value::lemma_naturals;
use crate::camera::{camera_index, CameraId};
use crate::detection::{detections_of_class, of_class, Detection};
use crate::search::SearchStep;
use crate::selection::{first_least, key_before, lemma_first_least, lemma_first_least_step};
use vstd::prelude::*;

verus! {

/// The fastest tracked motion per analysed frame, as a share of the image: 0.08.
pub const MAX_VELOCITY: u32 = 0x3da3_d70a;

/// The same in the opposite direction.
pub const MIN_VELOCITY: u32 = 0xbda3_d70a;

/// The last trusted ball of one camera.
#[derive(Clone, Copy, Debug, PartialEq, Eq)]
pub struct CameraRecoveryState {
    pub last_center: Option<(Single, Single)>,
    pub velocity: (Single, Single),
    pub misses: u32,
}

/// The number of analysed frames since the ball was last seen.
pub open spec fn elapsed_frames(misses: u32) -> nat {
    if misses == u32::MAX {
        misses as nat
    } else {
        (misses + 1) as nat
    }
}

/// `at + velocity * frames`, kept in the image.
pub open spec fn advanced(at: Single, velocity: Single, frames: nat) -> Single {
    at.plus(velocity.times(Single::natural(frames))).clamped(
        Single::natural(0),
        Single::natural(1),
    )
}

/// The velocity that leads from one place to another in that many frames.
pub open spec fn velocity_between(from: Single, to: Single, frames: nat) -> Single {
    to.minus(from).over(Single::natural(frames)).clamped(
        Single { bits: MIN_VELOCITY },
        Single { bits: MAX_VELOCITY },
    )
}

/// How badly a detection fits: its squared distance from the expected place, or
/// its lack of confidence where none is expected.
pub open spec fn observation_score(d: Detection, expected: Option<(Single, Single)>) -> Single {
    match expected {
        Some((x, y)) => {
            let dx = d.center_x.minus(x);
            let dy = d.center_y.minus(y);
            dx.times(dx).plus(dy.times(dy))
        },
        None => Single::natural(1).minus(d.confidence),
    }
}

/// The keys by which an observation is chosen.
pub open spec fn observation_keys(
    balls: Seq<Detection>,
    expected: Option<(Single, Single)>,
) -> Seq<(int, int)> {
    balls.map_values(|d: Detection| (observation_score(d, expected).total_rank(), 0int))
}

impl CameraRecoveryState {
    /// A camera that has not seen the ball yet.
    pub open spec fn fresh() -> CameraRecoveryState {
        CameraRecoveryState {
            last_center: None,
            velocity: (Single::natural(0), Single::natural(0)),
            misses: 0,
        }
    }

    /// Where the ball is expected next.
    pub open spec fn prediction(self) -> Option<(Single, Single)> {
        match self.last_center {
            None => None,
            Some((x, y)) => Some(
                (
                    advanced(x, self.velocity.0, elapsed_frames(self.misses)),
                    advanced(y, self.velocity.1, elapsed_frames(self.misses)),
                ),
            ),
        }
    }

    /// The state after the ball was seen in one of `detections`.
    pub open spec fn observed(
        self,
        detections: Seq<Detection>,
        ball_class_id: u16,
    ) -> CameraRecoveryState {
        let balls = of_class(detections, ball_class_id);
        if balls.len() == 0 {
            self
        } else {
            let chosen = balls[first_least(observation_keys(balls, self.prediction()))];
            CameraRecoveryState {
                last_center: Some((chosen.center_x, chosen.center_y)),
                velocity: match self.last_center {
                    None => self.velocity,
                    Some((x, y)) => (
                        velocity_between(x, chosen.center_x, elapsed_frames(self.misses)),
                        velocity_between(y, chosen.center_y, elapsed_frames(self.misses)),
                    ),
                },
                misses: 0,
            }
        }
    }

    /// The state after an analysed frame without a trusted ball.
    pub open spec fn missed(self) -> CameraRecoveryState {
        CameraRecoveryState { misses: elapsed_frames(self.misses) as u32, ..self }
    }

    /// A camera that has not seen the ball yet.
    pub fn new() -> (r: CameraRecoveryState)
        ensures
            r == CameraRecoveryState::fresh(),
    {
        let zero = Single::from_u64(0);
        CameraRecoveryState { last_center: None, velocity: (zero, zero), misses: 0 }
    }

    /// Where the ball is expected next: the last place moved on by the velocity,
    /// once for every frame since, and kept in the image.
    pub fn predicted_center(&self) -> (r: Option<(Single, Single)>)
        ensures
            r == self.prediction(),
    {
        match self.last_center {
            None => None,
            Some((x, y)) => {
                let horizon = Single::from_u64(self.misses.saturating_add(1) as u64);
                let zero = Single::from_u64(0);
                let one = Single::from_u64(1);
                proof {
                    Single::lemma_naturals(0, 1);
                }
                Some(
                    (
                        x.plus(self.velocity.0.times(horizon)).clamped(zero, one),
                        y.plus(self.velocity.1.times(horizon)).clamped(zero, one),
                    ),
                )
            },
        }
    }

    fn score(d: &Detection, expected: Option<(Single, Single)>) -> (r: Single)
        ensures
            r == observation_score(*d, expected),
    {
        match expected {
            Some((x, y)) => {
                let dx = d.center_x.minus(x);
                let dy = d.center_y.minus(y);
                dx.times(dx).plus(dy.times(dy))
            },
            None => Single::from_u64(1).minus(d.confidence),
        }
    }

    /// The ball that fits best, if there is one; of equally good ones the first.
    fn best_observation(balls: &Vec<Detection>, expected: Option<(Single, Single)>) -> (r: Option<
        Detection,
    >)
        ensures
            balls@.len() == 0 ==> r is None,
            balls@.len() > 0 ==> r == Some(balls@[first_least(observation_keys(balls@, expected))]),
    {
        if balls.len() == 0 {
            return None;
        }
        let ghost keys = observation_keys(balls@, expected);
        let mut best: usize = 0;
        let mut least = CameraRecoveryState::score(&balls[0], expected);
        let mut i: usize = 1;
        while i < balls.len()
            invariant
                1 <= i <= balls@.len(),
                keys == observation_keys(balls@, expected),
                best < i,
                best == first_least(keys.take(i as int)),
                least == observation_score(balls@[best as int], expected),
            decreases balls@.len() - i,
        {
            let s = CameraRecoveryState::score(&balls[i], expected);
            proof {
                lemma_first_least_step(keys, i as int);
            }
            if s.total_before(least) {
                best = i;
                least = s;
            }
            i = i + 1;
        }
        proof {
            assert(keys.take(i as int) =~= keys);
        }
        Some(balls[best])
    }

    /// Takes the ball that fits the expectation best as the new last place, and
    /// the way to it as the new velocity. Without a ball nothing changes.
    pub fn observe(&mut self, detections: &[Detection], ball_class_id: u16)
        ensures
            *final(self) == old(self).observed(detections@, ball_class_id),
    {
        let expected = self.predicted_center();
        let balls = detections_of_class(detections, ball_class_id);
        let chosen = CameraRecoveryState::best_observation(&balls, expected);
        if let Some(chosen) = chosen {
            if let Some((last_x, last_y)) = self.last_center {
                let elapsed = Single::from_u64(self.misses.saturating_add(1) as u64);
                let lo = Single::from_bits(MIN_VELOCITY);
                let hi = Single::from_bits(MAX_VELOCITY);
                self.velocity =
                (
                    chosen.center_x.minus(last_x).over(elapsed).clamped(lo, hi),
                    chosen.center_y.minus(last_y).over(elapsed).clamped(lo, hi),
                );
            }
            self.last_center = Some((chosen.center_x, chosen.center_y));
            self.misses = 0;
        }
    }

    /// Counts an analysed frame without a trusted ball.
    pub fn miss(&mut self)
        ensures
            *final(self) == old(self).missed(),
    {
        self.misses = self.misses.saturating_add(1);
    }
}

/// Whether a number lies between two others, both ends included.
pub open spec fn between(x: Single, lo: Single, hi: Single) -> bool {
    lo.at_most(x) && x.at_most(hi)
}

/// A predicted place lies in the image, unless a coordinate is no number.
pub proof fn law_prediction_lies_in_image(state: CameraRecoveryState)
    ensures
        state.last_center is Some <==> state.prediction() is Some,
        state.prediction() matches Some((x, y)) ==> {
            &&& x.value() is Nan || between(x, Single::natural(0), Single::natural(1))
            &&& y.value() is Nan || between(y, Single::natural(0), Single::natural(1))
        },
{
    Single::lemma_naturals(0, 1);
    Single::lemma_naturals(1, 1);
}

/// An observed velocity never exceeds the limit, unless a coordinate is no
/// number.
pub proof fn law_observed_velocity_is_bounded(
    state: CameraRecoveryState,
    detections: Seq<Detection>,
    ball_class_id: u16,
)
    requires
        state.last_center is Some,
        of_class(detections, ball_class_id).len() > 0,
    ensures
        ({
            let v = state.observed(detections, ball_class_id).velocity;
            let lo = Single { bits: MIN_VELOCITY };
            let hi = Single { bits: MAX_VELOCITY };
            &&& v.0.value() is Nan || between(v.0, lo, hi)
            &&& v.1.value() is Nan || between(v.1, lo, hi)
        }),
{
}

/// A frame whose candidate was rejected leaves place and velocity as they were
/// and counts one more miss; the next ball seen ends the count.
pub proof fn law_rejection_keeps_trajectory(
    state: CameraRecoveryState,
    detections: Seq<Detection>,
    ball_class_id: u16,
)
    ensures
        state.missed().last_center == state.last_center,
        state.missed().velocity == state.velocity,
        state.missed().misses == elapsed_frames(state.misses),
        of_class(detections, ball_class_id).len() > 0 ==> state.missed().observed(
            detections,
            ball_class_id,
        ).misses == 0,
        of_class(detections, ball_class_id).len() == 0 ==> state.missed().observed(
            detections,
            ball_class_id,
        ) == state.missed(),
{
}

/// What counts as seen is a ball among the detections, and none of them fits the
/// expectation better.
pub proof fn law_observed_ball_fits_best(
    state: CameraRecoveryState,
    detections: Seq<Detection>,
    ball_class_id: u16,
    i: int,
)
    requires
        0 <= i < of_class(detections, ball_class_id).len(),
    ensures
        ({
            let balls = of_class(detections, ball_class_id);
            let k = first_least(observation_keys(balls, state.prediction()));
            &&& 0 <= k < balls.len()
            &&& state.observed(detections, ball_class_id).last_center == Some(
                (balls[k].center_x, balls[k].center_y),
            )
            &&& observation_score(balls[k], state.prediction()).total_rank()
                <= observation_score(balls[i], state.prediction()).total_rank()
        }),
{
    let balls = of_class(detections, ball_class_id);
    let keys = observation_keys(balls, state.prediction());
    lemma_first_least(keys);
    assert(!key_before(keys[i], keys[first_least(keys)]));
}

/// Counters of one recovery.
#[derive(Clone, Copy, Debug, PartialEq, Eq)]
pub struct RecoveryStats {
    /// Inferences on a centred crop, by its size.
    pub attempts: [u64; 3],
    pub hits: [u64; 3],
    /// Inferences on a tile, by its corner.
    pub tile_attempts: [u64; 4],
    pub tile_hits: [u64; 4],
    pub exhausted: u64,
    pub errors: u64,
    pub commits: u64,
    pub rejects: u64,
}

/// The counters as mathematical values.
pub struct Counters {
    pub attempts: Seq<u64>,
    pub hits: Seq<u64>,
    pub tile_attempts: Seq<u64>,
    pub tile_hits: Seq<u64>,
    pub exhausted: u64,
    pub errors: u64,
    pub commits: u64,
    pub rejects: u64,
}

/// A table in which one counter is one more.
pub open spec fn bumped(s: Seq<u64>, i: int) -> Seq<u64> {
    s.update(i, (s[i] + 1) as u64)
}

impl Counters {
    /// The counter of the step's inferences can take one more.
    pub open spec fn can_attempt(self, step: SearchStep) -> bool {
        match step {
            SearchStep::Local { stage, .. } => self.attempts[stage as int] < u64::MAX,
            SearchStep::Tile { tile, .. } => self.tile_attempts[tile as int] < u64::MAX,
        }
    }

    /// The counter of the step's hits can take one more.
    pub open spec fn can_hit(self, step: SearchStep) -> bool {
        match step {
            SearchStep::Local { stage, .. } => self.hits[stage as int] < u64::MAX,
            SearchStep::Tile { tile, .. } => self.tile_hits[tile as int] < u64::MAX,
        }
    }

    /// Every counter can take one more.
    pub open spec fn room(self) -> bool {
        &&& all_below_max(self.attempts)
        &&& all_below_max(self.hits)
        &&& all_below_max(self.tile_attempts)
        &&& all_below_max(self.tile_hits)
        &&& self.exhausted < u64::MAX
        &&& self.errors < u64::MAX
        &&& self.commits < u64::MAX
        &&& self.rejects < u64::MAX
    }

    /// There is a counter for every stage and every tile.
    pub open spec fn complete(self) -> bool {
        &&& self.attempts.len() == 3 && self.hits.len() == 3
        &&& self.tile_attempts.len() == 4 && self.tile_hits.len() == 4
    }

    /// One more inference of that step.
    pub open spec fn with_attempt(self, step: SearchStep) -> Counters {
        match step {
            SearchStep::Local { stage, .. } => Counters {
                attempts: bumped(self.attempts, stage as int),
                ..self
            },
            SearchStep::Tile { tile, .. } => Counters {
                tile_attempts: bumped(self.tile_attempts, tile as int),
                ..self
            },
        }
    }

    /// One more inference of that step found a ball.
    pub open spec fn with_hit(self, step: SearchStep) -> Counters {
        match step {
            SearchStep::Local { stage, .. } => Counters {
                hits: bumped(self.hits, stage as int),
                ..self
            },
            SearchStep::Tile { tile, .. } => Counters {
                tile_hits: bumped(self.tile_hits, tile as int),
                ..self
            },
        }
    }

    /// One more inference failed.
    pub open spec fn with_error(self) -> Counters {
        Counters { errors: (self.errors + 1) as u64, ..self }
    }

    /// One more search found nothing.
    pub open spec fn with_exhausted(self) -> Counters {
        Counters { exhausted: (self.exhausted + 1) as u64, ..self }
    }

    /// One more ball was accepted.
    pub open spec fn with_commit(self) -> Counters {
        Counters { commits: (self.commits + 1) as u64, ..self }
    }

    /// One more frame had no accepted ball.
    pub open spec fn with_reject(self) -> Counters {
        Counters { rejects: (self.rejects + 1) as u64, ..self }
    }
}

impl View for RecoveryStats {
    type V = Counters;

    open spec fn view(&self) -> Counters {
        Counters {
            attempts: self.attempts@,
            hits: self.hits@,
            tile_attempts: self.tile_attempts@,
            tile_hits: self.tile_hits@,
            exhausted: self.exhausted,
            errors: self.errors,
            commits: self.commits,
            rejects: self.rejects,
        }
    }
}

/// Whether every counter in a table can take one more.
pub open spec fn all_below_max(s: Seq<u64>) -> bool {
    forall|i: int| 0 <= i < s.len() ==> #[trigger] s[i] < u64::MAX
}

impl RecoveryStats {
    /// Every counter can take one more.
    pub open spec fn room(self) -> bool {
        self@.room()
    }

    /// All counters are zero.
    pub open spec fn is_zero(self) -> bool {
        &&& self.attempts@ == seq![0u64, 0, 0]
        &&& self.hits@ == seq![0u64, 0, 0]
        &&& self.tile_attempts@ == seq![0u64, 0, 0, 0]
        &&& self.tile_hits@ == seq![0u64, 0, 0, 0]
        &&& self.exhausted == 0
        &&& self.errors == 0
        &&& self.commits == 0
        &&& self.rejects == 0
    }

    /// Counters at zero.
    pub fn new() -> (r: RecoveryStats)
        ensures
            r.is_zero(),
            r.room(),
    {
        let r = RecoveryStats {
            attempts: [0, 0, 0],
            hits: [0, 0, 0],
            tile_attempts: [0, 0, 0, 0],
            tile_hits: [0, 0, 0, 0],
            exhausted: 0,
            errors: 0,
            commits: 0,
            rejects: 0,
        };
        assert(r.attempts@ =~= seq![0u64, 0, 0]);
        assert(r.hits@ =~= seq![0u64, 0, 0]);
        assert(r.tile_attempts@ =~= seq![0u64, 0, 0, 0]);
        assert(r.tile_hits@ =~= seq![0u64, 0, 0, 0]);
        r
    }

    /// Counts an inference of that step.
    pub fn count_attempt(&mut self, step: &SearchStep)
        requires
            step.counted(),
            old(self)@.can_attempt(*step),
        ensures
            final(self)@ == old(self)@.with_attempt(*step),
    {
        match *step {
            SearchStep::Local { stage, .. } => {
                let n: u64 = self.attempts[stage];
                self.attempts[stage] = n + 1;
            },
            SearchStep::Tile { tile, .. } => {
                let n: u64 = self.tile_attempts[tile];
                self.tile_attempts[tile] = n + 1;
            },
        }
    }

    /// Counts an inference of that step that found a ball.
    pub fn count_hit(&mut self, step: &SearchStep)
        requires
            step.counted(),
            old(self)@.can_hit(*step),
        ensures
            final(self)@ == old(self)@.with_hit(*step),
    {
        match *step {
            SearchStep::Local { stage, .. } => {
                let n: u64 = self.hits[stage];
                self.hits[stage] = n + 1;
            },
            SearchStep::Tile { tile, .. } => {
                let n: u64 = self.tile_hits[tile];
                self.tile_hits[tile] = n + 1;
            },
        }
    }

    /// Whether every counter can take one more.
    pub fn has_room(&self) -> (r: bool)
        ensures
            r == self.room(),
    {
        let mut i: usize = 0;
        while i < 3
            invariant
                i <= 3,
                forall|j: int| 0 <= j < i ==> #[trigger] self.attempts@[j] < u64::MAX,
                forall|j: int| 0 <= j < i ==> #[trigger] self.hits@[j] < u64::MAX,
            decreases 3 - i,
        {
            if self.attempts[i] == u64::MAX || self.hits[i] == u64::MAX {
                return false;
            }
            i = i + 1;
        }
        let mut k: usize = 0;
        while k < 4
            invariant
                k <= 4,
                forall|j: int| 0 <= j < k ==> #[trigger] self.tile_attempts@[j] < u64::MAX,
                forall|j: int| 0 <= j < k ==> #[trigger] self.tile_hits@[j] < u64::MAX,
            decreases 4 - k,
        {
            if self.tile_attempts[k] == u64::MAX || self.tile_hits[k] == u64::MAX {
                return false;
            }
            k = k + 1;
        }
        self.exhausted < u64::MAX && self.errors < u64::MAX && self.commits < u64::MAX
            && self.rejects < u64::MAX
    }
}

/// What is known of the ball in both cameras.
#[derive(Clone, Copy, Debug, PartialEq, Eq)]
pub struct BallRecovery {
    pub class_id: u16,
    pub cameras: [CameraRecoveryState; 2],
    pub attempted_this_call: [bool; 2],
    pub stats: RecoveryStats,
}

/// What is known of the ball, as mathematical values.
pub struct RecoveryModel {
    pub class_id: u16,
    pub cameras: Seq<CameraRecoveryState>,
    pub attempted: Seq<bool>,
    pub counters: Counters,
}

impl View for BallRecovery {
    type V = RecoveryModel;

    open spec fn view(&self) -> RecoveryModel {
        RecoveryModel {
            class_id: self.class_id,
            cameras: self.cameras@,
            attempted: self.attempted_this_call@,
            counters: self.stats@,
        }
    }
}

impl RecoveryModel {
    /// Both cameras have a place in every table, and every step has its counters.
    pub open spec fn complete(self) -> bool {
        &&& self.cameras.len() == 2
        &&& self.attempted.len() == 2
        &&& self.counters.complete()
    }

    /// Whether a search was made for the camera in this call.
    pub open spec fn with_attempted(self, camera: CameraId, attempted: bool) -> RecoveryModel {
        RecoveryModel { attempted: self.attempted.update(camera.index(), attempted), ..self }
    }

    /// The ball was accepted in one of these detections.
    pub open spec fn committed(
        self,
        camera: CameraId,
        accepted: Seq<Detection>,
    ) -> RecoveryModel {
        RecoveryModel {
            cameras: self.cameras.update(
                camera.index(),
                self.cameras[camera.index()].observed(accepted, self.class_id),
            ),
            counters: self.counters.with_commit(),
            ..self
        }
    }

    /// No ball was accepted.
    pub open spec fn rejected(self, camera: CameraId) -> RecoveryModel {
        RecoveryModel {
            cameras: self.cameras.update(
                camera.index(),
                self.cameras[camera.index()].missed(),
            ),
            counters: self.counters.with_reject(),
            ..self
        }
    }
}

impl BallRecovery {
    /// Nothing is known yet.
    pub open spec fn is_fresh(self, class_id: u16) -> bool {
        &&& self.class_id == class_id
        &&& self.cameras@ == seq![CameraRecoveryState::fresh(), CameraRecoveryState::fresh()]
        &&& self.attempted_this_call@ == seq![false, false]
        &&& self.stats.is_zero()
    }

    /// A recovery of balls of that class.
    pub fn new(class_id: u16) -> (r: BallRecovery)
        ensures
            r.is_fresh(class_id),
            r.stats.room(),
    {
        let state = CameraRecoveryState::new();
        let r = BallRecovery {
            class_id,
            cameras: [state, state],
            attempted_this_call: [false, false],
            stats: RecoveryStats::new(),
        };
        assert(r.cameras@ =~= seq![CameraRecoveryState::fresh(), CameraRecoveryState::fresh()]);
        assert(r.attempted_this_call@ =~= seq![false, false]);
        r
    }

    /// What one camera knows.
    pub fn state(&self, camera: CameraId) -> (r: CameraRecoveryState)
        ensures
            r == self.cameras@[camera.index()],
    {
        self.cameras[camera_index(camera)]
    }

    /// Notes whether a search was made for the camera in this call.
    pub fn set_attempted(&mut self, camera: CameraId, attempted: bool)
        ensures
            final(self)@ == old(self)@.with_attempted(camera, attempted),
    {
        self.attempted_this_call[camera_index(camera)] = attempted;
    }

    /// Takes the best of the accepted balls as seen.
    pub fn commit(&mut self, camera: CameraId, accepted: &[Detection])
        requires
            old(self).stats.commits < u64::MAX,
        ensures
            final(self)@ == old(self)@.committed(camera, accepted@),
    {
        let class_id = self.class_id;
        let mut state = self.state(camera);
        state.observe(accepted, class_id);
        self.cameras[camera_index(camera)] = state;
        self.stats.commits = self.stats.commits + 1;
    }

    /// Counts a frame without an accepted ball.
    pub fn reject(&mut self, camera: CameraId)
        requires
            old(self).stats.rejects < u64::MAX,
        ensures
            final(self)@ == old(self)@.rejected(camera),
    {
        let mut state = self.state(camera);
        state.miss();
        self.cameras[camera_index(camera)] = state;
        self.stats.rejects = self.stats.rejects + 1;
    }
}

} // verus!
