//! What holds of every run of a detector, whatever the device answers.

use crate::binary::single::Single;
use crate::camera::CameraId;
use crate::crop::CropRegion;
use crate::detection::{of_class, Detection};
use crate::detector::GpuNv12Frame;
use crate::inference::{all_remapped, prepared_planes, region_addresses, DetectorSetUp};
use crate::inference_laws::{law_first_corner_is_read_from_the_start, law_region_fills_the_input};
use crate::mapping_laws::{law_detection_is_mapped_to_its_pixels, mapped_to_pixels, usual_detection};
use crate::ort_gpu::OrtGpuDetector;
use crate::recovery::{Counters, RecoveryModel};
use crate::region_laws::fills_input;
use crate::search::{
    numbered_before, search_steps, SearchStep, LOCAL_RECOVERY_HORIZON, TILED_SEARCH_INTERVAL,
};
use crate::search_run::{
    lemma_noted_search_is_sound, recovery_cleared, steps_for, DetectGoal, DetectPhase, EventModel,
    RunModel,
};
use crate::tiling::law_tiles_cover_frame;
use vstd::prelude::*;

verus! {

/// On a ten-bit frame an inference is reached only right after both conversions
/// worked, the luma before the chroma, or right after another inference of the same
/// search; and each conversion is the one that the frame needs.
pub proof fn law_ten_bit_frames_are_converted_first(
    set_up: DetectorSetUp,
    run: RunModel,
    event: EventModel,
)
    requires
        run.sound(set_up),
        run.answers(event),
        run.frame.is_10bit,
    ensures
        ({
            let next = run.stepped(set_up, event);
            &&& next.phase is Infer ==> (run.phase is ConvertChroma && event is Done) || (
            run.phase is Infer && run.goal == DetectGoal::Search)
            &&& next.phase matches DetectPhase::ConvertChroma { conversion } ==> {
                &&& run.phase is ConvertLuma && event is Done
                &&& conversion == run.conversions(set_up)[1]
            }
            &&& next.phase matches DetectPhase::ConvertLuma { conversion } ==> {
                &&& run.phase is EnsureContext || (run.phase is Infer && run.goal
                    == DetectGoal::Whole)
                &&& conversion == run.conversions(set_up)[0]
            }
        }),
{
}

/// A search that is begun by itself converts the planes of a ten-bit frame too: it
/// does not begin with an inference.
pub proof fn law_forced_search_converts_first(
    set_up: DetectorSetUp,
    known: Option<RecoveryModel>,
    camera: CameraId,
    frame: GpuNv12Frame,
)
    requires
        frame.is_10bit,
    ensures
        !(RunModel::idle(known, camera, frame).recovering(set_up).phase is Infer),
{
}

/// Planes of eight bits are never converted.
pub proof fn law_eight_bit_frames_are_not_converted(
    set_up: DetectorSetUp,
    run: RunModel,
    event: EventModel,
)
    requires
        run.sound(set_up),
        run.answers(event),
        !run.frame.is_10bit,
    ensures
        !(run.stepped(set_up, event).phase is ConvertLuma),
        !(run.stepped(set_up, event).phase is ConvertChroma),
{
}

/// The run after events.
pub open spec fn after_run(
    set_up: DetectorSetUp,
    start: RunModel,
    events: Seq<EventModel>,
) -> RunModel
    decreases events.len(),
{
    if events.len() == 0 {
        start
    } else {
        after_run(set_up, start, events.drop_last()).stepped(set_up, events.last())
    }
}

/// Every event answers the phase that it meets.
pub open spec fn all_answer(
    set_up: DetectorSetUp,
    start: RunModel,
    events: Seq<EventModel>,
) -> bool
    decreases events.len(),
{
    events.len() == 0 || {
        &&& all_answer(set_up, start, events.drop_last())
        &&& after_run(set_up, start, events.drop_last()).answers(events.last())
    }
}

/// The region that a phase looks at, if it looks at any.
pub open spec fn region_of(phase: DetectPhase) -> Seq<CropRegion> {
    match phase {
        DetectPhase::Infer { region, .. } => seq![region],
        _ => seq![],
    }
}

/// The regions that a run has the model run on, in order.
pub open spec fn regions_looked_at(
    set_up: DetectorSetUp,
    start: RunModel,
    events: Seq<EventModel>,
) -> Seq<CropRegion>
    decreases events.len(),
{
    if events.len() == 0 {
        region_of(start.phase)
    } else {
        regions_looked_at(set_up, start, events.drop_last()) + region_of(
            after_run(set_up, start, events).phase,
        )
    }
}

/// The regions of search steps.
pub open spec fn areas(steps: Seq<SearchStep>) -> Seq<CropRegion> {
    steps.map_values(|s: SearchStep| s.area())
}

/// What stays of what is known: all but the note on the search and its counters.
pub open spec fn same_ball(a: Option<RecoveryModel>, b: Option<RecoveryModel>) -> bool {
    match (a, b) {
        (Some(x), Some(y)) => {
            &&& x.class_id == y.class_id
            &&& x.cameras == y.cameras
            &&& x.counters.commits == y.counters.commits
            &&& x.counters.rejects == y.counters.rejects
        },
        (None, None) => true,
        _ => false,
    }
}

/// The steps that a search of the frame has.
pub open spec fn due_steps(run: RunModel) -> Seq<SearchStep> {
    match run.known {
        Some(b) => steps_for(b, run.camera, run.frame.width, run.frame.height),
        None => seq![],
    }
}

proof fn lemma_step_keeps_ball(set_up: DetectorSetUp, run: RunModel, event: EventModel)
    ensures
        ({
            let next = run.stepped(set_up, event);
            &&& same_ball(run.known, next.known)
            &&& next.camera == run.camera
            &&& next.frame == run.frame
            &&& due_steps(next) == due_steps(run)
        }),
{
}

/// A run leaves every trajectory, and the numbers of accepted and rejected balls, as
/// they were.
pub proof fn law_run_keeps_trajectories(
    set_up: DetectorSetUp,
    start: RunModel,
    events: Seq<EventModel>,
)
    ensures
        same_ball(start.known, after_run(set_up, start, events).known),
        after_run(set_up, start, events).camera == start.camera,
        after_run(set_up, start, events).frame == start.frame,
        due_steps(after_run(set_up, start, events)) == due_steps(start),
    decreases events.len(),
{
    if events.len() > 0 {
        law_run_keeps_trajectories(set_up, start, events.drop_last());
        lemma_step_keeps_ball(
            set_up,
            after_run(set_up, start, events.drop_last()),
            events.last(),
        );
    }
}

/// How far a run has come in the list of all regions: `base` of them come before
/// those of the search.
spec fn regions_before(
    run: RunModel,
    looked: Seq<CropRegion>,
    all: Seq<CropRegion>,
    base: int,
) -> bool {
    &&& looked.len() <= all.len()
    &&& looked == all.take(looked.len() as int)
    &&& run.goal == DetectGoal::Whole ==> match run.phase {
        DetectPhase::EnsureContext => base == 1 && looked.len() == 0,
        DetectPhase::ConvertLuma { .. } => base == 1 && looked.len() == 0,
        DetectPhase::ConvertChroma { .. } => base == 1 && looked.len() == 0,
        DetectPhase::Infer { .. } => base == 1 && looked.len() == 1,
        _ => true,
    }
    &&& run.goal == DetectGoal::Search ==> {
        &&& run.steps == due_steps(run)
        &&& match run.phase {
            DetectPhase::EnsureContext => false,
            DetectPhase::ConvertLuma { .. } => looked.len() == base,
            DetectPhase::ConvertChroma { .. } => looked.len() == base,
            DetectPhase::Infer { .. } => looked.len() == base + run.place + 1 && 0 <= run.place
                < run.steps.len(),
            _ => true,
        }
    }
}

proof fn lemma_searching_looks(
    set_up: DetectorSetUp,
    run: RunModel,
    place: int,
    looked: Seq<CropRegion>,
    all: Seq<CropRegion>,
    base: int,
)
    requires
        run.goal == DetectGoal::Search,
        run.steps == due_steps(run),
        0 <= base <= 1,
        0 <= place <= run.steps.len(),
        all.len() == base + run.steps.len(),
        forall|i: int| 0 <= i < run.steps.len() ==> #[trigger] all[base + i] == run.steps[i].area(),
        looked == all.take(base + place),
    ensures
        regions_before(
            run.searching(set_up, place),
            looked + region_of(run.searching(set_up, place).phase),
            all,
            base,
        ),
{
    let next = run.searching(set_up, place);
    if next.phase is Infer {
        assert(all[base + place] == run.steps[place].area());
        assert(looked + region_of(next.phase) =~= all.take(base + place + 1));
    } else {
        assert(looked + region_of(next.phase) =~= looked);
    }
}

proof fn lemma_preparing_looks(
    set_up: DetectorSetUp,
    run: RunModel,
    looked: Seq<CropRegion>,
    all: Seq<CropRegion>,
    base: int,
)
    requires
        0 <= base <= 1,
        base == 1 ==> all.len() > 0 && all[0] == CropRegion::whole(
            run.frame.width,
            run.frame.height,
        ),
        all.len() == base + due_steps(run).len(),
        forall|i: int|
            0 <= i < due_steps(run).len() ==> #[trigger] all[base + i] == due_steps(run)[i].area(),
        run.goal == DetectGoal::Whole ==> base == 1 && looked.len() == 0,
        run.goal == DetectGoal::Search ==> run.steps == due_steps(run) && looked == all.take(base),
    ensures
        regions_before(
            run.preparing(set_up),
            looked + region_of(run.preparing(set_up).phase),
            all,
            base,
        ),
        regions_before(
            run.ready(set_up),
            looked + region_of(run.ready(set_up).phase),
            all,
            base,
        ),
{
    if run.goal == DetectGoal::Search {
        lemma_searching_looks(set_up, run, 0, looked, all, base);
        assert(looked + region_of(run.preparing(set_up).phase) =~= looked || run.preparing(set_up)
            == run.ready(set_up));
    } else {
        let next = run.ready(set_up);
        if next.phase is Infer {
            assert(looked + region_of(next.phase) =~= all.take(1));
        } else {
            assert(looked + region_of(next.phase) =~= all.take(0));
        }
        let other = run.preparing(set_up);
        if !(other.phase is Infer) {
            assert(looked + region_of(other.phase) =~= all.take(0));
        }
    }
}

proof fn lemma_step_looks(
    set_up: DetectorSetUp,
    run: RunModel,
    event: EventModel,
    looked: Seq<CropRegion>,
    all: Seq<CropRegion>,
    base: int,
)
    requires
        0 <= base <= 1,
        base == 1 ==> all.len() > 0 && all[0] == CropRegion::whole(
            run.frame.width,
            run.frame.height,
        ),
        all.len() == base + due_steps(run).len(),
        forall|i: int|
            0 <= i < due_steps(run).len() ==> #[trigger] all[base + i] == due_steps(run)[i].area(),
        regions_before(run, looked, all, base),
        run.answers(event),
    ensures
        regions_before(
            run.stepped(set_up, event),
            looked + region_of(run.stepped(set_up, event).phase),
            all,
            base,
        ),
{
    let next = run.stepped(set_up, event);
    lemma_step_keeps_ball(set_up, run, event);
    if !(next.phase is Infer) {
        assert(looked + region_of(next.phase) =~= looked);
    }
    match (run.phase, event) {
        (DetectPhase::EnsureContext, EventModel::Done) => {
            let cleared = RunModel {
                known: recovery_cleared(run.known, run.camera),
                ..run
            };
            assert(due_steps(cleared) == due_steps(run));
            lemma_preparing_looks(set_up, cleared, looked, all, base);
        },
        (DetectPhase::ConvertChroma { .. }, EventModel::Done) => {
            lemma_preparing_looks(set_up, run, looked, all, base);
        },
        (DetectPhase::Infer { region, .. }, EventModel::Found { detections }) => {
            let seen = all_remapped(detections, region, run.frame.width, run.frame.height);
            match run.goal {
                DetectGoal::Whole => {
                    if let Some(b) = run.known {
                        let noted = RunModel {
                            known: Some(b.with_attempted(run.camera, true)),
                            goal: DetectGoal::Search,
                            steps: steps_for(b, run.camera, run.frame.width, run.frame.height),
                            place: 0,
                            found: run.found + seen,
                            ..run
                        };
                        assert(due_steps(noted) == due_steps(run));
                        lemma_preparing_looks(set_up, noted, looked, all, base);
                    }
                },
                DetectGoal::Search => {
                    lemma_searching_looks(set_up, run, run.place + 1, looked, all, base);
                },
            }
        },
        _ => {},
    }
}

/// A run on a frame looks at the whole frame first, and then at regions of the search
/// that is due, from the first one on and in order; at nothing else, and at nothing
/// twice.
pub proof fn law_run_looks_at_frame_and_then_at_due_regions(
    set_up: DetectorSetUp,
    known: Option<RecoveryModel>,
    camera: CameraId,
    frame: GpuNv12Frame,
    events: Seq<EventModel>,
)
    requires
        all_answer(set_up, RunModel::idle(known, camera, frame), events),
    ensures
        ({
            let start = RunModel::idle(known, camera, frame);
            let looked = regions_looked_at(set_up, start, events);
            let all = seq![CropRegion::whole(frame.width, frame.height)] + areas(due_steps(start));
            looked.len() <= all.len() && looked == all.take(looked.len() as int)
        }),
{
    let start = RunModel::idle(known, camera, frame);
    let all = seq![CropRegion::whole(frame.width, frame.height)] + areas(due_steps(start));
    assert(region_of(start.phase) =~= all.take(0));
    lemma_run_looks(set_up, start, events, all, 1);
}

/// A search that is begun by itself looks at regions that are due, from the first one
/// on and in order, and at nothing else.
pub proof fn law_forced_search_looks_at_due_regions(
    set_up: DetectorSetUp,
    known: Option<RecoveryModel>,
    camera: CameraId,
    frame: GpuNv12Frame,
    events: Seq<EventModel>,
)
    requires
        all_answer(
            set_up,
            RunModel::idle(known, camera, frame).recovering(set_up),
            events,
        ),
    ensures
        ({
            let idle = RunModel::idle(known, camera, frame);
            let looked = regions_looked_at(set_up, idle.recovering(set_up), events);
            let all = areas(due_steps(idle));
            looked.len() <= all.len() && looked == all.take(looked.len() as int)
        }),
{
    let idle = RunModel::idle(known, camera, frame);
    let start = idle.recovering(set_up);
    let all = areas(due_steps(idle));
    assert(due_steps(start) == due_steps(idle));
    if let Some(b) = known {
        let noted = RunModel {
            known: Some(b.with_attempted(camera, true)),
            goal: DetectGoal::Search,
            steps: steps_for(b, camera, frame.width, frame.height),
            place: 0,
            ..idle
        };
        assert(due_steps(noted) == due_steps(idle));
        let none = Seq::<CropRegion>::empty();
        assert(none =~= all.take(0));
        lemma_preparing_looks(set_up, noted, none, all, 0);
        assert(none + region_of(start.phase) =~= region_of(start.phase));
    }
    if start.phase is Done {
        assert(region_of(start.phase) =~= all.take(0));
    }
    lemma_run_looks(set_up, start, events, all, 0);
}

/// Where the ball is expected nowhere, or the frame is not one of those that are
/// searched in their corners, a search looks at nothing.
pub proof fn law_nothing_due_nothing_looked_at(
    set_up: DetectorSetUp,
    b: RecoveryModel,
    camera: CameraId,
    frame: GpuNv12Frame,
    events: Seq<EventModel>,
)
    requires
        ({
            let state = b.cameras[camera.index()];
            state.last_center is None || (state.misses >= LOCAL_RECOVERY_HORIZON && state.misses
                % TILED_SEARCH_INTERVAL != 0)
        }),
        all_answer(
            set_up,
            RunModel::idle(Some(b), camera, frame).recovering(set_up),
            events,
        ),
    ensures
        regions_looked_at(
            set_up,
            RunModel::idle(Some(b), camera, frame).recovering(set_up),
            events,
        ).len() == 0,
{
    law_forced_search_looks_at_due_regions(set_up, Some(b), camera, frame, events);
}

proof fn lemma_run_looks(
    set_up: DetectorSetUp,
    start: RunModel,
    events: Seq<EventModel>,
    all: Seq<CropRegion>,
    base: int,
)
    requires
        0 <= base <= 1,
        base == 1 ==> all.len() > 0 && all[0] == CropRegion::whole(
            start.frame.width,
            start.frame.height,
        ),
        all.len() == base + due_steps(start).len(),
        forall|i: int|
            0 <= i < due_steps(start).len() ==> #[trigger] all[base + i]
                == due_steps(start)[i].area(),
        regions_before(start, region_of(start.phase), all, base),
        all_answer(set_up, start, events),
    ensures
        regions_before(
            after_run(set_up, start, events),
            regions_looked_at(set_up, start, events),
            all,
            base,
        ),
    decreases events.len(),
{
    if events.len() > 0 {
        let init = events.drop_last();
        lemma_run_looks(set_up, start, init, all, base);
        law_run_keeps_trajectories(set_up, start, init);
        lemma_step_looks(
            set_up,
            after_run(set_up, start, init),
            events.last(),
            regions_looked_at(set_up, start, init),
            all,
            base,
        );
    }
}

/// How often a step was tried.
pub open spec fn attempts_of(c: Counters, step: SearchStep) -> u64 {
    match step {
        SearchStep::Local { stage, .. } => c.attempts[stage as int],
        SearchStep::Tile { tile, .. } => c.tile_attempts[tile as int],
    }
}

/// How often a step found a ball.
pub open spec fn hits_of(c: Counters, step: SearchStep) -> u64 {
    match step {
        SearchStep::Local { stage, .. } => c.hits[stage as int],
        SearchStep::Tile { tile, .. } => c.tile_hits[tile as int],
    }
}

/// No step found more balls than it was tried, and the one that is being tried has
/// its find still before it.
pub open spec fn hits_are_backed(run: RunModel) -> bool {
    run.known matches Some(b) ==> {
        &&& b.counters.complete()
        &&& forall|k: int| 0 <= k < 3 ==> #[trigger] b.counters.hits[k] <= b.counters.attempts[k]
        &&& forall|k: int|
            0 <= k < 4 ==> #[trigger] b.counters.tile_hits[k] <= b.counters.tile_attempts[k]
        &&& run.phase is Infer && run.goal == DetectGoal::Search ==> hits_of(
            b.counters,
            run.steps[run.place],
        ) < attempts_of(b.counters, run.steps[run.place])
    }
}

proof fn lemma_searching_is_backed(set_up: DetectorSetUp, run: RunModel, place: int)
    requires
        0 <= place,
        run.search_sound(set_up, place),
        ({
            let c = run.known->0.counters;
            &&& forall|k: int| 0 <= k < 3 ==> #[trigger] c.hits[k] <= c.attempts[k]
            &&& forall|k: int| 0 <= k < 4 ==> #[trigger] c.tile_hits[k] <= c.tile_attempts[k]
        }),
    ensures
        hits_are_backed(run.searching(set_up, place)),
{
    if place < run.steps.len() {
        let step = run.steps[place];
        assert(step.counted());
        let c = run.known->0.counters;
        match step {
            SearchStep::Local { stage, .. } => {
                assert(c.hits[stage as int] <= c.attempts[stage as int]);
            },
            SearchStep::Tile { tile, .. } => {
                assert(c.tile_hits[tile as int] <= c.tile_attempts[tile as int]);
            },
        }
    }
}

/// No step ever finds more balls than it is tried: whatever the device answers, a
/// run keeps this.
pub proof fn law_hits_never_exceed_attempts(
    set_up: DetectorSetUp,
    run: RunModel,
    event: EventModel,
)
    requires
        run.sound(set_up),
        run.answers(event),
        hits_are_backed(run),
    ensures
        hits_are_backed(run.stepped(set_up, event)),
{
    match (run.phase, event) {
        (DetectPhase::ConvertChroma { .. }, EventModel::Done) => {
            if run.goal == DetectGoal::Search {
                lemma_searching_is_backed(set_up, run, 0);
            }
        },
        (DetectPhase::Infer { region, .. }, EventModel::Found { detections }) => {
            let seen = all_remapped(detections, region, run.frame.width, run.frame.height);
            match run.goal {
                DetectGoal::Whole => {
                    if run.known is Some {
                        let now = RunModel { found: run.found + seen, ..run };
                        lemma_noted_search_is_sound(set_up, now);
                        lemma_searching_is_backed(set_up, now.noted(), 0);
                    }
                },
                DetectGoal::Search => {
                    let step = run.steps[run.place];
                    assert(step.counted());
                    lemma_searching_is_backed(set_up, run, run.place + 1);
                },
            }
        },
        _ => {},
    }
}

/// A ball in a region of the search ends the run with all the balls of that region,
/// every one of which is of the class that is searched for, and counts as a hit.
pub proof fn law_first_ball_ends_the_search(
    set_up: DetectorSetUp,
    run: RunModel,
    detections: Seq<Detection>,
    i: int,
)
    requires
        run.sound(set_up),
        run.phase is Infer,
        run.goal == DetectGoal::Search,
        ({
            let seen = all_remapped(
                detections,
                run.phase->Infer_region,
                run.frame.width,
                run.frame.height,
            );
            0 <= i < of_class(seen, run.known->0.class_id).len()
        }),
    ensures
        ({
            let seen = all_remapped(
                detections,
                run.phase->Infer_region,
                run.frame.width,
                run.frame.height,
            );
            let b = run.known->0;
            let balls = of_class(seen, b.class_id);
            let next = run.stepped(set_up, EventModel::Found { detections });
            &&& next.phase is Done
            &&& next.found == run.found + balls
            &&& balls[i].class_id == b.class_id && seen.contains(balls[i])
            &&& next.known->0.counters == b.counters.with_hit(run.steps[run.place])
        }),
{
    let seen = all_remapped(
        detections,
        run.phase->Infer_region,
        run.frame.width,
        run.frame.height,
    );
    let class_id = run.known->0.class_id;
    let same = |d: Detection| d.class_id == class_id;
    seen.lemma_filter_pred(same, i);
    seen.lemma_filter_contains_rev(same, seen.filter(same)[i]);
}

/// An inference of the search that fails ends the search and not the run: it ends
/// with what was found before, and counts as an error and as a vain search.
pub proof fn law_failed_region_ends_the_search(
    set_up: DetectorSetUp,
    run: RunModel,
    event: EventModel,
)
    requires
        run.sound(set_up),
        run.phase is Infer,
        run.goal == DetectGoal::Search,
        event is Refused,
    ensures
        ({
            let next = run.stepped(set_up, event);
            &&& next.phase is Done
            &&& next.error is None
            &&& next.found == run.found
            &&& next.known->0.counters
                == run.known->0.counters.with_error().with_exhausted()
        }),
{
}

/// Everything that a search begun by itself has found is of the class that is
/// searched for, and the search is noted.
pub proof fn law_forced_search_finds_balls_only(
    set_up: DetectorSetUp,
    b: RecoveryModel,
    camera: CameraId,
    frame: GpuNv12Frame,
    events: Seq<EventModel>,
)
    requires
        b.complete(),
    ensures
        ({
            let start = RunModel::idle(Some(b), camera, frame).recovering(set_up);
            let now = after_run(set_up, start, events);
            &&& now.goal == DetectGoal::Search
            &&& now.known is Some
            &&& now.known->0.attempted == b.attempted.update(camera.index(), true)
            &&& forall|i: int|
                0 <= i < now.found.len() ==> (#[trigger] now.found[i]).class_id == b.class_id
        }),
    decreases events.len(),
{
    let start = RunModel::idle(Some(b), camera, frame).recovering(set_up);
    if events.len() > 0 {
        law_forced_search_finds_balls_only(set_up, b, camera, frame, events.drop_last());
        let run = after_run(set_up, start, events.drop_last());
        law_run_keeps_trajectories(set_up, start, events.drop_last());
        let next = run.stepped(set_up, events.last());
        if let (DetectPhase::Infer { region, .. }, EventModel::Found { detections }) = (
            run.phase,
            events.last(),
        ) {
            let seen = all_remapped(detections, region, run.frame.width, run.frame.height);
            let same = |d: Detection| d.class_id == b.class_id;
            assert forall|i: int| 0 <= i < next.found.len() implies (
            #[trigger] next.found[i]).class_id == b.class_id by {
                if i >= run.found.len() {
                    seen.lemma_filter_pred(same, i - run.found.len());
                } else {
                    assert(next.found[i] == run.found[i]);
                }
            }
        }
        lemma_context_not_again(set_up, b, camera, frame, events.drop_last());
    }
}

proof fn lemma_context_not_again(
    set_up: DetectorSetUp,
    b: RecoveryModel,
    camera: CameraId,
    frame: GpuNv12Frame,
    events: Seq<EventModel>,
)
    ensures
        ({
            let start = RunModel::idle(Some(b), camera, frame).recovering(set_up);
            !(after_run(set_up, start, events).phase is EnsureContext)
        }),
    decreases events.len(),
{
    if events.len() > 0 {
        lemma_context_not_again(set_up, b, camera, frame, events.drop_last());
    }
}

/// Once the expected place is no longer believed, every fourth frame is searched
/// in all its pixels, but for the last column of an odd width and the last row of
/// an odd height.
pub proof fn law_tiled_search_looks_everywhere(
    width: u32,
    height: u32,
    predicted: (Single, Single),
    misses: u32,
    px: int,
    py: int,
)
    requires
        misses >= LOCAL_RECOVERY_HORIZON,
        misses % TILED_SEARCH_INTERVAL == 0,
        0 <= px < width - width % 2,
        0 <= py < height - height % 2,
    ensures
        exists|i: int|
            0 <= i < search_steps(width, height, predicted, misses).len() && (
            #[trigger] search_steps(width, height, predicted, misses)[i]).area().contains(px, py),
{
    law_tiles_cover_frame(width, height, px, py);
    let tiles = CropRegion::tiles(width, height);
    let i = choose|i: int| 0 <= i < 4 && (#[trigger] tiles[i]).contains(px, py);
    assert(search_steps(width, height, predicted, misses)[i].area() == tiles[i]);
}

/// A ball in the whole frame ends the run with all that the frame showed, and nothing is
/// searched for.
pub proof fn law_ball_in_the_frame_ends_the_run(
    set_up: DetectorSetUp,
    run: RunModel,
    detections: Seq<Detection>,
    k: int,
)
    requires
        run.sound(set_up),
        run.phase is Infer,
        run.goal == DetectGoal::Whole,
        run.found.len() == 0,
        run.known is Some,
        0 <= k < detections.len(),
        detections[k].class_id == run.known->0.class_id,
    ensures
        ({
            let next = run.stepped(set_up, EventModel::Found { detections });
            &&& next.phase is Done
            &&& next.goal == DetectGoal::Whole
            &&& next.known == run.known
            &&& next.found.len() == detections.len()
            &&& forall|i: int|
                0 <= i < detections.len() ==> (#[trigger] next.found[i]).class_id
                    == detections[i].class_id && next.found[i].confidence
                    == detections[i].confidence
        }),
{
    let seen = all_remapped(
        detections,
        run.phase->Infer_region,
        run.frame.width,
        run.frame.height,
    );
    assert(seen[k].class_id == run.known->0.class_id);
}

/// Where balls are searched for and the whole frame shows none, a search is noted; it
/// looks somewhere if one is due.
pub proof fn law_no_ball_in_the_frame_begins_a_search(
    set_up: DetectorSetUp,
    run: RunModel,
    detections: Seq<Detection>,
)
    requires
        run.sound(set_up),
        run.phase is Infer,
        run.goal == DetectGoal::Whole,
        run.known is Some,
        forall|i: int|
            0 <= i < detections.len() ==> (#[trigger] detections[i]).class_id
                != run.known->0.class_id,
    ensures
        ({
            let next = run.stepped(set_up, EventModel::Found { detections });
            &&& next.goal == DetectGoal::Search
            &&& next.known is Some
            &&& next.known->0.attempted == run.known->0.attempted.update(run.camera.index(), true)
            &&& run.known->0.cameras[run.camera.index()].last_center is Some
                && run.frame.is_10bit ==> next.phase is ConvertLuma
            &&& run.known->0.cameras[run.camera.index()].last_center is None ==> next.phase is Done
        }),
{
    let seen = all_remapped(
        detections,
        run.phase->Infer_region,
        run.frame.width,
        run.frame.height,
    );
    assert forall|i: int| 0 <= i < seen.len() implies (#[trigger] seen[i]).class_id
        != run.known->0.class_id by {
        assert(detections[i].class_id != run.known->0.class_id);
    }
}

/// An attempt counts for its own step and for no other, a hit likewise; and neither
/// counts as anything else.
pub proof fn law_steps_are_counted_apart(c: Counters, step: SearchStep, other: SearchStep)
    requires
        c.complete(),
        step.counted(),
        other.counted(),
        c.can_attempt(step),
        c.can_hit(step),
    ensures
        attempts_of(c.with_attempt(step), step) == attempts_of(c, step) + 1,
        hits_of(c.with_hit(step), step) == hits_of(c, step) + 1,
        numbered_before(step, other) || numbered_before(other, step) || (step is Local)
            != (other is Local) ==> attempts_of(c.with_attempt(step), other) == attempts_of(
            c,
            other,
        ) && hits_of(c.with_hit(step), other) == hits_of(c, other),
        hits_of(c.with_attempt(step), other) == hits_of(c, other),
        attempts_of(c.with_hit(step), other) == attempts_of(c, other),
        c.with_attempt(step).errors == c.errors && c.with_attempt(step).exhausted == c.exhausted,
        c.with_hit(step).errors == c.errors && c.with_hit(step).exhausted == c.exhausted,
        c.with_attempt(step).commits == c.commits && c.with_attempt(step).rejects == c.rejects,
        c.with_hit(step).commits == c.commits && c.with_hit(step).rejects == c.rejects,
{
}

/// Errors, vain searches, accepted and rejected balls are counted one by one, each as
/// what it is.
pub proof fn law_outcomes_are_counted_apart(c: Counters)
    requires
        c.room(),
    ensures
        c.with_error() == (Counters { errors: (c.errors + 1) as u64, ..c }),
        c.with_exhausted() == (Counters { exhausted: (c.exhausted + 1) as u64, ..c }),
        c.with_commit() == (Counters { commits: (c.commits + 1) as u64, ..c }),
        c.with_reject() == (Counters { rejects: (c.rejects + 1) as u64, ..c }),
{
}

/// The regions of a search depend on the camera's own trajectory; a search is due only
/// where the ball was seen before.
pub proof fn law_search_follows_its_own_camera(
    a: RecoveryModel,
    b: RecoveryModel,
    camera: CameraId,
    width: u32,
    height: u32,
)
    requires
        a.cameras[camera.index()] == b.cameras[camera.index()],
    ensures
        steps_for(a, camera, width, height) == steps_for(b, camera, width, height),
        a.cameras[camera.index()].last_center is None ==> steps_for(a, camera, width, height).len()
            == 0,
{
}

/// A run begins with no search noted for its camera, and leaves all else that is known
/// as it is.
pub proof fn law_run_begins_without_a_search(b: RecoveryModel, camera: CameraId)
    requires
        b.complete(),
    ensures
        recovery_cleared(Some(b), camera) matches Some(now) && {
            &&& !now.attempted[camera.index()]
            &&& now.attempted[camera.other().index()] == b.attempted[camera.other().index()]
            &&& now.cameras == b.cameras
            &&& now.class_id == b.class_id
            &&& now.counters == b.counters
        },
{
}

/// A run asks for the region that it is to look at: the whole of it, in the frame as it
/// stands, for the camera that the frame is of, filling the model's input.
pub proof fn law_run_asks_for_its_region(set_up: DetectorSetUp, run: RunModel)
    requires
        run.sound(set_up),
        run.phase is Infer,
        set_up.frames_fill_input(),
        1 <= set_up.input_size < 0x40_0000,
        set_up.frame_width == run.frame.width && set_up.frame_height == run.frame.height,
        run.frame.width >= 1,
        run.frame.height >= 1,
        run.phase->Infer_region.width >= 1,
        run.phase->Infer_region.height >= 1,
    ensures
        ({
            let r = run.phase->Infer_request;
            let region = run.phase->Infer_region;
            &&& r.camera == run.camera
            &&& r.rotation == run.frame.rotation
            &&& r.width == region.width && r.height == region.height
            &&& fills_input(
                set_up.input_size,
                region.width,
                region.height,
                r.scale,
                r.pad_x,
                r.pad_y,
            )
            &&& !run.frame.is_10bit && run.frame.rotation != 180 && region.x == 0 && region.y == 0
                && region.within(run.frame.width, run.frame.height) ==> r.y_ptr == run.frame.y_ptr
                && r.uv_ptr == run.frame.uv_ptr
            &&& run.frame.is_10bit && run.frame.rotation != 180 && region.x == 0 && region.y == 0
                && region.within(run.frame.width, run.frame.height) ==> r.y_ptr
                == set_up.buffers.nv12_8bit_y && r.uv_ptr == set_up.buffers.nv12_8bit_uv
        }),
{
    let frame = run.frame;
    let region = run.phase->Infer_region;
    let planes = prepared_planes(set_up.buffers, frame)->Ok_0.0;
    let start = region_addresses(
        planes,
        frame.width,
        frame.height,
        frame.rotation,
        region,
    )->Ok_0;
    law_region_fills_the_input(set_up, run.camera, planes, frame.rotation, region, start);
    if frame.rotation != 180 && region.x == 0 && region.y == 0 && region.within(
        frame.width,
        frame.height,
    ) {
        law_first_corner_is_read_from_the_start(
            planes,
            frame.width,
            frame.height,
            frame.rotation,
            region,
        );
    }
}

/// What the model finds in a region is reported where it lies in the frame: in the whole
/// frame everything, and in a region of the search the balls.
pub proof fn law_finds_are_reported_in_the_frame(
    set_up: DetectorSetUp,
    run: RunModel,
    detections: Seq<Detection>,
    i: int,
)
    requires
        run.sound(set_up),
        run.phase is Infer,
        run.found.len() == 0 || run.goal == DetectGoal::Search,
        run.phase->Infer_region.within(run.frame.width, run.frame.height),
        run.phase->Infer_region.width >= 1,
        run.phase->Infer_region.height >= 1,
        forall|k: int| 0 <= k < detections.len() ==> usual_detection(#[trigger] detections[k]),
    ensures
        ({
            let next = run.stepped(set_up, EventModel::Found { detections });
            let region = run.phase->Infer_region;
            let (w, h) = (run.frame.width, run.frame.height);
            &&& run.goal == DetectGoal::Whole && 0 <= i < detections.len() ==> next.found.len()
                == detections.len() && mapped_to_pixels(region, detections[i], next.found[i], w, h)
            &&& run.goal == DetectGoal::Search && run.found.len() <= i < next.found.len()
                ==> exists|k: int|
                0 <= k < detections.len() && mapped_to_pixels(
                    region,
                    #[trigger] detections[k],
                    next.found[i],
                    w,
                    h,
                )
        }),
{
    let region = run.phase->Infer_region;
    let (w, h) = (run.frame.width, run.frame.height);
    let next = run.stepped(set_up, EventModel::Found { detections });
    let seen = all_remapped(detections, region, w, h);
    if run.goal == DetectGoal::Whole {
        if 0 <= i < detections.len() {
            assert(usual_detection(detections[i]));
            law_detection_is_mapped_to_its_pixels(region, detections[i], w, h);
            assert(next.found =~= seen);
        }
    } else if run.found.len() <= i < next.found.len() {
        let class_id = run.known->0.class_id;
        let same = |d: Detection| d.class_id == class_id;
        let j = i - run.found.len();
        let ball = of_class(seen, class_id)[j];
        assert(next.found[i] == ball);
        seen.lemma_filter_contains_rev(same, ball);
        let k = choose|k: int| 0 <= k < seen.len() && seen[k] == ball;
        assert(usual_detection(detections[k]));
        law_detection_is_mapped_to_its_pixels(region, detections[k], w, h);
    }
}

/// A frame that is not of the size that the detector was set up for is refused before
/// anything is done with it; a frame that is begins with the device's context.
pub proof fn law_frame_of_another_size_is_refused(
    detector: OrtGpuDetector,
    camera: CameraId,
    frame: GpuNv12Frame,
)
    ensures
        ({
            let run = detector.started(camera, frame);
            let fits = frame.width == detector.set_up.frame_width && frame.height
                == detector.set_up.frame_height;
            &&& run.phase is Failed <==> !fits
            &&& run.phase is EnsureContext <==> fits
            &&& run.error is Some <==> !fits
            &&& run.found.len() == 0
            &&& run.camera == camera && run.frame == frame
        }),
{
}

/// A search that has looked at its last region and found no ball there ends with what was
/// found before, and counts as one more vain search.
pub proof fn law_vain_search_is_counted(
    set_up: DetectorSetUp,
    run: RunModel,
    detections: Seq<Detection>,
)
    requires
        run.sound(set_up),
        run.phase is Infer,
        run.goal == DetectGoal::Search,
        run.place == run.steps.len() - 1,
        forall|i: int|
            0 <= i < detections.len() ==> (#[trigger] detections[i]).class_id
                != run.known->0.class_id,
    ensures
        ({
            let next = run.stepped(set_up, EventModel::Found { detections });
            let (before, after) = (run.known->0.counters, next.known->0.counters);
            &&& next.phase is Done
            &&& next.error is None
            &&& next.found == run.found
            &&& after.exhausted == before.exhausted + 1
            &&& after.errors == before.errors
            &&& after.attempts == before.attempts && after.hits == before.hits
            &&& after.tile_attempts == before.tile_attempts && after.tile_hits == before.tile_hits
        }),
{
    let class_id = run.known->0.class_id;
    let seen = all_remapped(
        detections,
        run.phase->Infer_region,
        run.frame.width,
        run.frame.height,
    );
    let same = |d: Detection| d.class_id == class_id;
    if of_class(seen, class_id).len() > 0 {
        let ball = of_class(seen, class_id)[0];
        seen.lemma_filter_pred(same, 0);
        seen.lemma_filter_contains_rev(same, ball);
        let k = choose|k: int| 0 <= k < seen.len() && seen[k] == ball;
        assert(detections[k].class_id == class_id);
    }
}

/// A search that goes on after a region without a ball looks at the next region, and
/// counts an attempt of its step.
pub proof fn law_search_goes_on_to_the_next_region(
    set_up: DetectorSetUp,
    run: RunModel,
    detections: Seq<Detection>,
)
    requires
        run.sound(set_up),
        run.phase is Infer,
        run.goal == DetectGoal::Search,
        run.place + 1 < run.steps.len(),
        run.stepped(set_up, EventModel::Found { detections }).phase is Infer,
    ensures
        ({
            let next = run.stepped(set_up, EventModel::Found { detections });
            let step = run.steps[run.place + 1];
            &&& next.phase->Infer_region == step.area()
            &&& next.place == run.place + 1
            &&& next.steps == run.steps
            &&& next.found == run.found
            &&& attempts_of(next.known->0.counters, step) == attempts_of(
                run.known->0.counters,
                step,
            ) + 1
            &&& next.known->0.counters.hits == run.known->0.counters.hits
            &&& next.known->0.counters.tile_hits == run.known->0.counters.tile_hits
        }),
{
    assert(run.steps[run.place + 1].counted());
}

} // verus!
