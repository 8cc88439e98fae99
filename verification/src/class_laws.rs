//! Detectors, trackers and filters agree on the model's classes.

use crate::autocam::{AutocamConfig, AutocamPlan, DetectorBackend, TrackingMode};
use crate::binary::single::Single;
use crate::labels::{class_id_of, position};
use crate::ort_gpu::ball_class;
use crate::stride::FieldPannerConfig;
use crate::text::same_ignoring_case;
use vstd::prelude::*;

verus! {

/// A label reads that name, in whatever case.
pub open spec fn label_reads(labels: Seq<String>, i: int, name: Seq<char>) -> bool {
    0 <= i < labels.len() && same_ignoring_case(labels[i]@, name)
}

/// Some label reads that name.
pub open spec fn model_knows(labels: Seq<String>, name: Seq<char>) -> bool {
    exists|i: int| label_reads(labels, i, name)
}

/// The class is that of the first label that reads the name, in sixteen bits.
pub open spec fn class_reads(labels: Seq<String>, class_id: u16, name: Seq<char>) -> bool {
    exists|i: int|
        {
            &&& #[trigger] label_reads(labels, i, name)
            &&& class_id == i % 0x1_0000
            &&& forall|j: int| 0 <= j < i ==> !#[trigger] label_reads(labels, j, name)
        }
}

/// The first label that carries one of some names.
proof fn lemma_position(labels: Seq<String>, names: Seq<Seq<char>>)
    ensures
        position(labels, names) matches Some(i) ==> {
            &&& 0 <= i < labels.len()
            &&& exists|k: int| 0 <= k < names.len() && #[trigger] label_reads(labels, i, names[k])
            &&& forall|j: int, k: int|
                0 <= j < i && 0 <= k < names.len() ==> !#[trigger] label_reads(labels, j, names[k])
        },
        position(labels, names) is None ==> forall|j: int, k: int|
            0 <= k < names.len() ==> !#[trigger] label_reads(labels, j, names[k]),
    decreases labels.len(),
{
    if labels.len() > 0 {
        let init = labels.drop_last();
        lemma_position(init, names);
        assert forall|j: int, k: int| 0 <= j < init.len() && 0 <= k < names.len() implies (
        #[trigger] label_reads(labels, j, names[k]) <==> label_reads(init, j, names[k])) by {}
        if let Some(i) = position(init, names) {
            let k = choose|k: int| 0 <= k < names.len() && #[trigger] label_reads(init, i, names[k]);
            assert(label_reads(labels, i, names[k]));
        } else if let Some(i) = position(labels, names) {
            let k = choose|k: int|
                0 <= k < names.len() && same_ignoring_case(labels.last()@, #[trigger] names[k]);
            assert(label_reads(labels, i, names[k]));
        }
        assert forall|j: int, k: int|
            0 <= k < names.len() && position(labels, names)
                is None implies !#[trigger] label_reads(labels, j, names[k]) by {
            if 0 <= j < init.len() {
                assert(!label_reads(init, j, names[k]));
            }
        }
    }
}

/// One name.
proof fn lemma_one_name(labels: Seq<String>, name: Seq<char>)
    ensures
        match position(labels, seq![name]) {
            Some(i) => class_reads(labels, (i % 0x1_0000) as u16, name) && model_knows(
                labels,
                name,
            ),
            None => !model_knows(labels, name),
        },
{
    let names = seq![name];
    lemma_position(labels, names);
    if let Some(i) = position(labels, names) {
        let k = choose|k: int| 0 <= k < names.len() && #[trigger] label_reads(labels, i, names[k]);
        assert(names[k] == name);
        assert forall|j: int| 0 <= j < i implies !#[trigger] label_reads(labels, j, name) by {
            assert(!label_reads(labels, j, names[0]));
        }
        assert(label_reads(labels, i, name));
    } else {
        assert forall|j: int| !#[trigger] label_reads(labels, j, name) by {
            assert(!label_reads(labels, j, names[0]));
        }
    }
}

/// The class that stands for the ball: that of the label "ball", else that of the label
/// "sports ball", else the thirty-third.
pub open spec fn stands_for_ball(labels: Seq<String>, class_id: u16) -> bool {
    &&& model_knows(labels, "ball"@) ==> class_reads(labels, class_id, "ball"@)
    &&& !model_knows(labels, "ball"@) && model_knows(labels, "sports ball"@) ==> class_reads(
        labels,
        class_id,
        "sports ball"@,
    )
    &&& !model_knows(labels, "ball"@) && !model_knows(labels, "sports ball"@) ==> class_id == 32
}

/// The class that stands for persons: that of the label "person", else the first.
pub open spec fn stands_for_persons(labels: Seq<String>, class_id: u16) -> bool {
    &&& model_knows(labels, "person"@) ==> class_reads(labels, class_id, "person"@)
    &&& !model_knows(labels, "person"@) ==> class_id == 0
}

/// What a detector is asked for names the model's classes by their roles.
pub proof fn law_request_names_classes_by_role(
    config: AutocamConfig,
    labels: Seq<String>,
    backend: DetectorBackend,
)
    ensures
        stands_for_ball(labels, config.backend_request(labels, backend).ball_class_id),
        stands_for_persons(labels, config.backend_request(labels, backend).person_class_id),
{
    lemma_roles(labels);
}

proof fn lemma_roles(labels: Seq<String>)
    ensures
        ({
            let ball = class_id_of(labels, seq!["ball"@, "sports ball"@]);
            let person = class_id_of(labels, seq!["person"@]);
            &&& ball matches Some(id) ==> stands_for_ball(labels, id) && (model_knows(
                labels,
                "ball"@,
            ) || model_knows(labels, "sports ball"@))
            &&& ball is None ==> stands_for_ball(labels, 32)
            &&& person matches Some(id) ==> class_reads(labels, id, "person"@) && model_knows(
                labels,
                "person"@,
            )
            &&& person is None ==> !model_knows(labels, "person"@)
        }),
{
    reveal_with_fuel(class_id_of, 3);
    let balls = seq!["ball"@, "sports ball"@];
    let persons = seq!["person"@];
    assert(balls.drop_first() =~= seq!["sports ball"@]);
    assert(balls.drop_first().drop_first() =~= Seq::<Seq<char>>::empty());
    assert(persons.drop_first() =~= Seq::<Seq<char>>::empty());
    assert(seq![balls.first()] =~= seq!["ball"@]);
    assert(seq![balls.drop_first().first()] =~= seq!["sports ball"@]);
    assert(seq![persons.first()] =~= seq!["person"@]);
    lemma_one_name(labels, "ball"@);
    lemma_one_name(labels, "sports ball"@);
    lemma_one_name(labels, "person"@);
}

/// The ball tracker follows the class that every detector is asked for, and the player
/// tracker the class of persons: where the model names them and not the ball alone is
/// followed.
pub proof fn law_trackers_follow_the_requested_classes<W: Fn(Single, Single) -> Single>(
    config: AutocamConfig,
    labels: Seq<String>,
    fps: Single,
    standard: FieldPannerConfig,
    powf: W,
    plan: AutocamPlan,
    backend: DetectorBackend,
)
    requires
        config.planned(labels, fps, standard, powf, plan),
    ensures
        plan.ball_tracker matches Some(tracker) && {
            &&& tracker.class_id == config.backend_request(labels, backend).ball_class_id
            &&& stands_for_ball(labels, tracker.class_id)
        },
        plan.player_class is Some <==> config.tracking_mode != TrackingMode::Ball && model_knows(
            labels,
            "person"@,
        ),
        plan.player_class matches Some(id) ==> class_reads(labels, id, "person"@) && id
            == config.backend_request(labels, backend).person_class_id,
{
    lemma_roles(labels);
}

/// The class of the balls that are searched for is that of a label that reads "ball" or
/// "sports ball", and of the first such label; there is one exactly if the model has
/// such a label and the label's place is a class.
pub proof fn law_searched_class_is_a_ball(labels: Seq<String>)
    requires
        labels.len() <= 0x1_0000,
    ensures
        ball_class(labels) is Some <==> model_knows(labels, "ball"@) || model_knows(
            labels,
            "sports ball"@,
        ),
        ball_class(labels) matches Some(id) ==> {
            &&& label_reads(labels, id as int, "ball"@) || label_reads(
                labels,
                id as int,
                "sports ball"@,
            )
            &&& forall|j: int|
                0 <= j < id ==> !#[trigger] label_reads(labels, j, "ball"@) && !label_reads(
                    labels,
                    j,
                    "sports ball"@,
                )
        },
{
    let names = seq!["ball"@, "sports ball"@];
    lemma_position(labels, names);
    assert(names[0] == "ball"@ && names[1] == "sports ball"@);
    match position(labels, names) {
        Some(i) => {
            let k = choose|k: int|
                0 <= k < names.len() && #[trigger] label_reads(labels, i, names[k]);
            assert(k == 0 || k == 1);
            assert(label_reads(labels, i, "ball"@) || label_reads(labels, i, "sports ball"@));
            assert forall|j: int| 0 <= j < i implies !#[trigger] label_reads(labels, j, "ball"@)
                && !label_reads(labels, j, "sports ball"@) by {
                assert(!label_reads(labels, j, names[0]) && !label_reads(labels, j, names[1]));
            }
        },
        None => {
            assert forall|j: int| !#[trigger] label_reads(labels, j, "ball"@) by {
                assert(!label_reads(labels, j, names[0]));
            }
            assert forall|j: int| !#[trigger] label_reads(labels, j, "sports ball"@) by {
                assert(!label_reads(labels, j, names[1]));
            }
        },
    }
}

} // verus!
