//! Finding classes by name in the labels of a model.

use crate::text::same_ignoring_case;
use vstd::prelude::*;

verus! {

/// The label carries one of the names, whatever the case.
pub open spec fn carries_any(label: Seq<char>, names: Seq<Seq<char>>) -> bool {
    exists|k: int| 0 <= k < names.len() && same_ignoring_case(label, #[trigger] names[k])
}

/// The first index whose label carries one of the names.
pub open spec fn position(labels: Seq<String>, names: Seq<Seq<char>>) -> Option<int>
    decreases labels.len(),
{
    if labels.len() == 0 {
        None
    } else {
        match position(labels.drop_last(), names) {
            Some(i) => Some(i),
            None => if carries_any(labels.last()@, names) {
                Some(labels.len() - 1)
            } else {
                None
            },
        }
    }
}

/// What comes after the first match does not matter.
proof fn lemma_position_prefix(labels: Seq<String>, names: Seq<Seq<char>>, n: int)
    requires
        0 <= n <= labels.len(),
        position(labels.take(n), names) is Some,
    ensures
        position(labels, names) == position(labels.take(n), names),
    decreases labels.len() - n,
{
    if n < labels.len() {
        assert(labels.take(n + 1).drop_last() =~= labels.take(n));
        lemma_position_prefix(labels, names, n + 1);
    } else {
        assert(labels.take(n) =~= labels);
    }
}

/// The first index whose label carries one of the names.
pub fn label_position(labels: &[String], names: &[&str]) -> (r: Option<usize>)
    ensures
        match r {
            Some(i) => i < labels@.len() && position(labels@, views(names@)) == Some(i as int),
            None => position(labels@, views(names@)) is None,
        },
{
    let ghost wanted = views(names@);
    let mut i: usize = 0;
    while i < labels.len()
        invariant
            i <= labels@.len(),
            wanted == views(names@),
            position(labels@.take(i as int), wanted) is None,
        decreases labels@.len() - i,
    {
        proof {
            assert(labels@.take(i + 1).drop_last() =~= labels@.take(i as int));
        }
        let mut k: usize = 0;
        while k < names.len()
            invariant
                i < labels@.len(),
                k <= names@.len(),
                wanted == views(names@),
                labels@.take(i + 1).drop_last() == labels@.take(i as int),
                position(labels@.take(i as int), wanted) is None,
                forall|j: int|
                    0 <= j < k ==> !same_ignoring_case(labels@[i as int]@, #[trigger] wanted[j]),
            decreases names@.len() - k,
        {
            if labels[i].as_str().eq_ignore_ascii_case(names[k]) {
                proof {
                    assert(same_ignoring_case(labels@[i as int]@, wanted[k as int]));
                    lemma_position_prefix(labels@, wanted, i + 1);
                }
                return Some(i);
            }
            k = k + 1;
        }
        i = i + 1;
    }
    proof {
        assert(labels@.take(i as int) =~= labels@);
    }
    None
}

/// The texts that string slices hold.
pub open spec fn views(names: Seq<&str>) -> Seq<Seq<char>> {
    names.map_values(|s: &str| s@)
}

/// The names under which models list the ball.
pub open spec fn ball_names() -> Seq<Seq<char>> {
    seq!["ball"@, "sports ball"@]
}

/// The class id of the first name of the list that any label carries: the index
/// of the first such label, in sixteen bits.
pub open spec fn class_id_of(labels: Seq<String>, candidates: Seq<Seq<char>>) -> Option<u16>
    decreases candidates.len(),
{
    if candidates.len() == 0 {
        None
    } else {
        match position(labels, seq![candidates.first()]) {
            Some(i) => Some((i % 0x1_0000) as u16),
            None => class_id_of(labels, candidates.drop_first()),
        }
    }
}

/// Looks the candidates up in turn, and takes the first label that carries one.
pub fn resolve_class_id(class_names: &[String], candidates: &[&str]) -> (r: Option<u16>)
    ensures
        r == class_id_of(class_names@, views(candidates@)),
{
    let ghost all = views(candidates@);
    let mut k: usize = 0;
    proof {
        assert(all.skip(0) =~= all);
    }
    while k < candidates.len()
        invariant
            k <= candidates@.len(),
            all == views(candidates@),
            class_id_of(class_names@, all) == class_id_of(class_names@, all.skip(k as int)),
        decreases candidates@.len() - k,
    {
        let one = [candidates[k]];
        proof {
            assert(views(one@) =~= seq![all.skip(k as int).first()]);
            assert(all.skip(k as int).drop_first() =~= all.skip(k + 1));
        }
        if let Some(i) = label_position(class_names, &one) {
            return Some((i % 0x1_0000) as u16);
        }
        k = k + 1;
    }
    None
}

/// The class id of the first name that any label carries, or else `default_id`.
pub fn resolve_or(class_names: &[String], candidates: &[&str], default_id: u16) -> (r: u16)
    ensures
        r == match class_id_of(class_names@, views(candidates@)) {
            Some(id) => id,
            None => default_id,
        },
{
    match resolve_class_id(class_names, candidates) {
        Some(id) => id,
        None => default_id,
    }
}

} // verus!
