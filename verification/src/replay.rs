//! A reasoner that plays back decisions made before.

use crate::ball_recovery::{
    text_of, BallRecoveryHypothesis, BallRecoveryReasoner, BallRecoveryReasonerError,
    BallRecoveryRequest, HypothesisModel,
};
use crate::binary::single::Single;
use crate::recovery_engine::{BallRecoveryDecision, BallRecoveryEngine};
use std::collections::BTreeMap;
use vstd::prelude::*;

verus! {

/// One decision to play back.
#[derive(Clone, Debug)]
pub struct BallRecoveryReplayDecision {
    pub frame_index: u64,
    pub candidate_id: Option<u32>,
    pub confidence: Single,
    pub rationale: Option<String>,
}

impl BallRecoveryReplayDecision {
    /// The answer that it stands for.
    pub open spec fn answer(self) -> HypothesisModel {
        HypothesisModel {
            candidate_id: self.candidate_id,
            confidence: self.confidence,
            rationale: text_of(self.rationale),
        }
    }
}

/// The answer for a frame: that of its last decision, or none.
pub open spec fn replayed(
    decisions: Seq<BallRecoveryReplayDecision>,
    frame_index: u64,
) -> HypothesisModel
    decreases decisions.len(),
{
    if decisions.len() == 0 {
        HypothesisModel::nothing()
    } else if decisions.last().frame_index == frame_index {
        decisions.last().answer()
    } else {
        replayed(decisions.drop_last(), frame_index)
    }
}

/// Plays decisions back by frame.
#[derive(Debug)]
pub struct ReplayBallRecoveryReasoner {
    pub decisions: BTreeMap<u64, BallRecoveryHypothesis>,
}

impl ReplayBallRecoveryReasoner {
    /// The answer for a frame.
    pub open spec fn answer(self, frame_index: u64) -> HypothesisModel {
        if self.decisions@.contains_key(frame_index) {
            self.decisions@[frame_index]@
        } else {
            HypothesisModel::nothing()
        }
    }

    /// Takes the decisions in; of several for one frame the last holds.
    pub fn new(decisions: Vec<BallRecoveryReplayDecision>) -> (r: ReplayBallRecoveryReasoner)
        ensures
            forall|frame_index: u64| #[trigger]
                r.answer(frame_index) == replayed(decisions@, frame_index),
    {
        let mut r = ReplayBallRecoveryReasoner { decisions: BTreeMap::new() };
        let mut i: usize = 0;
        while i < decisions.len()
            invariant
                i <= decisions@.len(),
                forall|frame_index: u64| #[trigger]
                    r.answer(frame_index) == replayed(decisions@.take(i as int), frame_index),
            decreases decisions@.len() - i,
        {
            let ghost before = r;
            let d = &decisions[i];
            let answer = BallRecoveryHypothesis {
                candidate_id: d.candidate_id,
                confidence: d.confidence,
                rationale: match &d.rationale {
                    Some(s) => Some(s.clone()),
                    None => None,
                },
            };
            r.decisions.insert(d.frame_index, answer);
            proof {
                assert(decisions@.take(i + 1).drop_last() =~= decisions@.take(i as int));
                assert forall|frame_index: u64| #[trigger]
                    r.answer(frame_index) == replayed(decisions@.take(i + 1), frame_index) by {
                    assert(before.answer(frame_index) == replayed(
                        decisions@.take(i as int),
                        frame_index,
                    ));
                }
            }
            i = i + 1;
        }
        proof {
            assert(decisions@.take(i as int) =~= decisions@);
        }
        r
    }
}

impl BallRecoveryReasoner for ReplayBallRecoveryReasoner {
    open spec fn may_be_called(&self, name: Seq<char>) -> bool {
        name == "replay"@
    }

    /// The decision that was taken in for the frame.
    open spec fn may_answer(
        &self,
        request: BallRecoveryRequest,
        answer: Result<BallRecoveryHypothesis, BallRecoveryReasonerError>,
        memory: Seq<int>,
    ) -> bool {
        &&& answer matches Ok(h) && h@ == self.answer(request.current_frame_index)
        &&& memory == self.memory()
    }

    fn name(&self) -> (r: &str) {
        "replay"
    }

    fn reason(&mut self, request: &BallRecoveryRequest) -> (r: Result<
        BallRecoveryHypothesis,
        BallRecoveryReasonerError,
    >)
        ensures
            *final(self) == *old(self),
    {
        match self.decisions.get(&request.current_frame_index) {
            Some(h) => Ok(h.clone()),
            None => Ok(BallRecoveryHypothesis::none()),
        }
    }
}

/// An engine that plays decisions back records, wherever it asks, the decision for
/// the frame that is asked about.
pub proof fn law_replay_answers_as_recorded<H: Fn(Single, Single) -> Single>(
    engine: BallRecoveryEngine<ReplayBallRecoveryReasoner>,
    decisions: Seq<BallRecoveryReplayDecision>,
    request: BallRecoveryRequest,
    hypot: H,
    r: BallRecoveryDecision,
)
    requires
        forall|frame_index: u64| #[trigger]
            engine.reasoner.answer(frame_index) == replayed(decisions, frame_index),
        engine.answered(request, hypot, r, engine.reasoner.memory()),
    ensures
        r matches BallRecoveryDecision::Invoked { backend, hypothesis, .. } && backend@ == "replay"@
            && hypothesis@ == replayed(decisions, request.current_frame_index),
{
}

/// The answer for a frame is that of a decision for that frame with none for it after
/// it; without a decision for it no candidate is chosen, with no confidence.
pub proof fn law_last_decision_for_a_frame_holds(
    decisions: Seq<BallRecoveryReplayDecision>,
    frame_index: u64,
    k: int,
)
    ensures
        0 <= k < decisions.len() && decisions[k].frame_index == frame_index && (forall|j: int|
            k < j < decisions.len() ==> (#[trigger] decisions[j]).frame_index != frame_index) ==> {
            let answer = replayed(decisions, frame_index);
            &&& answer.candidate_id == decisions[k].candidate_id
            &&& answer.confidence == decisions[k].confidence
            &&& answer.rationale == text_of(decisions[k].rationale)
        },
        (forall|j: int|
            0 <= j < decisions.len() ==> (#[trigger] decisions[j]).frame_index != frame_index) ==> {
            let answer = replayed(decisions, frame_index);
            answer.candidate_id is None && answer.rationale is None
        },
    decreases decisions.len(),
{
    if decisions.len() > 0 {
        let init = decisions.drop_last();
        law_last_decision_for_a_frame_holds(init, frame_index, k);
        if decisions.last().frame_index != frame_index {
            assert(decisions[decisions.len() - 1] == decisions.last());
            assert forall|j: int| 0 <= j < init.len() implies init[j] == decisions[j] by {}
        } else {
            assert(decisions[decisions.len() - 1].frame_index == frame_index);
        }
    }
}

} // verus!
