//! What a stitching session holds of the recovery of lost balls.

use crate::ball_recovery::BallRecoveryReasoner;
use crate::recovery_engine::{BallRecoveryConfig, BallRecoveryEngine, RecoveryTrigger};
use vstd::prelude::*;

verus! {

/// A stitching session, as far as lost balls go. Without an engine none are
/// recovered.
pub struct StitchSession {
    pub ball_recovery: Option<BallRecoveryEngine<dyn BallRecoveryReasoner>>,
}

impl StitchSession {
    /// A session that recovers nothing.
    pub fn new() -> (r: StitchSession)
        ensures
            r.ball_recovery is None,
    {
        StitchSession { ball_recovery: None }
    }

    /// Has lost balls recovered with the help of a reasoner, from a fresh start.
    pub fn set_ball_recovery_reasoner(
        &mut self,
        reasoner: Box<dyn BallRecoveryReasoner>,
        config: BallRecoveryConfig,
    )
        ensures
            final(self).ball_recovery matches Some(e) && e.reasoner == reasoner && e.config
                == config && e.trigger == RecoveryTrigger::idle(),
    {
        let engine = BallRecoveryEngine::new(reasoner, config);
        self.ball_recovery = Some(engine);
    }

    /// Recovers nothing from now on, and forgets the gap and the last question.
    pub fn clear_ball_recovery_reasoner(&mut self)
        ensures
            final(self).ball_recovery is None,
    {
        self.ball_recovery = None;
    }
}

} // verus!
