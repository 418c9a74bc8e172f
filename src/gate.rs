use vstd::prelude::*;

use crate::snapshot::ResponseSnapshot;
use crate::store::NextAction;

verus! {

/// How a request that found its key still in processing waits for it:
/// it asks the store again up to `max_attempts` times in all, pausing
/// `interval_ms` milliseconds between two attempts, and then gives up.
#[derive(Debug, Clone, Copy, PartialEq, Eq, Structural)]
pub struct PollPolicy {
    pub max_attempts: u32,
    pub interval_ms: u64,
}

/// What the request handler does after a claim attempt.
#[derive(Debug)]
pub enum GateStep {
    /// Run the protected handler; the claim is held.
    Execute,
    /// Send this recorded response, unchanged, without running the handler.
    Replay(ResponseSnapshot),
    /// Pause for the given number of milliseconds, then attempt the claim again.
    WaitAndRetry(u64),
    /// Stop waiting: the client is told the request is still being processed.
    GiveUp,
}

impl PollPolicy {
    /// Decides the next step after claim attempt number `attempt` (counted
    /// from one) ended with `action`.
    pub fn next_step(&self, action: NextAction, attempt: u32) -> (r: GateStep)
        ensures
            action is StartProcessing ==> r is Execute,
            action matches NextAction::ReturnSavedResponse(s) ==> (r matches GateStep::Replay(t)
                && t@ == s@),
            action is ProcessingInProgress ==> (if attempt < self.max_attempts {
                r == GateStep::WaitAndRetry(self.interval_ms)
            } else {
                r is GiveUp
            }),
    {
        match action {
            NextAction::StartProcessing => GateStep::Execute,
            NextAction::ReturnSavedResponse(s) => GateStep::Replay(s),
            NextAction::ProcessingInProgress => {
                if attempt < self.max_attempts {
                    GateStep::WaitAndRetry(self.interval_ms)
                } else {
                    GateStep::GiveUp
                }
            },
        }
    }
}

} // verus!
