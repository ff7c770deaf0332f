//! The operating-mode state machine.
use vstd::prelude::*;

verus! {

/// Controller operating mode.
#[derive(Clone, Copy, Debug, PartialEq, Eq, Structural)]
pub enum AppState {
    StandBy,
    Running,
    Fault,
}

impl AppState {
    /// The successor of a state in the cycle StandBy -> Running -> Fault -> StandBy.
    pub open spec fn spec_next(self) -> AppState {
        match self {
            AppState::StandBy => AppState::Running,
            AppState::Running => AppState::Fault,
            AppState::Fault => AppState::StandBy,
        }
    }

    /// The initial mode.
    pub fn default() -> (r: AppState)
        ensures
            r == AppState::StandBy,
    {
        AppState::StandBy
    }

    /// Advances to the next mode of the cycle.
    pub fn next(self) -> (r: AppState)
        ensures
            r == self.spec_next(),
            r != self,
    {
        match self {
            AppState::StandBy => AppState::Running,
            AppState::Running => AppState::Fault,
            AppState::Fault => AppState::StandBy,
        }
    }
}

/// Advancing three times from any mode comes back to it, and no mode is its own successor.
pub proof fn lemma_next_cycle(s: AppState)
    ensures
        s.spec_next().spec_next().spec_next() == s,
        s.spec_next() != s,
{
}

} // verus!
