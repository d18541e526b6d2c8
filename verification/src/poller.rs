//! The poller's state machine: between cycles it is idle; a timer fire or
//! process start begins a cycle, and completion — success or reported
//! failure — returns it to idle.  A cycle can only begin from the idle
//! state, so cycles never overlap, and there is no terminal state: a failed
//! cycle is non-fatal and the next interval retries.
//!
//! The loop that drives these transitions — the background thread and its
//! fixed inter-cycle sleep — lives with the process, outside the library.

use vstd::prelude::*;

verus! {

/// Where the poller stands: between cycles, or inside one.
#[derive(Clone, Copy, Debug, PartialEq, Eq, Structural)]
pub enum PollerState {
    Idle,
    Running,
}

impl PollerState {
    /// The state a poller starts in.
    pub fn start() -> (s: PollerState)
        ensures
            s == PollerState::Idle,
    {
        PollerState::Idle
    }

    /// Begin a reconciliation cycle, on process start or timer fire; only an
    /// idle poller may begin one, so cycles are never in flight twice.
    pub fn begin_cycle(self) -> (s: PollerState)
        requires
            self == PollerState::Idle,
        ensures
            s == PollerState::Running,
    {
        PollerState::Running
    }

    /// End the cycle in flight, whether it succeeded or reported a failure;
    /// the poller is idle again until the next interval.
    pub fn end_cycle(self) -> (s: PollerState)
        requires
            self == PollerState::Running,
        ensures
            s == PollerState::Idle,
    {
        PollerState::Idle
    }
}

} // verus!
