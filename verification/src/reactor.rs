//! The reactor's decision logic.
//!
//! The event loop itself is a blocking multiplexer over three readiness
//! sources — the listening socket, the compositor connection and the wake
//! pipe — owned by the unverified edge. What is decided here: when the loop
//! keeps running, how the outcome of one wait is classified (a benign
//! interrupt is retried, any other failure is fatal by policy), and in which
//! order ready sources are dispatched: compositor events are drained strictly
//! before any client request processed in the same iteration, the wake pipe
//! is drained last.

use vstd::prelude::*;
use crate::shutdown::{should_daemon_exit, ShutdownSignal};

verus! {

/// Outcome of one blocking multiplexing wait.
#[derive(Clone, Copy, PartialEq, Eq, Structural, Debug)]
pub enum WaitOutcome {
    /// The wait returned readiness flags for the three sources.
    Ready { listener: bool, compositor: bool, waker: bool },
    /// The wait was interrupted by a signal before anything became ready.
    Interrupted,
    /// The wait failed for any other reason.
    Failed,
}

/// What the reactor does with one wait outcome.
#[derive(Clone, Copy, PartialEq, Eq, Structural, Debug)]
pub enum WaitStep {
    /// Benign interruption: re-issue the wait.
    Retry,
    /// Broken multiplexing primitive: terminate the process (fail fast, the
    /// reactor never runs with a broken poll).
    Fatal,
    /// Dispatch the ready sources, compositor first, then the listener, then
    /// draining the wake pipe.
    Dispatch { compositor: bool, listener: bool, waker: bool },
}

/// Classify one wait outcome: an interrupt is retried, any other failure is
/// fatal, and readiness is dispatched with the flags the wait reported.
pub fn classify_wait(o: &WaitOutcome) -> (r: WaitStep)
    ensures
        *o is Interrupted ==> r == WaitStep::Retry,
        *o is Failed ==> r == WaitStep::Fatal,
        forall|l: bool, c: bool, wk: bool|
            *o == (WaitOutcome::Ready { listener: l, compositor: c, waker: wk }) ==> r == (
            WaitStep::Dispatch { compositor: c, listener: l, waker: wk }),
{
    match o {
        WaitOutcome::Interrupted => WaitStep::Retry,
        WaitOutcome::Failed => WaitStep::Fatal,
        WaitOutcome::Ready { listener, compositor, waker } => WaitStep::Dispatch {
            compositor: *compositor,
            listener: *listener,
            waker: *waker,
        },
    }
}

/// The loop test at the top of every reactor iteration: run until shutdown
/// has been requested.
pub fn reactor_continue(s: &ShutdownSignal) -> (r: bool)
    ensures
        r == !s.exit,
{
    !should_daemon_exit(s)
}

} // verus!
