//! The process-wide shutdown flag.
//!
//! A termination signal or an explicit kill request sets the flag; the reactor
//! observes it at the top of every iteration and exits its loop once it is
//! set. The store performed inside a signal handler must be a single plain
//! write, which is exactly what `exit_daemon` does.

use vstd::prelude::*;

verus! {

/// The process-wide shutdown flag, observed once per reactor iteration.
pub struct ShutdownSignal {
    pub exit: bool,
}

impl ShutdownSignal {
    /// A fresh signal: the daemon starts with shutdown not requested.
    pub fn new() -> (r: ShutdownSignal)
        ensures
            !r.exit,
    {
        ShutdownSignal { exit: false }
    }
}

/// Request daemon shutdown. Idempotent: the flag only ever goes to `true`.
pub fn exit_daemon(s: &mut ShutdownSignal)
    ensures
        final(s).exit,
{
    s.exit = true;
}

/// Whether shutdown has been requested.
pub fn should_daemon_exit(s: &ShutdownSignal) -> (r: bool)
    ensures
        r == s.exit,
{
    s.exit
}

} // verus!
