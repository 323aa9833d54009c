//! Single-tracer mode. When exactly one thread traces in a stopped world, and nothing is marked
//! concurrently, the synchronization on the paths of the trace is redundant. An instance has a flag
//! for that; each of its workers has a view of its own of the flag, which is refreshed before every
//! packet. The views of all other threads stay off.

use vstd::prelude::*;

verus! {

/// A thread's view of the flag.
#[derive(Clone, Copy, PartialEq, Eq, Structural, Debug)]
pub struct UpLocal {
    pub enabled: bool,
}

impl UpLocal {
    /// The view of a thread that was never told anything.
    pub fn new() -> (u: Self)
        ensures
            !u.enabled,
    {
        UpLocal { enabled: false }
    }
}

/// Whether single-tracer mode is active for the thread whose view is `local`.
pub fn up(local: &UpLocal) -> (r: bool)
    ensures
        r == local.enabled,
{
    local.enabled
}

/// Refresh a worker's view from the flag of its instance.
pub fn sync_worker(local: &mut UpLocal, up_trace_enabled: bool)
    ensures
        final(local).enabled == up_trace_enabled,
{
    local.enabled = up_trace_enabled;
}

/// Set the view of the calling thread.
pub fn set_local(local: &mut UpLocal, enabled: bool)
    ensures
        final(local).enabled == enabled,
{
    local.enabled = enabled;
}

} // verus!
