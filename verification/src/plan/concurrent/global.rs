//! What a plan that marks concurrently tells the rest of the collector.

use vstd::prelude::*;

use crate::plan::concurrent::Pause;

verus! {

/// A plan that marks concurrently.
pub trait ConcurrentPlan {
    /// Whether concurrent work is in progress.
    spec fn marking(&self) -> bool;

    /// The kind of the pause in progress.
    spec fn pause(&self) -> Option<Pause>;

    /// Whether concurrent work, such as marking, is in progress.
    fn concurrent_work_in_progress(&self) -> (r: bool)
        ensures
            r == self.marking(),
    ;

    /// The kind of the pause in progress; `None` outside of a pause.
    fn current_pause(&self) -> (r: Option<Pause>)
        ensures
            r == self.pause(),
    ;

    /// Whether the concurrent marker must leave the object at `_object` alone. A plan whose young
    /// objects move in every pause excludes these.
    fn should_skip_concurrent_trace(&self, _object: usize) -> (r: bool)
        default_ensures
            !r,
    {
        false
    }

    /// Whether the pause in progress completes a marking cycle, so that the marks are complete.
    fn current_pause_finishes_mark(&self) -> (r: bool)
        ensures
            r == (self.pause() == Some(Pause::FinalMark) || self.pause() == Some(Pause::Full)),
    {
        matches!(self.current_pause(), Some(Pause::FinalMark) | Some(Pause::Full))
    }
}

} // verus!
