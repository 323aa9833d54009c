//! The packets of a reference-counting pause.

use vstd::prelude::*;

use crate::plan::lxr::global::{LxrAction, LXR};
use crate::plan::lxr::rc::{LazySweepingJobsCounter, ProcessDecs};
use crate::policy::immix::rc_work::SweepBlocksAfterDecs;
use crate::policy::immix::space::ImmixSpace;

verus! {

/// A packet that the LXR plan schedules.
pub enum RcPacket {
    /// Stop the mutators and scan the roots. Root slots become root increments.
    StopMutators,
    /// Prepare the plan for the pause.
    FastRCPrepare,
    /// Decrement the roots of the pause before.
    ProcessDecs(ProcessDecs),
    /// Release the plan after the pause. It processes no edges.
    Release,
    /// Have the blocks swept that the decrements left, once all decrements are done.
    RCBlockSweepEpilogue,
}

/// Prepares the plan. A reference-counting pause has no stage of its own for that.
pub struct FastRCPrepare;

impl FastRCPrepare {
    /// Run the packet: prepare `lxr`.
    pub fn do_work(&mut self, lxr: &mut LXR) -> (actions: Vec<LxrAction>)
        requires
            old(lxr).in_rc_pause(),
        ensures
            *final(lxr) == *old(lxr),
            actions@ == LXR::prepare_actions(old(lxr).current_pause->0),
    {
        lxr.prepare()
    }
}

/// Runs when all decrements are done, and has the blocks that they left swept.
pub struct RCBlockSweepEpilogue;

impl RCBlockSweepEpilogue {
    /// Run the packet: turn the blocks that wait to be swept into a packet that sweeps them.
    pub fn do_work(&mut self, space: &mut ImmixSpace) -> (packet: SweepBlocksAfterDecs)
        ensures
            packet.blocks@ == old(space).possibly_dead_mature_blocks@,
            packet.counter.decs,
            *final(space) == (ImmixSpace {
                possibly_dead_mature_blocks: final(space).possibly_dead_mature_blocks,
                ..*old(space)
            }),
            final(space).possibly_dead_mature_blocks@.len() == 0,
    {
        let mut blocks: Vec<(usize, bool)> = Vec::new();
        std::mem::swap(&mut blocks, &mut space.possibly_dead_mature_blocks);
        SweepBlocksAfterDecs::new(blocks, LazySweepingJobsCounter::new_decs())
    }
}

} // verus!
