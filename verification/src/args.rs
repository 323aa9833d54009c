//! Build-time switches of the collector, as values.

use vstd::prelude::*;

verus! {

/// The switches that the reference-counting collector consults.
#[derive(Clone, Copy, Debug)]
pub struct Args {
    /// Reclaim whole blocks only; lines are ignored.
    pub block_only: bool,
    /// Run the field barrier for measurement.
    pub barrier_measurement: bool,
    /// Leave the slow path out of the measured barrier.
    pub barrier_measurement_no_slow: bool,
    /// Zero every fresh block.
    pub force_zeroing: bool,
    /// Do not process decrements at all.
    pub no_decs: bool,
    /// Do not decrement the fields of dead objects.
    pub no_recursive_dec: bool,
    /// The number of entries at which a buffer of recursive work is handed over.
    pub buffer_size: usize,
}

} // verus!
