//! The one user-visible failure of the table.
//!
//! Contention and concurrent-resize conditions are recovered internally and
//! never surface.  The only terminal error is the bounded-liveness case:
//! capacity has been doubled past a large multiple of the number of live
//! entries and a relocation path still cannot be found.

use vstd::prelude::*;

verus! {

/// Returned when growing the table was abandoned: its capacity already
/// exceeds a generous multiple of the number of live entries, so further
/// doubling is judged hopeless rather than looping forever.
#[derive(Clone, Copy, Debug, PartialEq, Eq, Structural)]
pub enum TableError {
    GrowthLimit,
}

} // verus!
