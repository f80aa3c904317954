//! Why a reservation did not yield a slot.

use vstd::prelude::*;

verus! {

/// The reasons for which a stage gets no slot. None of them is final: the
/// caller tries again.
#[derive(Clone, Copy, Debug, PartialEq, Eq, Structural)]
pub enum Error {
    /// A neighbouring stage is at work on slots that have to be finished
    /// before availability can be judged.
    Busy,
    /// The stage has caught up with the stage it chases.
    NotAvailable,
    /// The two-stage queue holds nothing to take.
    Empty,
    /// The two-stage queue has no room for more.
    Full,
}

} // verus!
