//! Error kinds of the compiler core.
//!
//! Every error is fatal: the compilation is a batch job whose only
//! successful outcome is a complete stream, so nothing is retried and
//! there are no partial-success modes.

use vstd::prelude::*;

verus! {

#[derive(Clone, Copy, PartialEq, Eq, Structural, Debug)]
pub enum CircuitError {
    /// The metadata pass and a later pass disagree on wire counts.
    AllocationMismatch,
    /// A wire's credit count would leave the representable range.
    CreditOverflow,
    /// A gate references a wire that no pass has made available.
    UseBeforeAlloc,
    /// The checker met an input wire that is absent from the live set.
    CreditExhausted,
    /// A disk write failed; raised by the unverified writer shell.
    WriterIoError,
}

} // verus!
