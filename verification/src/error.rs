use vstd::prelude::*;

verus! {

/// Errors reported by the hardware-abstraction layer.
#[derive(Debug, Clone, Copy, PartialEq, Eq, Structural)]
pub enum HalError {
    /// A status bit did not reach the awaited state within the poll budget.
    Timeout,
    /// The requested configuration cannot be realised by the hardware.
    NotSupport,
}

} // verus!
