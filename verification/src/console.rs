//! The early console: bytes written straight to the UART transmit FIFO
//! before the console device exists, with interrupts disabled.
use vstd::prelude::*;

verus! {

/// Busy polls after which a byte is dropped rather than blocking boot.
pub const EARLY_CONSOLE_SPIN_LIMIT: u32 = 200_000;

/// What to do with the current byte after a poll of the transmitter.
#[derive(Debug, Clone, Copy, PartialEq, Eq, Structural)]
pub enum TxDecision {
    /// The transmitter is free: write the byte and flush.
    Send,
    /// Still busy: poll again; this many busy polls so far.
    PollAgain(u32),
    /// Busy for the whole poll budget: drop the byte and go on.
    Drop,
}

/// Writes to the UART registers directly; the caller polls the transmitter
/// and performs the writes.
pub struct EarlyConsole {}

impl EarlyConsole {
    pub fn new() -> Self {
        EarlyConsole {}
    }

    /// The decision after a poll that answered `busy`, following `spin`
    /// earlier busy polls of the same byte: send when free, drop once the
    /// busy polls reach [`EARLY_CONSOLE_SPIN_LIMIT`], else poll again.
    pub fn after_poll(&self, spin: u32, busy: bool) -> (d: TxDecision)
        requires
            spin < EARLY_CONSOLE_SPIN_LIMIT,
        ensures
            !busy ==> d == TxDecision::Send,
            busy && spin + 1 >= EARLY_CONSOLE_SPIN_LIMIT ==> d == TxDecision::Drop,
            busy && spin + 1 < EARLY_CONSOLE_SPIN_LIMIT ==> d == TxDecision::PollAgain((spin + 1) as u32),
    {
        if !busy {
            return TxDecision::Send;
        }
        let spin = spin + 1;
        if spin >= EARLY_CONSOLE_SPIN_LIMIT {
            TxDecision::Drop
        } else {
            TxDecision::PollAgain(spin)
        }
    }
}

} // verus!
