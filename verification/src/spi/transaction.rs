//! Register programs for the GPSPI2 controller and the machine that steps
//! through them.
//!
//! A transfer is a program of register steps. The caller owns the MMIO: it
//! asks [`SpiTransaction::step`] for the next bus action, performs it, and
//! hands back what the hardware answered, until the transaction is done.
use vstd::prelude::*;
use crate::error::HalError;
use crate::regfield::{FieldSet, field_spec, join};

verus! {

/// Registers of the GPSPI2 block, and of the system block (SYSTEM on C3,
/// PCR on C6) that gates its clock and reset.
#[derive(Debug, Clone, Copy, PartialEq, Eq, Hash, Structural)]
pub enum SpiReg {
    Cmd,
    Ctrl,
    Clock,
    User,
    User1,
    MsDlen,
    Misc,
    DmaConf,
    DmaIntClr,
    DmaIntRaw,
    Slave,
    ClkGate,
    /// C3 SYSTEM `perip_clk_en0`.
    SysPeripClkEn0,
    /// C3 SYSTEM `perip_rst_en0`.
    SysPeripRstEn0,
    /// C6 PCR `spi2_conf`.
    PcrSpi2Conf,
    /// C6 PCR `spi2_clkm_conf`.
    PcrSpi2ClkmConf,
}

/// Diagnostic counters of polls that ran out of budget.
#[derive(Debug, Clone, Copy, PartialEq, Eq, Structural)]
pub enum TimeoutCounter {
    /// `CMD.USR` never self-cleared: the controller never accepted the command.
    Usr,
    /// `DMA_INT_RAW.TRANS_DONE` never asserted: the transaction never completed.
    TransDone,
}

/// What a poll that runs out of budget does to the transaction.
#[derive(Debug, Clone, Copy, PartialEq, Eq, Structural)]
pub enum OnTimeout {
    /// The transaction fails with `Timeout`.
    Abort,
    /// The counter is bumped and the transaction fails with `Timeout`.
    CountAndAbort(TimeoutCounter),
    /// The counter is bumped and the transaction goes on.
    CountAndContinue(TimeoutCounter),
}

/// Which asynchronous FIFOs a chunk resets before loading its data.
#[derive(Debug, Clone, Copy, PartialEq, Eq, Structural)]
pub enum FifoReset {
    Tx,
    TxRx,
}

/// One step of a register program.
#[derive(Debug, Clone, Copy, PartialEq, Eq, Structural)]
pub enum SpiStep {
    /// Store a whole register value.
    Write(SpiReg, u32),
    /// Read-modify-write the given fields of a register.
    Modify(SpiReg, FieldSet),
    /// Load bytes `start..start + len` of the transaction's transmit stream
    /// into the W0.. data buffer.
    LoadTx { start: usize, len: usize },
    /// Poll `reg & mask` until it is set (`until_set`) or clear, within the
    /// poll budget.
    Poll { reg: SpiReg, mask: u32, until_set: bool, on_timeout: OnTimeout },
    /// Read the data buffer and append its first `len` bytes to the received bytes.
    Receive(usize),
}

/// One USER transaction of at most one data buffer.
#[derive(Debug, Clone, Copy, PartialEq, Eq, Structural)]
pub struct Chunk {
    /// CTRL fields to modify first.
    pub ctrl: Option<FieldSet>,
    /// USER fields to modify next.
    pub user: Option<FieldSet>,
    pub reset: FifoReset,
    /// Range of the transmit stream shifted out; its length is the data-phase length.
    pub tx_start: usize,
    pub tx_len: usize,
    /// Bytes read back from the data buffer afterwards (none when 0).
    pub rx_len: usize,
}

/// What the caller is asked to do on the bus.
#[derive(Debug, PartialEq, Eq)]
pub enum BusAction {
    /// Store `value` into the register.
    Write(SpiReg, u32),
    /// Read-modify-write the fields into the register.
    Modify(SpiReg, FieldSet),
    /// Store these words into W0, W1, ... in order.
    LoadTx(Vec<u32>),
    /// Run `wait_until_clear` with `max_polls` polls on "`reg & mask` has
    /// not yet reached the awaited state" (see [`still_pending`]) and report
    /// the result.
    Poll { reg: SpiReg, mask: u32, until_set: bool, max_polls: usize },
    /// Read W0..W15 and report them.
    ReadBuffer,
    /// The transaction is over, with this result.
    Done(Result<(), HalError>),
}

/// What the caller reports back for the action it performed.
#[derive(Debug, Clone, Copy, PartialEq, Eq)]
pub enum BusEvent {
    /// The action was performed (or there was none yet).
    Ack,
    /// The result of a poll.
    Polled(Result<(), HalError>),
    /// The contents of W0..W15.
    Buffer([u32; 16]),
}

/// Whether a poll of `reg & mask` is still waiting, for a register that
/// reads `value`: the bit is still set when waiting for it to clear, or
/// still clear when waiting for it to set.
pub fn still_pending(value: u32, mask: u32, until_set: bool) -> (pending: bool)
    ensures
        pending == ((value & mask != 0) != until_set),
{
    (value & mask != 0) != until_set
}

/// `MS_DLEN` value for a data phase of `len` bytes.
pub open spec fn bitlen_word(len: int) -> u32 {
    field_spec(0x3ffff, 0, (len * 8 - 1) as u32).value
}

/// `CMD.UPDATE`: bit 23.
pub open spec fn cmd_update() -> FieldSet { field_spec(1, 23, 1) }
/// `CMD.USR`: bit 24.
pub open spec fn cmd_usr() -> FieldSet { field_spec(1, 24, 1) }
/// `DMA_INT_CLR.TRANS_DONE` / `DMA_INT_RAW.TRANS_DONE`: bit 12.
pub open spec fn trans_done() -> FieldSet { field_spec(1, 12, 1) }

/// `DMA_CONF` fields that raise the reset of the chosen FIFOs
/// (`BUF_AFIFO_RST` is bit 30, `RX_AFIFO_RST` bit 29).
pub open spec fn fifo_reset_set(r: FifoReset) -> FieldSet {
    match r {
        FifoReset::Tx => field_spec(1, 30, 1),
        FifoReset::TxRx => join(field_spec(1, 30, 1), field_spec(1, 29, 1)),
    }
}

/// `DMA_CONF` fields that release the reset of the chosen FIFOs.
pub open spec fn fifo_reset_clear(r: FifoReset) -> FieldSet {
    match r {
        FifoReset::Tx => field_spec(1, 30, 0),
        FifoReset::TxRx => join(field_spec(1, 30, 0), field_spec(1, 29, 0)),
    }
}

/// A FIFO reset: a set-then-clear pulse.
pub open spec fn reset_steps(r: FifoReset) -> Seq<SpiStep> {
    seq![SpiStep::Modify(SpiReg::DmaConf, fifo_reset_set(r)), SpiStep::Modify(SpiReg::DmaConf, fifo_reset_clear(r))]
}

/// Starting a USER transaction: sync the shadow registers, clear a stale
/// TRANS_DONE, then start; a stuck UPDATE aborts, a stuck USR is counted and aborts.
pub open spec fn start_transfer_steps() -> Seq<SpiStep> {
    seq![
        SpiStep::Modify(SpiReg::Cmd, cmd_update()),
        SpiStep::Poll { reg: SpiReg::Cmd, mask: cmd_update().value, until_set: false, on_timeout: OnTimeout::Abort },
        SpiStep::Write(SpiReg::DmaIntClr, trans_done().value),
        SpiStep::Modify(SpiReg::Cmd, cmd_usr()),
        SpiStep::Poll { reg: SpiReg::Cmd, mask: cmd_usr().value, until_set: false,
            on_timeout: OnTimeout::CountAndAbort(TimeoutCounter::Usr) },
    ]
}

/// Waiting for the last bit to leave the shift register, then clearing
/// TRANS_DONE; a TRANS_DONE that never asserts is counted only.
pub open spec fn wait_done_steps() -> Seq<SpiStep> {
    seq![
        SpiStep::Poll { reg: SpiReg::DmaIntRaw, mask: trans_done().value, until_set: true,
            on_timeout: OnTimeout::CountAndContinue(TimeoutCounter::TransDone) },
        SpiStep::Write(SpiReg::DmaIntClr, trans_done().value),
    ]
}

/// A modify of `reg` when fields are given.
pub open spec fn optional_modify(reg: SpiReg, f: Option<FieldSet>) -> Seq<SpiStep> {
    match f {
        Some(fs) => seq![SpiStep::Modify(reg, fs)],
        None => seq![],
    }
}

/// The steps of one chunk.
pub open spec fn chunk_steps(c: Chunk) -> Seq<SpiStep> {
    optional_modify(SpiReg::Ctrl, c.ctrl) + optional_modify(SpiReg::User, c.user)
        + reset_steps(c.reset)
        + seq![SpiStep::Write(SpiReg::MsDlen, bitlen_word(c.tx_len as int)),
            SpiStep::LoadTx { start: c.tx_start, len: c.tx_len }]
        + start_transfer_steps() + wait_done_steps()
        + (if c.rx_len > 0 { seq![SpiStep::Receive(c.rx_len)] } else { Seq::<SpiStep>::empty() })
}

/// The steps of a sequence of chunks, one after the other.
pub open spec fn chunks_steps(cs: Seq<Chunk>) -> Seq<SpiStep>
    decreases cs.len(),
{
    if cs.len() == 0 {
        Seq::<SpiStep>::empty()
    } else {
        chunks_steps(cs.drop_last()) + chunk_steps(cs.last())
    }
}

/// The chunk's data lies within a transmit stream of `tx_len` bytes and fits
/// the data buffer.
pub open spec fn chunk_fits(c: Chunk, tx_len: int) -> bool {
    &&& 0 < c.tx_len <= 64
    &&& c.tx_start + c.tx_len <= tx_len
    &&& c.rx_len <= 64
}

/// Every load and receive of the program stays within the transmit stream
/// and the data buffer.
pub open spec fn program_fits(steps: Seq<SpiStep>, tx_len: int) -> bool {
    forall|i: int| 0 <= i < steps.len() ==> match #[trigger] steps[i] {
        SpiStep::LoadTx { start, len } => start + len <= tx_len && len <= 64,
        SpiStep::Receive(n) => n <= 64,
        _ => true,
    }
}

pub proof fn lemma_chunk_steps_fit(c: Chunk, tx_len: int)
    requires
        chunk_fits(c, tx_len),
    ensures
        program_fits(chunk_steps(c), tx_len),
{
    let s = chunk_steps(c);
    assert forall|i: int| 0 <= i < s.len() implies match #[trigger] s[i] {
        SpiStep::LoadTx { start, len } => start + len <= tx_len && len <= 64,
        SpiStep::Receive(n) => n <= 64,
        _ => true,
    } by {
        let a = optional_modify(SpiReg::Ctrl, c.ctrl) + optional_modify(SpiReg::User, c.user)
            + reset_steps(c.reset);
        let b = seq![SpiStep::Write(SpiReg::MsDlen, bitlen_word(c.tx_len as int)),
            SpiStep::LoadTx { start: c.tx_start, len: c.tx_len }];
        let d = start_transfer_steps() + wait_done_steps();
        let e = if c.rx_len > 0 { seq![SpiStep::Receive(c.rx_len)] } else { Seq::<SpiStep>::empty() };
        assert(s == a + b + d + e);
        if i < a.len() {
            assert(s[i] == a[i]);
        } else if i < a.len() + b.len() {
            assert(s[i] == b[i - a.len()]);
        } else if i < a.len() + b.len() + d.len() {
            assert(s[i] == d[i - a.len() - b.len()]);
        } else {
            assert(s[i] == e[i - a.len() - b.len() - d.len()]);
        }
    }
}

pub proof fn lemma_program_fits_append(s1: Seq<SpiStep>, s2: Seq<SpiStep>, tx_len: int)
    requires
        program_fits(s1, tx_len),
        program_fits(s2, tx_len),
    ensures
        program_fits(s1 + s2, tx_len),
{
    let s = s1 + s2;
    assert forall|i: int| 0 <= i < s.len() implies match #[trigger] s[i] {
        SpiStep::LoadTx { start, len } => start + len <= tx_len && len <= 64,
        SpiStep::Receive(n) => n <= 64,
        _ => true,
    } by {
        if i < s1.len() {
            assert(s[i] == s1[i]);
        } else {
            assert(s[i] == s2[i - s1.len()]);
        }
    }
}

/// The words that carry bytes `start..start + len` of `bytes`.
pub open spec fn packed_range(bytes: Seq<u8>, start: int, len: int) -> Seq<u32> {
    crate::spi::esp32_spi::packed_words(bytes.subrange(start, start + len))
}

/// The first `n` bytes of the data buffer made of `words`.
pub open spec fn buffer_prefix(words: Seq<u32>, n: int) -> Seq<u8> {
    Seq::new(n as nat, |i: int| crate::spi::esp32_spi::buffer_byte(words, i))
}

/// The words for bytes `start..start + len` of `bytes`, zero-filled at the end.
pub fn pack_words(bytes: &[u8], start: usize, len: usize) -> (words: Vec<u32>)
    requires
        start + len <= bytes@.len(),
        len <= 64,
    ensures
        words@ == packed_range(bytes@, start as int, len as int),
{
    let ghost sub = bytes@.subrange(start as int, start + len);
    let count = (len + 3) / 4;
    let mut words: Vec<u32> = Vec::new();
    let mut i: usize = 0;
    while i < count
        invariant
            start + len <= bytes@.len(),
            len <= 64,
            sub == bytes@.subrange(start as int, start + len),
            count == crate::spi::esp32_spi::word_count(len as int),
            i <= count,
            words@.len() == i,
            forall|k: int| 0 <= k < i ==> words@[k] == crate::spi::esp32_spi::packed_word(sub, k),
        decreases count - i,
    {
        let b0 = byte_in_range(bytes, start, len, 4 * i);
        let b1 = byte_in_range(bytes, start, len, 4 * i + 1);
        let b2 = byte_in_range(bytes, start, len, 4 * i + 2);
        let b3 = byte_in_range(bytes, start, len, 4 * i + 3);
        let word: u32 = (b0 as u32) | ((b1 as u32) << 8u32) | ((b2 as u32) << 16u32) | ((b3 as u32) << 24u32);
        words.push(word);
        i = i + 1;
    }
    assert(words@ =~= packed_range(bytes@, start as int, len as int));
    words
}

/// Byte `k` of the range `start..start + len` of `bytes`, or 0 past its end.
fn byte_in_range(bytes: &[u8], start: usize, len: usize, k: usize) -> (b: u8)
    requires
        start + len <= bytes@.len(),
        k <= 64,
    ensures
        b == crate::spi::esp32_spi::data_byte(bytes@.subrange(start as int, start + len), k as int),
{
    let total = bytes.len();
    if k < len {
        assert(start + k < total);
        bytes[start + k]
    } else {
        0
    }
}

/// A register program in progress: its steps, the transmit stream its loads
/// read from, what it returns when it runs to its end, and what it has
/// received and counted so far.
pub struct SpiTransaction {
    steps: Vec<SpiStep>,
    tx: Vec<u8>,
    completion: Result<(), HalError>,
    next: usize,
    rx: Vec<u8>,
    usr_timeouts: usize,
    trans_done_timeouts: usize,
    finished: Option<Result<(), HalError>>,
}

/// The step whose action the event answers, if any.
pub open spec fn answered(steps: Seq<SpiStep>, next: int, finished: Option<Result<(), HalError>>) -> Option<SpiStep> {
    if finished is None && 0 < next <= steps.len() { Some(steps[next - 1]) } else { None }
}

/// The event reports that a poll ran out of budget.
pub open spec fn poll_timed_out(event: BusEvent) -> bool {
    event matches BusEvent::Polled(Err(_))
}

/// The answered poll timed out and ends the transaction.
pub open spec fn aborts(step: Option<SpiStep>, event: BusEvent) -> bool {
    step matches Some(SpiStep::Poll { on_timeout, .. }) && poll_timed_out(event)
        && !(on_timeout is CountAndContinue)
}

/// The answered poll timed out and bumps counter `c`.
pub open spec fn counts(step: Option<SpiStep>, event: BusEvent, c: TimeoutCounter) -> bool {
    step matches Some(SpiStep::Poll { on_timeout, .. }) && poll_timed_out(event) && (
        on_timeout == OnTimeout::CountAndAbort(c) || on_timeout == OnTimeout::CountAndContinue(c))
}

/// The bytes that the answered step and event add to those received.
pub open spec fn received_by(step: Option<SpiStep>, event: BusEvent) -> Seq<u8> {
    match (step, event) {
        (Some(SpiStep::Receive(n)), BusEvent::Buffer(words)) => buffer_prefix(words@, n as int),
        _ => Seq::<u8>::empty(),
    }
}

/// The bus action that carries out `step`.
pub open spec fn action_of(step: SpiStep, tx: Seq<u8>, a: BusAction) -> bool {
    match step {
        SpiStep::Write(reg, v) => a == BusAction::Write(reg, v),
        SpiStep::Modify(reg, f) => a == BusAction::Modify(reg, f),
        SpiStep::LoadTx { start, len } =>
            a matches BusAction::LoadTx(ws) && ws@ == packed_range(tx, start as int, len as int),
        SpiStep::Poll { reg, mask, until_set, .. } =>
            a == BusAction::Poll { reg, mask, until_set, max_polls: crate::spi::esp32_spi::SPI_CMD_TIMEOUT },
        SpiStep::Receive(_) => a == BusAction::ReadBuffer,
    }
}

impl SpiTransaction {
    /// The loads and receives stay in range, and the counters stay below the
    /// number of steps already answered.
    pub closed spec fn wf(self) -> bool {
        &&& program_fits(self.steps@, self.tx@.len() as int)
        &&& self.next <= self.steps@.len()
        &&& self.finished is None ==> {
            ||| self.usr_timeouts + self.trans_done_timeouts < self.next
            ||| self.next == 0 && self.usr_timeouts == 0 && self.trans_done_timeouts == 0
        }
    }

    pub closed spec fn steps(self) -> Seq<SpiStep> { self.steps@ }
    pub closed spec fn tx(self) -> Seq<u8> { self.tx@ }
    pub closed spec fn completion(self) -> Result<(), HalError> { self.completion }
    pub closed spec fn next_step(self) -> int { self.next as int }
    pub closed spec fn rx(self) -> Seq<u8> { self.rx@ }
    pub closed spec fn usr_timeout_count(self) -> int { self.usr_timeouts as int }
    pub closed spec fn trans_done_timeout_count(self) -> int { self.trans_done_timeouts as int }
    pub closed spec fn outcome(self) -> Option<Result<(), HalError>> { self.finished }

    /// Not yet started: nothing received, counted or decided.
    pub open spec fn fresh(self) -> bool {
        &&& self.next_step() == 0
        &&& self.rx() == Seq::<u8>::empty()
        &&& self.usr_timeout_count() == 0
        &&& self.trans_done_timeout_count() == 0
        &&& self.outcome() is None
    }

    /// A transaction that runs `steps` over the transmit stream `tx` and
    /// returns `completion` when no poll aborts it.
    pub fn new(steps: Vec<SpiStep>, tx: Vec<u8>, completion: Result<(), HalError>) -> (t: SpiTransaction)
        requires
            program_fits(steps@, tx@.len() as int),
        ensures
            t.steps() == steps@,
            t.tx() == tx@,
            t.completion() == completion,
            t.fresh(),
            t.wf(),
    {
        SpiTransaction {
            steps,
            tx,
            completion,
            next: 0,
            rx: Vec::new(),
            usr_timeouts: 0,
            trans_done_timeouts: 0,
            finished: None,
        }
    }

    /// The bytes received so far.
    pub fn received(&self) -> (r: &Vec<u8>)
        ensures
            r@ == self.rx(),
    {
        &self.rx
    }

    /// How often a USR poll ran out of budget.
    pub fn usr_timeouts(&self) -> (n: usize)
        ensures
            n == self.usr_timeout_count(),
    {
        self.usr_timeouts
    }

    /// How often a TRANS_DONE poll ran out of budget.
    pub fn trans_done_timeouts(&self) -> (n: usize)
        ensures
            n == self.trans_done_timeout_count(),
    {
        self.trans_done_timeouts
    }

    /// Takes what the hardware answered to the previous action and returns
    /// the next action. A timed-out poll is counted as its step says and may
    /// end the transaction with `Timeout`; a buffer read appends the bytes the
    /// step asked for; after the last step the transaction is done with its
    /// completion result. Once done, it stays done.
    pub fn step(&mut self, event: BusEvent) -> (action: BusAction)
        requires
            old(self).wf(),
        ensures
            final(self).wf(),
            final(self).steps() == old(self).steps(),
            final(self).tx() == old(self).tx(),
            final(self).completion() == old(self).completion(),
            old(self).outcome() matches Some(r) ==> action == BusAction::Done(r) && *final(self) == *old(self),
            old(self).outcome() is None ==> ({
                let prev = answered(old(self).steps(), old(self).next_step(), old(self).outcome());
                &&& final(self).rx() == old(self).rx() + received_by(prev, event)
                &&& final(self).usr_timeout_count() == old(self).usr_timeout_count()
                    + if counts(prev, event, TimeoutCounter::Usr) { 1int } else { 0int }
                &&& final(self).trans_done_timeout_count() == old(self).trans_done_timeout_count()
                    + if counts(prev, event, TimeoutCounter::TransDone) { 1int } else { 0int }
                &&& if aborts(prev, event) {
                    &&& final(self).outcome() == Some(Err::<(), HalError>(HalError::Timeout))
                    &&& action == BusAction::Done(Err(HalError::Timeout))
                } else if old(self).next_step() == old(self).steps().len() {
                    &&& final(self).outcome() == Some(old(self).completion())
                    &&& action == BusAction::Done(old(self).completion())
                } else {
                    &&& final(self).outcome() is None
                    &&& final(self).next_step() == old(self).next_step() + 1
                    &&& action_of(old(self).steps()[old(self).next_step()], old(self).tx(), action)
                }
            }),
    {
        if let Some(r) = self.finished {
            return BusAction::Done(r);
        }
        let ghost prev = answered(self.steps@, self.next as int, self.finished);
        let mut abort = false;
        if self.next > 0 {
            let answered_step = self.steps[self.next - 1];
            match answered_step {
                SpiStep::Poll { on_timeout, .. } => {
                    if let BusEvent::Polled(Err(_)) = event {
                        match on_timeout {
                            OnTimeout::Abort => {
                                abort = true;
                            },
                            OnTimeout::CountAndAbort(c) => {
                                self.bump(c);
                                abort = true;
                            },
                            OnTimeout::CountAndContinue(c) => {
                                self.bump(c);
                            },
                        }
                    }
                },
                SpiStep::Receive(n) => {
                    if let BusEvent::Buffer(words) = event {
                        self.append_buffer(&words, n);
                    }
                },
                _ => {},
            }
        }
        if abort {
            self.finished = Some(Err(HalError::Timeout));
            return BusAction::Done(Err(HalError::Timeout));
        }
        if self.next == self.steps.len() {
            self.finished = Some(self.completion);
            return BusAction::Done(self.completion);
        }
        let s = self.steps[self.next];
        let action = match s {
            SpiStep::Write(reg, v) => BusAction::Write(reg, v),
            SpiStep::Modify(reg, f) => BusAction::Modify(reg, f),
            SpiStep::LoadTx { start, len } => {
                assert(program_fits(self.steps@, self.tx@.len() as int));
                assert(match self.steps@[self.next as int] {
                    SpiStep::LoadTx { start, len } => start + len <= self.tx@.len() && len <= 64,
                    SpiStep::Receive(n) => n <= 64,
                    _ => true,
                });
                BusAction::LoadTx(pack_words(self.tx.as_slice(), start, len))
            },
            SpiStep::Poll { reg, mask, until_set, .. } => BusAction::Poll {
                reg,
                mask,
                until_set,
                max_polls: crate::spi::esp32_spi::SPI_CMD_TIMEOUT,
            },
            SpiStep::Receive(_) => BusAction::ReadBuffer,
        };
        self.next = self.next + 1;
        action
    }

    /// Bumps counter `c` for the poll just answered.
    fn bump(&mut self, c: TimeoutCounter)
        requires
            old(self).wf(),
            old(self).outcome() is None,
            old(self).usr_timeout_count() + old(self).trans_done_timeout_count() < old(self).next_step(),
        ensures
            final(self).steps() == old(self).steps(),
            final(self).tx() == old(self).tx(),
            final(self).completion() == old(self).completion(),
            final(self).next_step() == old(self).next_step(),
            final(self).rx() == old(self).rx(),
            final(self).outcome() == old(self).outcome(),
            final(self).usr_timeout_count() == old(self).usr_timeout_count() + if c == TimeoutCounter::Usr { 1int } else { 0int },
            final(self).trans_done_timeout_count() == old(self).trans_done_timeout_count() + if c == TimeoutCounter::TransDone { 1int } else { 0int },
            final(self).steps@ == old(self).steps@,
            final(self).tx@ == old(self).tx@,
    {
        match c {
            TimeoutCounter::Usr => { self.usr_timeouts = self.usr_timeouts + 1; },
            TimeoutCounter::TransDone => { self.trans_done_timeouts = self.trans_done_timeouts + 1; },
        }
    }

    /// Appends the first `n` bytes of the data buffer to those received.
    fn append_buffer(&mut self, words: &[u32; 16], n: usize)
        requires
            n <= 64,
        ensures
            final(self).steps() == old(self).steps(),
            final(self).tx() == old(self).tx(),
            final(self).completion() == old(self).completion(),
            final(self).next_step() == old(self).next_step(),
            final(self).outcome() == old(self).outcome(),
            final(self).usr_timeout_count() == old(self).usr_timeout_count(),
            final(self).trans_done_timeout_count() == old(self).trans_done_timeout_count(),
            final(self).rx() == old(self).rx() + buffer_prefix(words@, n as int),
            final(self).steps@ == old(self).steps@,
            final(self).tx@ == old(self).tx@,
    {
        let ghost old_rx = self.rx@;
        let mut rx: Vec<u8> = Vec::new();
        std::mem::swap(&mut rx, &mut self.rx);
        let mut i: usize = 0;
        while i < n
            invariant
                words@.len() == 16,
                n <= 64,
                i <= n,
                rx@ == old_rx + buffer_prefix(words@, i as int),
            decreases n - i,
        {
            let w = words[i / 4];
            let sh = (8 * (i % 4)) as u32;
            assert((w >> sh) & 0xFFu32 <= 0xFFu32) by (bit_vector);
            let b = ((w >> sh) & 0xFF) as u8;
            assert(b == crate::spi::esp32_spi::buffer_byte(words@, i as int));
            rx.push(b);
            i = i + 1;
        }
        assert(rx@ =~= old_rx + buffer_prefix(words@, n as int));
        self.rx = rx;
    }
}

} // verus!

verus! {

/// A FIFO reset pulse ends with the reset bits of the chosen FIFOs clear
/// and every other `DMA_CONF` bit as it was, whatever the register held.
pub proof fn lemma_reset_pulse_restores(r: FifoReset, v: u32)
    ensures
        crate::regfield::modified(crate::regfield::modified(v, fifo_reset_set(r)), fifo_reset_clear(r))
            & fifo_reset_set(r).mask == 0,
        crate::regfield::modified(crate::regfield::modified(v, fifo_reset_set(r)), fifo_reset_clear(r))
            & !fifo_reset_set(r).mask == v & !fifo_reset_set(r).mask,
        fifo_reset_clear(r).mask == fifo_reset_set(r).mask,
{
    assert(
        ((1u32 & 1u32) << 30u32 == 0x4000_0000u32) &&
        (1u32 << 30u32 == 0x4000_0000u32) &&
        ((0u32 & 1u32) << 30u32 == 0u32) &&
        ((1u32 & 1u32) << 29u32 == 0x2000_0000u32) &&
        (1u32 << 29u32 == 0x2000_0000u32) &&
        ((0u32 & 1u32) << 29u32 == 0u32) &&
        (((((v & !0x4000_0000u32) | 0x4000_0000u32) & !0x4000_0000u32) | 0u32) & 0x4000_0000u32 == 0)
    ) by (bit_vector);
    assert(((((v & !0x4000_0000u32) | 0x4000_0000u32) & !0x4000_0000u32) | 0u32) & !0x4000_0000u32
        == v & !0x4000_0000u32) by (bit_vector);
    assert(((((v & !0x6000_0000u32) | 0x6000_0000u32) & !0x6000_0000u32) | 0u32) & 0x6000_0000u32 == 0) by (bit_vector);
    assert(((((v & !0x6000_0000u32) | 0x6000_0000u32) & !0x6000_0000u32) | 0u32) & !0x6000_0000u32
        == v & !0x6000_0000u32) by (bit_vector);
    assert(
        (0x4000_0000u32 | 0x2000_0000u32 == 0x6000_0000u32) &&
        (0u32 | 0u32 == 0u32)
    ) by (bit_vector);
}

/// Appending a chunk appends its steps.
pub proof fn lemma_chunks_steps_push(cs: Seq<Chunk>, c: Chunk)
    ensures
        chunks_steps(cs.push(c)) == chunks_steps(cs) + chunk_steps(c),
{
    assert(cs.push(c).drop_last() =~= cs);
    assert(cs.push(c).last() == c);
}

/// A program made of chunks that each fit, fits.
pub proof fn lemma_chunks_steps_fit(cs: Seq<Chunk>, tx_len: int)
    requires
        forall|k: int| 0 <= k < cs.len() ==> chunk_fits(#[trigger] cs[k], tx_len),
    ensures
        program_fits(chunks_steps(cs), tx_len),
    decreases cs.len(),
{
    if cs.len() == 0 {
        assert(chunks_steps(cs) =~= Seq::<SpiStep>::empty());
    } else {
        let init = cs.drop_last();
        assert forall|k: int| 0 <= k < init.len() implies chunk_fits(#[trigger] init[k], tx_len) by {
            assert(init[k] == cs[k]);
        }
        lemma_chunks_steps_fit(init, tx_len);
        assert(chunk_fits(cs[cs.len() - 1], tx_len));
        lemma_chunk_steps_fit(cs.last(), tx_len);
        lemma_program_fits_append(chunks_steps(init), chunk_steps(cs.last()), tx_len);
    }
}

} // verus!
