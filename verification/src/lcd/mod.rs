//! LCD panels driven over QSPI, and the command sequences sent to them.
//!
//! A panel operation is a sequence of chip-select toggles, commands, pixel
//! writes and delays. The caller performs each action and reports whether
//! the bus accepted it; a failed command releases chip select and ends the
//! sequence with `Bus`.
use vstd::prelude::*;

pub mod co5300;

verus! {

/// Bytes per pixel in the RGB565 format the panels are driven in.
pub const LCD_BYTES_PER_PIXEL: u32 = 2;

/// An inclusive rectangle of panel pixels.
#[derive(Debug, Clone, Copy, PartialEq, Eq, Structural)]
pub struct DrawArea {
    pub col_start: u32,
    pub col_end: u32,
    pub row_start: u32,
    pub row_end: u32,
}

/// Errors of a draw request.
#[derive(Debug, Clone, Copy, PartialEq, Eq, Structural)]
pub enum LcdError {
    /// The area ends before it starts.
    InvalidArea,
    /// The colour buffer does not hold exactly the area's pixels.
    InvalidColorData,
    /// The bus rejected a command or pixel write.
    Bus,
}

/// Up to four parameter bytes of a command.
#[derive(Debug, Clone, Copy, PartialEq, Eq, Structural)]
pub struct CmdParams {
    pub len: usize,
    pub b0: u8,
    pub b1: u8,
    pub b2: u8,
    pub b3: u8,
}

impl CmdParams {
    /// The parameter bytes.
    pub open spec fn bytes(self) -> Seq<u8> {
        seq![self.b0, self.b1, self.b2, self.b3].take(self.len as int)
    }
}

/// One step of a panel sequence.
#[derive(Debug, Clone, Copy, PartialEq, Eq, Structural)]
pub enum PanelStep {
    CsLow,
    CsHigh,
    /// A DCS command with its parameters; when the bus rejects it the
    /// sequence resumes at step `on_fail` and then ends.
    Command { cmd: u8, params: CmdParams, on_fail: usize },
    /// Bytes `start..start + len` of the caller's pixel buffer; when the bus
    /// rejects them the sequence resumes at step `on_fail` and then ends.
    Pixels { start: usize, len: usize, on_fail: usize },
    DelayMs(u32),
}

/// What the caller is asked to do.
#[derive(Debug, PartialEq, Eq)]
pub enum PanelAction {
    /// Drive chip select low.
    CsLow,
    /// Drive chip select high.
    CsHigh,
    /// Send the command with these parameter bytes (1-wire QSPI command write).
    Command { cmd: u8, params: Vec<u8> },
    /// Stream these bytes of the pixel buffer (4-wire QSPI pixel write).
    Pixels { start: usize, len: usize },
    /// Wait this many milliseconds.
    DelayMs(u32),
    /// The sequence is over, with this result.
    Done(Result<(), LcdError>),
}

/// What the caller reports back for the action it performed.
#[derive(Debug, Clone, Copy, PartialEq, Eq, Structural)]
pub enum PanelEvent {
    /// The action was performed (or there was none yet).
    Ack,
    /// The bus rejected the command or pixel write.
    Failed,
}

/// Steps that stay within a pixel buffer of `pixel_len` bytes, whose
/// commands carry at most four parameters, and whose failure targets lie
/// ahead of them.
pub open spec fn panel_steps_fit(steps: Seq<PanelStep>, pixel_len: int) -> bool {
    forall|i: int| 0 <= i < steps.len() ==> match #[trigger] steps[i] {
        PanelStep::Command { params, on_fail, .. } => params.len <= 4 && i < on_fail <= steps.len(),
        PanelStep::Pixels { start, len, on_fail } => start + len <= pixel_len && i < on_fail <= steps.len(),
        _ => true,
    }
}

/// The panel action that carries out `step`.
pub open spec fn panel_action_of(step: PanelStep, a: PanelAction) -> bool {
    match step {
        PanelStep::CsLow => a == PanelAction::CsLow,
        PanelStep::CsHigh => a == PanelAction::CsHigh,
        PanelStep::Command { cmd, params, .. } =>
            a matches PanelAction::Command { cmd: c, params: p } && c == cmd && p@ == params.bytes(),
        PanelStep::Pixels { start, len, .. } => a == PanelAction::Pixels { start, len },
        PanelStep::DelayMs(ms) => a == PanelAction::DelayMs(ms),
    }
}

/// Where a failed command or pixel write resumes.
pub open spec fn failure_target(step: PanelStep) -> Option<usize> {
    match step {
        PanelStep::Command { on_fail, .. } => Some(on_fail),
        PanelStep::Pixels { on_fail, .. } => Some(on_fail),
        _ => None,
    }
}

/// A panel sequence in progress.
pub struct PanelSequence {
    steps: Vec<PanelStep>,
    pixel_len: usize,
    next: usize,
    failing: bool,
    finished: Option<Result<(), LcdError>>,
}

impl PanelSequence {
    pub closed spec fn steps(self) -> Seq<PanelStep> { self.steps@ }
    pub closed spec fn pixel_len(self) -> int { self.pixel_len as int }
    pub closed spec fn next_step(self) -> int { self.next as int }
    pub closed spec fn failing(self) -> bool { self.failing }
    pub closed spec fn outcome(self) -> Option<Result<(), LcdError>> { self.finished }

    pub closed spec fn wf(self) -> bool {
        &&& panel_steps_fit(self.steps@, self.pixel_len as int)
        &&& self.next <= self.steps@.len()
    }

    /// Not yet started.
    pub open spec fn fresh(self) -> bool {
        &&& self.next_step() == 0
        &&& !self.failing()
        &&& self.outcome() is None
    }

    /// A sequence of `steps` over a pixel buffer of `pixel_len` bytes.
    pub fn new(steps: Vec<PanelStep>, pixel_len: usize) -> (s: PanelSequence)
        requires
            panel_steps_fit(steps@, pixel_len as int),
        ensures
            s.steps() == steps@,
            s.pixel_len() == pixel_len,
            s.fresh(),
            s.wf(),
    {
        PanelSequence { steps, pixel_len, next: 0, failing: false, finished: None }
    }

    /// The steps of the sequence.
    pub fn step_list(&self) -> (r: &Vec<PanelStep>)
        ensures
            r@ == self.steps(),
    {
        &self.steps
    }

    /// Takes what the bus answered to the previous action and returns the
    /// next action. A rejected command or pixel write sends the sequence to
    /// its failure target (chip select release), after which it ends with
    /// `Bus`; after the last step it ends with `Ok`. Once done, it stays done.
    pub fn step(&mut self, event: PanelEvent) -> (action: PanelAction)
        requires
            old(self).wf(),
        ensures
            final(self).wf(),
            final(self).steps() == old(self).steps(),
            final(self).pixel_len() == old(self).pixel_len(),
            old(self).outcome() matches Some(r) ==> action == PanelAction::Done(r) && *final(self) == *old(self),
            old(self).outcome() is None && old(self).failing() ==> action == PanelAction::Done(Err(LcdError::Bus))
                && final(self).outcome() == Some(Err::<(), LcdError>(LcdError::Bus)),
            old(self).outcome() is None && !old(self).failing() ==> ({
                let prev = if old(self).next_step() > 0 { failure_target(old(self).steps()[old(self).next_step() - 1]) } else { None };
                let fails = event == PanelEvent::Failed && prev is Some;
                let resume = if fails { prev->Some_0 as int } else { old(self).next_step() };
                if resume == old(self).steps().len() {
                    &&& action == PanelAction::Done(if fails { Err(LcdError::Bus) } else { Ok(()) })
                    &&& final(self).outcome() == Some(if fails { Err::<(), LcdError>(LcdError::Bus) } else { Ok(()) })
                } else {
                    &&& final(self).outcome() is None
                    &&& final(self).failing() == fails
                    &&& final(self).next_step() == resume + 1
                    &&& panel_action_of(old(self).steps()[resume], action)
                }
            }),
    {
        if let Some(r) = self.finished {
            return PanelAction::Done(r);
        }
        if self.failing {
            self.finished = Some(Err(LcdError::Bus));
            return PanelAction::Done(Err(LcdError::Bus));
        }
        if self.next > 0 && event == PanelEvent::Failed {
            assert(panel_steps_fit(self.steps@, self.pixel_len as int));
            assert(match self.steps@[self.next - 1] {
                PanelStep::Command { params, on_fail, .. } => params.len <= 4 && self.next - 1 < on_fail <= self.steps@.len(),
                PanelStep::Pixels { start, len, on_fail } => start + len <= self.pixel_len && self.next - 1 < on_fail <= self.steps@.len(),
                _ => true,
            });
            match self.steps[self.next - 1] {
                PanelStep::Command { on_fail, .. } => {
                    self.failing = true;
                    self.next = on_fail;
                },
                PanelStep::Pixels { on_fail, .. } => {
                    self.failing = true;
                    self.next = on_fail;
                },
                _ => {},
            }
        }
        if self.next == self.steps.len() {
            let r = if self.failing { Err(LcdError::Bus) } else { Ok(()) };
            self.finished = Some(r);
            return PanelAction::Done(r);
        }
        let s = self.steps[self.next];
        assert(panel_steps_fit(self.steps@, self.pixel_len as int));
        assert(match self.steps@[self.next as int] {
            PanelStep::Command { params, on_fail, .. } => params.len <= 4,
            _ => true,
        });
        let action = match s {
            PanelStep::CsLow => PanelAction::CsLow,
            PanelStep::CsHigh => PanelAction::CsHigh,
            PanelStep::Command { cmd, params, .. } => PanelAction::Command { cmd, params: param_bytes(params) },
            PanelStep::Pixels { start, len, .. } => PanelAction::Pixels { start, len },
            PanelStep::DelayMs(ms) => PanelAction::DelayMs(ms),
        };
        self.next = self.next + 1;
        action
    }
}

/// The parameter bytes as a vector.
fn param_bytes(p: CmdParams) -> (v: Vec<u8>)
    requires
        p.len <= 4,
    ensures
        v@ == p.bytes(),
{
    let mut v: Vec<u8> = Vec::new();
    if p.len > 0 { v.push(p.b0); }
    if p.len > 1 { v.push(p.b1); }
    if p.len > 2 { v.push(p.b2); }
    if p.len > 3 { v.push(p.b3); }
    assert(v@ =~= p.bytes());
    v
}

} // verus!
