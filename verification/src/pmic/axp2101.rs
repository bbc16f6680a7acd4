//! X-Powers AXP2101 PMIC (I2C, 7-bit address 0x34): the register updates
//! that bring up the AMOLED panel's 3.3 V rails and reset the panel by
//! power-cycling ALDO3.
//!
//! Every register update is a read-modify-write that preserves the bits it
//! does not own. The caller performs the I2C transfers and delays; a failed
//! transfer of an update ends the sequence, a failed diagnostic read is
//! only reported.
use vstd::prelude::*;

verus! {

/// AXP2101 I2C 7-bit address.
pub const AXP2101_I2C_ADDR: u8 = 0x34;
/// IC type register; a genuine AXP2101 reads 0x4A.
pub const REG_IC_TYPE: u8 = 0x03;
pub const AXP2101_CHIP_ID: u8 = 0x4A;
/// Voltage field of every DCDC and ALDO voltage register: the low 5 bits;
/// the high 3 bits are reserved.
pub const VOLTAGE_MASK: u8 = 0x1F;
/// DC on/off control; bit 0 enables DCDC1.
pub const REG_DC_ONOFF: u8 = 0x80;
pub const DCDC1_ON_BIT: u8 = 0x01;
/// DCDC1 voltage: code = (mV - 1500) / 100.
pub const REG_DCDC1_VOLTAGE: u8 = 0x82;
/// 3300 mV on DCDC1.
pub const DCDC1_3300MV_CODE: u8 = 0x12;
/// LDO on/off control 0: bit 0..3 enable ALDO1..ALDO4.
pub const REG_LDO_ONOFF_CTRL0: u8 = 0x90;
pub const ALDO1_ON_BIT: u8 = 0x01;
pub const ALDO2_ON_BIT: u8 = 0x02;
pub const ALDO3_ON_BIT: u8 = 0x04;
pub const ALDO4_ON_BIT: u8 = 0x08;
/// ALDO1..ALDO4 voltage: code = (mV - 500) / 100.
pub const REG_ALDO1_VOLTAGE: u8 = 0x92;
pub const REG_ALDO2_VOLTAGE: u8 = 0x93;
pub const REG_ALDO3_VOLTAGE: u8 = 0x94;
pub const REG_ALDO4_VOLTAGE: u8 = 0x95;
/// 3300 mV on an ALDO.
pub const ALDO_3300MV_CODE: u8 = 0x1C;
/// Each phase of the ALDO3 power cycle.
pub const POWER_CYCLE_DELAY_MS: u32 = 100;

/// A read-modify-write of a register.
#[derive(Debug, Clone, Copy, PartialEq, Eq, Structural)]
pub enum RegUpdate {
    /// Replace the voltage field with `code`, preserving the reserved bits.
    VoltageCode(u8),
    /// Set the bits of the mask.
    SetBits(u8),
    /// Clear the bits of the mask.
    ClearBits(u8),
}

/// The register value an update writes back, given the value read.
pub open spec fn updated(current: u8, u: RegUpdate) -> u8 {
    match u {
        RegUpdate::VoltageCode(code) => (current & !VOLTAGE_MASK) | (code & VOLTAGE_MASK),
        RegUpdate::SetBits(mask) => current | mask,
        RegUpdate::ClearBits(mask) => current & !mask,
    }
}

/// What a diagnostic read-back checks.
#[derive(Debug, Clone, Copy, PartialEq, Eq, Structural)]
pub enum Readback {
    /// The IC type register holds the AXP2101 chip ID.
    ChipId,
    /// The voltage field latched this code.
    VoltageCode(u8),
    /// DCDC1 is enabled.
    Dcdc1Enabled,
    /// ALDO1..ALDO4 are all enabled.
    AllAldoEnabled,
}

/// The verdict of a read-back on the value read.
pub open spec fn readback_ok(c: Readback, v: u8) -> bool {
    match c {
        Readback::ChipId => v == AXP2101_CHIP_ID,
        Readback::VoltageCode(code) => v & VOLTAGE_MASK == code,
        Readback::Dcdc1Enabled => v & DCDC1_ON_BIT != 0,
        Readback::AllAldoEnabled => v & 0x0F == 0x0F,
    }
}

/// One step of a PMIC sequence.
#[derive(Debug, Clone, Copy, PartialEq, Eq, Structural)]
pub enum PmicStep {
    Update { reg: u8, update: RegUpdate },
    Check { reg: u8, check: Readback },
    DelayMs(u32),
}

/// What the caller is asked to do.
#[derive(Debug, Clone, Copy, PartialEq, Eq, Structural)]
pub enum PmicAction {
    /// Read the register (write its address, read one byte).
    ReadRegister(u8),
    /// Write the value to the register.
    WriteRegister(u8, u8),
    /// Wait this many milliseconds.
    DelayMs(u32),
    /// Report a read-back: the value read (`None` when the read failed) and
    /// whether it passed.
    Report { reg: u8, check: Readback, value: Option<u8>, ok: bool },
    /// The sequence is over: `false` when an update's transfer failed.
    Done(bool),
}

/// What the caller reports back for the action it performed.
#[derive(Debug, Clone, Copy, PartialEq, Eq, Structural)]
pub enum PmicEvent {
    /// The action was performed (or there was none yet).
    Ack,
    /// The register read returned this value.
    Value(u8),
    /// The I2C transfer failed.
    Failed,
}

/// Where a sequence stands within its current step.
#[derive(Debug, Clone, Copy, PartialEq, Eq, Structural)]
pub enum Phase {
    /// The current step has not been started.
    Idle,
    /// The update's read was issued.
    UpdateRead,
    /// The update's write was issued.
    UpdateWrite,
    /// The read-back's read was issued.
    CheckRead,
    /// The read-back was reported.
    Reported,
    /// The delay was issued.
    Delaying,
}

/// The value read, as the event reports it.
pub open spec fn value_of(e: PmicEvent) -> Option<u8> {
    match e {
        PmicEvent::Value(v) => Some(v),
        _ => None,
    }
}

/// The action that starts `step`, and the phase it leaves.
pub open spec fn start_of(step: PmicStep) -> (PmicAction, Phase) {
    match step {
        PmicStep::Update { reg, .. } => (PmicAction::ReadRegister(reg), Phase::UpdateRead),
        PmicStep::Check { reg, .. } => (PmicAction::ReadRegister(reg), Phase::CheckRead),
        PmicStep::DelayMs(ms) => (PmicAction::DelayMs(ms), Phase::Delaying),
    }
}

/// A PMIC sequence in progress.
pub struct PmicSequence {
    steps: Vec<PmicStep>,
    next: usize,
    phase: Phase,
    finished: Option<bool>,
}

impl PmicSequence {
    pub closed spec fn steps(self) -> Seq<PmicStep> { self.steps@ }
    pub closed spec fn current(self) -> int { self.next as int }
    pub closed spec fn phase(self) -> Phase { self.phase }
    pub closed spec fn outcome(self) -> Option<bool> { self.finished }

    pub closed spec fn wf(self) -> bool {
        &&& self.next <= self.steps@.len()
        &&& self.next == self.steps@.len() ==> self.phase == Phase::Idle
        &&& self.next < self.steps@.len() ==> match (self.steps@[self.next as int], self.phase) {
            (_, Phase::Idle) => true,
            (PmicStep::Update { .. }, Phase::UpdateRead) => true,
            (PmicStep::Update { .. }, Phase::UpdateWrite) => true,
            (PmicStep::Check { .. }, Phase::CheckRead) => true,
            (PmicStep::Check { .. }, Phase::Reported) => true,
            (PmicStep::DelayMs(_), Phase::Delaying) => true,
            _ => false,
        }
    }

    /// Not yet started.
    pub open spec fn fresh(self) -> bool {
        &&& self.current() == 0
        &&& self.phase() == Phase::Idle
        &&& self.outcome() is None
    }

    pub fn new(steps: Vec<PmicStep>) -> (s: PmicSequence)
        ensures
            s.steps() == steps@,
            s.fresh(),
            s.wf(),
    {
        PmicSequence { steps, next: 0, phase: Phase::Idle, finished: None }
    }

    /// Takes what the bus answered to the previous action and returns the
    /// next action. An update reads its register, then writes back
    /// [`updated`] of the value read; a read-back reads its register and
    /// reports the value with its verdict; a delay asks for the wait. A failed
    /// transfer of an update ends the sequence with `false`; a failed
    /// read-back is reported and the sequence goes on. After the last step
    /// it ends with `true`. Once done, it stays done.
    pub fn step(&mut self, event: PmicEvent) -> (action: PmicAction)
        requires
            old(self).wf(),
        ensures
            final(self).wf(),
            final(self).steps() == old(self).steps(),
            old(self).outcome() matches Some(ok) ==> action == PmicAction::Done(ok) && *final(self) == *old(self),
            old(self).outcome() is None ==> ({
                let steps = old(self).steps();
                let n = old(self).current();
                // The step in progress finishes, and the sequence moves on.
                let advance = |act: PmicAction, fs: PmicSequence| {
                    if n + 1 == steps.len() {
                        act == PmicAction::Done(true) && fs.outcome() == Some(true)
                            && fs.current() == n + 1 && fs.phase() == Phase::Idle
                    } else {
                        act == start_of(steps[n + 1]).0 && fs.phase() == start_of(steps[n + 1]).1
                            && fs.current() == n + 1 && fs.outcome() is None
                    }
                };
                match old(self).phase() {
                    Phase::Idle => if n == steps.len() {
                        action == PmicAction::Done(true) && final(self).outcome() == Some(true)
                    } else {
                        action == start_of(steps[n]).0 && final(self).phase() == start_of(steps[n]).1
                            && final(self).current() == n && final(self).outcome() is None
                    },
                    Phase::UpdateRead => match value_of(event) {
                        Some(v) => steps[n] matches PmicStep::Update { reg, update }
                            && action == PmicAction::WriteRegister(reg, updated(v, update))
                            && final(self).phase() == Phase::UpdateWrite && final(self).current() == n
                            && final(self).outcome() is None,
                        None => action == PmicAction::Done(false) && final(self).outcome() == Some(false),
                    },
                    Phase::UpdateWrite => if event == PmicEvent::Failed {
                        action == PmicAction::Done(false) && final(self).outcome() == Some(false)
                    } else {
                        advance(action, *final(self))
                    },
                    Phase::CheckRead => steps[n] matches PmicStep::Check { reg, check }
                        && action == PmicAction::Report { reg, check, value: value_of(event),
                            ok: value_of(event) matches Some(v) && readback_ok(check, v) }
                        && final(self).phase() == Phase::Reported && final(self).current() == n
                        && final(self).outcome() is None,
                    _ => advance(action, *final(self)),
                }
            }),
    {
        if let Some(ok) = self.finished {
            return PmicAction::Done(ok);
        }
        match self.phase {
            Phase::Idle => {
                if self.next == self.steps.len() {
                    self.finished = Some(true);
                    return PmicAction::Done(true);
                }
                self.start_current()
            },
            Phase::UpdateRead => {
                if let PmicEvent::Value(v) = event {
                    if let PmicStep::Update { reg, update } = self.steps[self.next] {
                        self.phase = Phase::UpdateWrite;
                        return PmicAction::WriteRegister(reg, update_value(v, update));
                    }
                    self.finished = Some(false);
                    PmicAction::Done(false)
                } else {
                    self.finished = Some(false);
                    PmicAction::Done(false)
                }
            },
            Phase::UpdateWrite => {
                if event == PmicEvent::Failed {
                    self.finished = Some(false);
                    return PmicAction::Done(false);
                }
                self.advance()
            },
            Phase::CheckRead => {
                if let PmicStep::Check { reg, check } = self.steps[self.next] {
                    let value = if let PmicEvent::Value(v) = event { Some(v) } else { None };
                    let ok = match value {
                        Some(v) => readback_verdict(check, v),
                        None => false,
                    };
                    self.phase = Phase::Reported;
                    return PmicAction::Report { reg, check, value, ok };
                }
                self.finished = Some(false);
                PmicAction::Done(false)
            },
            _ => self.advance(),
        }
    }

    /// Issues the current step.
    fn start_current(&mut self) -> (action: PmicAction)
        requires
            old(self).wf(),
            old(self).current() < old(self).steps().len(),
            old(self).outcome() is None,
        ensures
            final(self).wf(),
            final(self).steps() == old(self).steps(),
            final(self).current() == old(self).current(),
            final(self).outcome() is None,
            action == start_of(old(self).steps()[old(self).current()]).0,
            final(self).phase() == start_of(old(self).steps()[old(self).current()]).1,
    {
        let (a, p) = match self.steps[self.next] {
            PmicStep::Update { reg, .. } => (PmicAction::ReadRegister(reg), Phase::UpdateRead),
            PmicStep::Check { reg, .. } => (PmicAction::ReadRegister(reg), Phase::CheckRead),
            PmicStep::DelayMs(ms) => (PmicAction::DelayMs(ms), Phase::Delaying),
        };
        self.phase = p;
        a
    }

    /// Finishes the current step and issues the next one, if any.
    fn advance(&mut self) -> (action: PmicAction)
        requires
            old(self).wf(),
            old(self).current() < old(self).steps().len(),
            old(self).outcome() is None,
        ensures
            final(self).wf(),
            final(self).steps() == old(self).steps(),
            final(self).current() == old(self).current() + 1,
            old(self).current() + 1 == old(self).steps().len() ==> action == PmicAction::Done(true)
                && final(self).outcome() == Some(true) && final(self).phase() == Phase::Idle,
            old(self).current() + 1 < old(self).steps().len() ==> {
                let s = old(self).steps()[old(self).current() + 1];
                action == start_of(s).0 && final(self).phase() == start_of(s).1 && final(self).outcome() is None
            },
    {
        let len = self.steps.len();
        assert(self.next < len);
        self.next = self.next + 1;
        self.phase = Phase::Idle;
        if self.next == self.steps.len() {
            self.finished = Some(true);
            return PmicAction::Done(true);
        }
        self.start_current()
    }
}

/// The register value an update writes back (see [`updated`]).
pub fn update_value(current: u8, u: RegUpdate) -> (v: u8)
    ensures
        v == updated(current, u),
{
    match u {
        RegUpdate::VoltageCode(code) => (current & !VOLTAGE_MASK) | (code & VOLTAGE_MASK),
        RegUpdate::SetBits(mask) => current | mask,
        RegUpdate::ClearBits(mask) => current & !mask,
    }
}

/// The verdict of a read-back (see [`readback_ok`]).
pub fn readback_verdict(c: Readback, v: u8) -> (ok: bool)
    ensures
        ok == readback_ok(c, v),
{
    match c {
        Readback::ChipId => v == AXP2101_CHIP_ID,
        Readback::VoltageCode(code) => v & VOLTAGE_MASK == code,
        Readback::Dcdc1Enabled => v & DCDC1_ON_BIT != 0,
        Readback::AllAldoEnabled => v & 0x0F == 0x0F,
    }
}

} // verus!

verus! {

/// The read-modify-write that sets a rail's voltage code.
pub open spec fn voltage_step(reg: u8, code: u8) -> Seq<PmicStep> {
    seq![PmicStep::Update { reg, update: RegUpdate::VoltageCode(code) }]
}

/// ALDO3 on, off, on, with the settling delay after each: the panel's
/// only reset, since its RST line is not connected.
pub open spec fn power_cycle_steps() -> Seq<PmicStep> {
    seq![
        PmicStep::Update { reg: REG_LDO_ONOFF_CTRL0, update: RegUpdate::SetBits(ALDO3_ON_BIT) },
        PmicStep::DelayMs(POWER_CYCLE_DELAY_MS),
        PmicStep::Update { reg: REG_LDO_ONOFF_CTRL0, update: RegUpdate::ClearBits(ALDO3_ON_BIT) },
        PmicStep::DelayMs(POWER_CYCLE_DELAY_MS),
        PmicStep::Update { reg: REG_LDO_ONOFF_CTRL0, update: RegUpdate::SetBits(ALDO3_ON_BIT) },
        PmicStep::DelayMs(POWER_CYCLE_DELAY_MS),
    ]
}

/// Panel supply bring-up: chip-ID check; DCDC1 and ALDO1..ALDO4 set to
/// 3.3 V, each read back; DCDC1 enabled and read back; ALDO1, ALDO2, ALDO4
/// enabled; ALDO3 power-cycled; the LDO enables read back.
pub open spec fn init_panel_supply_steps() -> Seq<PmicStep> {
    seq![PmicStep::Check { reg: REG_IC_TYPE, check: Readback::ChipId }]
    + voltage_step(REG_DCDC1_VOLTAGE, DCDC1_3300MV_CODE)
    + seq![PmicStep::Check { reg: REG_DCDC1_VOLTAGE, check: Readback::VoltageCode(DCDC1_3300MV_CODE) }]
    + voltage_step(REG_ALDO1_VOLTAGE, ALDO_3300MV_CODE)
    + seq![PmicStep::Check { reg: REG_ALDO1_VOLTAGE, check: Readback::VoltageCode(ALDO_3300MV_CODE) }]
    + voltage_step(REG_ALDO2_VOLTAGE, ALDO_3300MV_CODE)
    + seq![PmicStep::Check { reg: REG_ALDO2_VOLTAGE, check: Readback::VoltageCode(ALDO_3300MV_CODE) }]
    + voltage_step(REG_ALDO3_VOLTAGE, ALDO_3300MV_CODE)
    + seq![PmicStep::Check { reg: REG_ALDO3_VOLTAGE, check: Readback::VoltageCode(ALDO_3300MV_CODE) }]
    + voltage_step(REG_ALDO4_VOLTAGE, ALDO_3300MV_CODE)
    + seq![PmicStep::Check { reg: REG_ALDO4_VOLTAGE, check: Readback::VoltageCode(ALDO_3300MV_CODE) }]
    + seq![
        PmicStep::Update { reg: REG_DC_ONOFF, update: RegUpdate::SetBits(DCDC1_ON_BIT) },
        PmicStep::Check { reg: REG_DC_ONOFF, check: Readback::Dcdc1Enabled },
        PmicStep::Update { reg: REG_LDO_ONOFF_CTRL0, update: RegUpdate::SetBits(ALDO1_ON_BIT) },
        PmicStep::Update { reg: REG_LDO_ONOFF_CTRL0, update: RegUpdate::SetBits(ALDO2_ON_BIT) },
        PmicStep::Update { reg: REG_LDO_ONOFF_CTRL0, update: RegUpdate::SetBits(ALDO4_ON_BIT) },
    ]
    + power_cycle_steps()
    + seq![PmicStep::Check { reg: REG_LDO_ONOFF_CTRL0, check: Readback::AllAldoEnabled }]
}

/// What register `reg` holds after `steps`, starting from `v`, when every
/// read returns the last value written.
pub open spec fn register_after(steps: Seq<PmicStep>, reg: u8, v: u8) -> u8
    decreases steps.len(),
{
    if steps.len() == 0 {
        v
    } else {
        let before = register_after(steps.drop_last(), reg, v);
        match steps.last() {
            PmicStep::Update { reg: r, update } => if r == reg { updated(before, update) } else { before },
            _ => before,
        }
    }
}

/// Running two programs one after the other.
pub proof fn lemma_register_after_append(a: Seq<PmicStep>, b: Seq<PmicStep>, reg: u8, v: u8)
    ensures
        register_after(a + b, reg, v) == register_after(b, reg, register_after(a, reg, v)),
    decreases b.len(),
{
    if b.len() == 0 {
        assert(a + b =~= a);
    } else {
        assert((a + b).drop_last() =~= a + b.drop_last());
        assert((a + b).last() == b.last());
        lemma_register_after_append(a, b.drop_last(), reg, v);
    }
}

/// A voltage update sets the voltage field and preserves the reserved bits.
pub proof fn lemma_voltage_code_update(current: u8, code: u8)
    ensures
        updated(current, RegUpdate::VoltageCode(code)) & VOLTAGE_MASK == code & VOLTAGE_MASK,
        updated(current, RegUpdate::VoltageCode(code)) & !VOLTAGE_MASK == current & !VOLTAGE_MASK,
{
    assert(
        (((current & !0x1Fu8) | (code & 0x1Fu8)) & 0x1Fu8 == code & 0x1Fu8) &&
        (((current & !0x1Fu8) | (code & 0x1Fu8)) & !0x1Fu8 == current & !0x1Fu8)
    ) by (bit_vector);
}

/// Enabling or disabling one rail leaves the other enable bits alone.
pub proof fn lemma_enable_update(current: u8, mask: u8)
    ensures
        updated(current, RegUpdate::SetBits(mask)) & mask == mask,
        updated(current, RegUpdate::SetBits(mask)) & !mask == current & !mask,
        updated(current, RegUpdate::ClearBits(mask)) & mask == 0,
        updated(current, RegUpdate::ClearBits(mask)) & !mask == current & !mask,
{
    assert(
        ((current | mask) & mask == mask) &&
        ((current | mask) & !mask == current & !mask) &&
        ((current & !mask) & mask == 0) &&
        ((current & !mask) & !mask == current & !mask)
    ) by (bit_vector);
}

/// What one step does to register `reg` holding `v`.
pub open spec fn apply_step(s: PmicStep, reg: u8, v: u8) -> u8 {
    match s {
        PmicStep::Update { reg: r, update } => if r == reg { updated(v, update) } else { v },
        _ => v,
    }
}

proof fn lemma_register_after_single(s: PmicStep, reg: u8, v: u8)
    ensures
        register_after(seq![s], reg, v) == apply_step(s, reg, v),
{
    reveal_with_fuel(register_after, 2);
    assert(seq![s].drop_last() =~= Seq::<PmicStep>::empty());
    assert(seq![s].last() == s);
}

proof fn lemma_register_after_pair(s: PmicStep, t: PmicStep, reg: u8, v: u8)
    ensures
        register_after(seq![s, t], reg, v) == apply_step(t, reg, apply_step(s, reg, v)),
{
    lemma_register_after_append(seq![s], seq![t], reg, v);
    assert(seq![s] + seq![t] =~= seq![s, t]);
    lemma_register_after_single(s, reg, v);
    lemma_register_after_single(t, reg, apply_step(s, reg, v));
}

/// The ALDO3 power cycle ends with ALDO3 enabled and the other enable bits
/// as they were, whatever the register held; it touches no other register.
pub proof fn lemma_power_cycle_ends_enabled(reg: u8, v: u8)
    ensures
        register_after(power_cycle_steps(), reg, v) == if reg == REG_LDO_ONOFF_CTRL0 { v | ALDO3_ON_BIT } else { v },
{
    let on = PmicStep::Update { reg: REG_LDO_ONOFF_CTRL0, update: RegUpdate::SetBits(ALDO3_ON_BIT) };
    let off = PmicStep::Update { reg: REG_LDO_ONOFF_CTRL0, update: RegUpdate::ClearBits(ALDO3_ON_BIT) };
    let wait = PmicStep::DelayMs(POWER_CYCLE_DELAY_MS);
    assert(power_cycle_steps() =~= seq![on, wait] + seq![off, wait] + seq![on, wait]);
    lemma_register_after_append(seq![on, wait] + seq![off, wait], seq![on, wait], reg, v);
    lemma_register_after_append(seq![on, wait], seq![off, wait], reg, v);
    lemma_register_after_pair(on, wait, reg, v);
    let v1 = apply_step(on, reg, v);
    lemma_register_after_pair(off, wait, reg, v1);
    let v2 = apply_step(off, reg, v1);
    lemma_register_after_pair(on, wait, reg, v2);
    assert(((((v | 4u8) & !4u8) | 4u8)) == v | 4u8) by (bit_vector);
}

/// The panel supply bring-up leaves all four ALDOs enabled and DCDC1
/// enabled with the other enable bits as they were, every rail's voltage
/// field at 3.3 V with its reserved bits preserved, and every other
/// register as it was, whatever the registers held before, when every read
/// returns the last value written.
pub proof fn lemma_init_panel_supply_rails(v: u8)
    ensures
        register_after(init_panel_supply_steps(), REG_LDO_ONOFF_CTRL0, v) == v | 0x0F,
        register_after(init_panel_supply_steps(), REG_DC_ONOFF, v) == v | DCDC1_ON_BIT,
        forall|reg: u8| reg != REG_LDO_ONOFF_CTRL0 && reg != REG_DC_ONOFF && reg != REG_DCDC1_VOLTAGE
            && reg != REG_ALDO1_VOLTAGE && reg != REG_ALDO2_VOLTAGE && reg != REG_ALDO3_VOLTAGE
            && reg != REG_ALDO4_VOLTAGE ==> #[trigger] register_after(init_panel_supply_steps(), reg, v) == v,
        register_after(init_panel_supply_steps(), REG_DCDC1_VOLTAGE, v)
            == (v & !VOLTAGE_MASK) | DCDC1_3300MV_CODE,
        register_after(init_panel_supply_steps(), REG_ALDO1_VOLTAGE, v)
            == (v & !VOLTAGE_MASK) | ALDO_3300MV_CODE,
        register_after(init_panel_supply_steps(), REG_ALDO2_VOLTAGE, v)
            == (v & !VOLTAGE_MASK) | ALDO_3300MV_CODE,
        register_after(init_panel_supply_steps(), REG_ALDO3_VOLTAGE, v)
            == (v & !VOLTAGE_MASK) | ALDO_3300MV_CODE,
        register_after(init_panel_supply_steps(), REG_ALDO4_VOLTAGE, v)
            == (v & !VOLTAGE_MASK) | ALDO_3300MV_CODE,
{
    lemma_init_chain(REG_LDO_ONOFF_CTRL0, v);
    lemma_init_chain(REG_DC_ONOFF, v);
    lemma_init_chain(REG_DCDC1_VOLTAGE, v);
    lemma_init_chain(REG_ALDO1_VOLTAGE, v);
    lemma_init_chain(REG_ALDO2_VOLTAGE, v);
    lemma_init_chain(REG_ALDO3_VOLTAGE, v);
    lemma_init_chain(REG_ALDO4_VOLTAGE, v);
    assert forall|reg: u8| reg != REG_LDO_ONOFF_CTRL0 && reg != REG_DC_ONOFF && reg != REG_DCDC1_VOLTAGE
        && reg != REG_ALDO1_VOLTAGE && reg != REG_ALDO2_VOLTAGE && reg != REG_ALDO3_VOLTAGE
        && reg != REG_ALDO4_VOLTAGE implies #[trigger] register_after(init_panel_supply_steps(), reg, v) == v by {
        lemma_init_chain(reg, v);
    }
    assert(
        ((((v | 1u8) | 2u8) | 8u8) | 4u8 == v | 0x0Fu8) &&
        ((v | 1u8) & 1u8 == 1u8) &&
        ((v & !0x1Fu8) | (0x12u8 & 0x1Fu8) == (v & !0x1Fu8) | 0x12u8) &&
        ((v & !0x1Fu8) | (0x1Cu8 & 0x1Fu8) == (v & !0x1Fu8) | 0x1Cu8)
    ) by (bit_vector);
}

/// Register `reg` after the bring-up: each step applied in turn.
proof fn lemma_init_chain(reg: u8, v: u8)
    ensures
        register_after(init_panel_supply_steps(), reg, v) == {
            let v1 = apply_step(PmicStep::Update { reg: REG_DCDC1_VOLTAGE, update: RegUpdate::VoltageCode(DCDC1_3300MV_CODE) }, reg, v);
            let v2 = apply_step(PmicStep::Update { reg: REG_ALDO1_VOLTAGE, update: RegUpdate::VoltageCode(ALDO_3300MV_CODE) }, reg, v1);
            let v3 = apply_step(PmicStep::Update { reg: REG_ALDO2_VOLTAGE, update: RegUpdate::VoltageCode(ALDO_3300MV_CODE) }, reg, v2);
            let v4 = apply_step(PmicStep::Update { reg: REG_ALDO3_VOLTAGE, update: RegUpdate::VoltageCode(ALDO_3300MV_CODE) }, reg, v3);
            let v5 = apply_step(PmicStep::Update { reg: REG_ALDO4_VOLTAGE, update: RegUpdate::VoltageCode(ALDO_3300MV_CODE) }, reg, v4);
            let v6 = apply_step(PmicStep::Update { reg: REG_DC_ONOFF, update: RegUpdate::SetBits(DCDC1_ON_BIT) }, reg, v5);
            let v7 = apply_step(PmicStep::Update { reg: REG_LDO_ONOFF_CTRL0, update: RegUpdate::SetBits(ALDO1_ON_BIT) }, reg, v6);
            let v8 = apply_step(PmicStep::Update { reg: REG_LDO_ONOFF_CTRL0, update: RegUpdate::SetBits(ALDO2_ON_BIT) }, reg, v7);
            let v9 = apply_step(PmicStep::Update { reg: REG_LDO_ONOFF_CTRL0, update: RegUpdate::SetBits(ALDO4_ON_BIT) }, reg, v8);
            if reg == REG_LDO_ONOFF_CTRL0 { v9 | ALDO3_ON_BIT } else { v9 }
        },
{
    let c_ic = PmicStep::Check { reg: REG_IC_TYPE, check: Readback::ChipId };
    let u1 = PmicStep::Update { reg: REG_DCDC1_VOLTAGE, update: RegUpdate::VoltageCode(DCDC1_3300MV_CODE) };
    let k1 = PmicStep::Check { reg: REG_DCDC1_VOLTAGE, check: Readback::VoltageCode(DCDC1_3300MV_CODE) };
    let u2 = PmicStep::Update { reg: REG_ALDO1_VOLTAGE, update: RegUpdate::VoltageCode(ALDO_3300MV_CODE) };
    let k2 = PmicStep::Check { reg: REG_ALDO1_VOLTAGE, check: Readback::VoltageCode(ALDO_3300MV_CODE) };
    let u3 = PmicStep::Update { reg: REG_ALDO2_VOLTAGE, update: RegUpdate::VoltageCode(ALDO_3300MV_CODE) };
    let k3 = PmicStep::Check { reg: REG_ALDO2_VOLTAGE, check: Readback::VoltageCode(ALDO_3300MV_CODE) };
    let u4 = PmicStep::Update { reg: REG_ALDO3_VOLTAGE, update: RegUpdate::VoltageCode(ALDO_3300MV_CODE) };
    let k4 = PmicStep::Check { reg: REG_ALDO3_VOLTAGE, check: Readback::VoltageCode(ALDO_3300MV_CODE) };
    let u5 = PmicStep::Update { reg: REG_ALDO4_VOLTAGE, update: RegUpdate::VoltageCode(ALDO_3300MV_CODE) };
    let k5 = PmicStep::Check { reg: REG_ALDO4_VOLTAGE, check: Readback::VoltageCode(ALDO_3300MV_CODE) };
    let u6 = PmicStep::Update { reg: REG_DC_ONOFF, update: RegUpdate::SetBits(DCDC1_ON_BIT) };
    let k6 = PmicStep::Check { reg: REG_DC_ONOFF, check: Readback::Dcdc1Enabled };
    let u7 = PmicStep::Update { reg: REG_LDO_ONOFF_CTRL0, update: RegUpdate::SetBits(ALDO1_ON_BIT) };
    let u8s = PmicStep::Update { reg: REG_LDO_ONOFF_CTRL0, update: RegUpdate::SetBits(ALDO2_ON_BIT) };
    let u9 = PmicStep::Update { reg: REG_LDO_ONOFF_CTRL0, update: RegUpdate::SetBits(ALDO4_ON_BIT) };
    let k7 = PmicStep::Check { reg: REG_LDO_ONOFF_CTRL0, check: Readback::AllAldoEnabled };
    let pc = power_cycle_steps();
    let a = seq![c_ic, u1];
    let b = seq![k1, u2];
    let c = seq![k2, u3];
    let d = seq![k3, u4];
    let e = seq![k4, u5];
    let f = seq![k5, u6];
    let g = seq![k6, u7];
    let h = seq![u8s, u9];
    let k = seq![k7];
    assert(init_panel_supply_steps() =~= a + b + c + d + e + f + g + h + pc + k);
    lemma_register_after_append(a + b + c + d + e + f + g + h + pc, k, reg, v);
    lemma_register_after_append(a + b + c + d + e + f + g + h, pc, reg, v);
    lemma_register_after_append(a + b + c + d + e + f + g, h, reg, v);
    lemma_register_after_append(a + b + c + d + e + f, g, reg, v);
    lemma_register_after_append(a + b + c + d + e, f, reg, v);
    lemma_register_after_append(a + b + c + d, e, reg, v);
    lemma_register_after_append(a + b + c, d, reg, v);
    lemma_register_after_append(a + b, c, reg, v);
    lemma_register_after_append(a, b, reg, v);
    lemma_register_after_pair(c_ic, u1, reg, v);
    let v1 = register_after(a, reg, v);
    lemma_register_after_pair(k1, u2, reg, v1);
    let v2 = register_after(b, reg, v1);
    lemma_register_after_pair(k2, u3, reg, v2);
    let v3 = register_after(c, reg, v2);
    lemma_register_after_pair(k3, u4, reg, v3);
    let v4 = register_after(d, reg, v3);
    lemma_register_after_pair(k4, u5, reg, v4);
    let v5 = register_after(e, reg, v4);
    lemma_register_after_pair(k5, u6, reg, v5);
    let v6 = register_after(f, reg, v5);
    lemma_register_after_pair(k6, u7, reg, v6);
    let v7 = register_after(g, reg, v6);
    lemma_register_after_pair(u8s, u9, reg, v7);
    let v9 = register_after(h, reg, v7);
    lemma_power_cycle_ends_enabled(reg, v9);
    lemma_register_after_single(k7, reg, register_after(pc, reg, v9));
}

/// The PMIC driver: register updates and read-backs of the AXP2101.
pub struct Axp2101 {}

impl Axp2101 {
    pub fn new() -> Self {
        Axp2101 {}
    }

    /// Sets a voltage register's 5-bit code, preserving its reserved bits.
    pub fn set_voltage_code(&self, reg: u8, code: u8) -> (s: PmicStep)
        ensures
            s == (PmicStep::Update { reg, update: RegUpdate::VoltageCode(code) }),
    {
        PmicStep::Update { reg, update: RegUpdate::VoltageCode(code) }
    }

    /// Enables or disables the LDOs of `bit` in LDO on/off control 0,
    /// preserving the other enable bits.
    pub fn set_ldo_enable(&self, bit: u8, enable: bool) -> (s: PmicStep)
        ensures
            s == (PmicStep::Update { reg: REG_LDO_ONOFF_CTRL0,
                update: if enable { RegUpdate::SetBits(bit) } else { RegUpdate::ClearBits(bit) } }),
    {
        PmicStep::Update { reg: REG_LDO_ONOFF_CTRL0,
            update: if enable { RegUpdate::SetBits(bit) } else { RegUpdate::ClearBits(bit) } }
    }

    /// Enables or disables DCDC1, preserving the other enable bits.
    pub fn set_dcdc1_enable(&self, enable: bool) -> (s: PmicStep)
        ensures
            s == (PmicStep::Update { reg: REG_DC_ONOFF,
                update: if enable { RegUpdate::SetBits(DCDC1_ON_BIT) } else { RegUpdate::ClearBits(DCDC1_ON_BIT) } }),
    {
        PmicStep::Update { reg: REG_DC_ONOFF,
            update: if enable { RegUpdate::SetBits(DCDC1_ON_BIT) } else { RegUpdate::ClearBits(DCDC1_ON_BIT) } }
    }

    /// ALDO3 on, off, on with the settling delays (see [`power_cycle_steps`]).
    pub fn power_cycle_aldo3(&self) -> (s: Vec<PmicStep>)
        ensures
            s@ == power_cycle_steps(),
    {
        let mut s: Vec<PmicStep> = Vec::new();
        s.push(self.set_ldo_enable(ALDO3_ON_BIT, true));
        s.push(PmicStep::DelayMs(POWER_CYCLE_DELAY_MS));
        s.push(self.set_ldo_enable(ALDO3_ON_BIT, false));
        s.push(PmicStep::DelayMs(POWER_CYCLE_DELAY_MS));
        s.push(self.set_ldo_enable(ALDO3_ON_BIT, true));
        s.push(PmicStep::DelayMs(POWER_CYCLE_DELAY_MS));
        assert(s@ =~= power_cycle_steps());
        s
    }

    /// Reads back a voltage register and checks that `expected_code` latched.
    pub fn log_voltage_readback(&self, reg: u8, expected_code: u8) -> (s: PmicStep)
        ensures
            s == (PmicStep::Check { reg, check: Readback::VoltageCode(expected_code) }),
    {
        PmicStep::Check { reg, check: Readback::VoltageCode(expected_code) }
    }

    /// The panel supply bring-up (see [`init_panel_supply_steps`]).
    pub fn init_panel_supply(&self) -> (seq: PmicSequence)
        ensures
            seq.steps() == init_panel_supply_steps(),
            seq.fresh(),
            seq.wf(),
    {
        let mut s: Vec<PmicStep> = Vec::new();
        s.push(PmicStep::Check { reg: REG_IC_TYPE, check: Readback::ChipId });
        s.push(self.set_voltage_code(REG_DCDC1_VOLTAGE, DCDC1_3300MV_CODE));
        s.push(self.log_voltage_readback(REG_DCDC1_VOLTAGE, DCDC1_3300MV_CODE));
        s.push(self.set_voltage_code(REG_ALDO1_VOLTAGE, ALDO_3300MV_CODE));
        s.push(self.log_voltage_readback(REG_ALDO1_VOLTAGE, ALDO_3300MV_CODE));
        s.push(self.set_voltage_code(REG_ALDO2_VOLTAGE, ALDO_3300MV_CODE));
        s.push(self.log_voltage_readback(REG_ALDO2_VOLTAGE, ALDO_3300MV_CODE));
        s.push(self.set_voltage_code(REG_ALDO3_VOLTAGE, ALDO_3300MV_CODE));
        s.push(self.log_voltage_readback(REG_ALDO3_VOLTAGE, ALDO_3300MV_CODE));
        s.push(self.set_voltage_code(REG_ALDO4_VOLTAGE, ALDO_3300MV_CODE));
        s.push(self.log_voltage_readback(REG_ALDO4_VOLTAGE, ALDO_3300MV_CODE));
        s.push(self.set_dcdc1_enable(true));
        s.push(PmicStep::Check { reg: REG_DC_ONOFF, check: Readback::Dcdc1Enabled });
        s.push(self.set_ldo_enable(ALDO1_ON_BIT, true));
        s.push(self.set_ldo_enable(ALDO2_ON_BIT, true));
        s.push(self.set_ldo_enable(ALDO4_ON_BIT, true));
        let mut cycle = self.power_cycle_aldo3();
        s.append(&mut cycle);
        s.push(PmicStep::Check { reg: REG_LDO_ONOFF_CTRL0, check: Readback::AllAldoEnabled });
        assert(s@ =~= init_panel_supply_steps());
        PmicSequence::new(s)
    }
}

} // verus!
