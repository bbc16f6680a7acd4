use blueos_driver::pmic::axp2101::{
    update_value, Axp2101, PmicAction, PmicEvent, Readback, RegUpdate, ALDO_3300MV_CODE,
    DCDC1_3300MV_CODE, REG_DCDC1_VOLTAGE, REG_LDO_ONOFF_CTRL0,
};

#[test]
fn voltage_update_preserves_reserved_bits() {
    assert_eq!(update_value(0xE5, RegUpdate::VoltageCode(0x12)), 0xF2);
    assert_eq!(update_value(0x00, RegUpdate::VoltageCode(0xFC)), 0x1C);
    assert_eq!(update_value(0b1010, RegUpdate::SetBits(0b0100)), 0b1110);
    assert_eq!(update_value(0b1110, RegUpdate::ClearBits(0b0100)), 0b1010);
}

/// Runs the sequence against a register file; returns the writes, the reports
/// and the result. The `fail_write`-th write fails when given.
fn run(regs: &mut [u8; 256], fail_write: Option<usize>) -> (Vec<(u8, u8)>, Vec<(u8, Readback, Option<u8>, bool)>, Vec<u32>, bool) {
    let mut seq = Axp2101::new().init_panel_supply();
    let mut writes = Vec::new();
    let mut reports = Vec::new();
    let mut delays = Vec::new();
    let mut event = PmicEvent::Ack;
    loop {
        match seq.step(event) {
            PmicAction::ReadRegister(r) => event = PmicEvent::Value(regs[r as usize]),
            PmicAction::WriteRegister(r, v) => {
                if Some(writes.len()) == fail_write {
                    event = PmicEvent::Failed;
                } else {
                    regs[r as usize] = v;
                    event = PmicEvent::Ack;
                }
                writes.push((r, v));
            }
            PmicAction::DelayMs(ms) => {
                delays.push(ms);
                event = PmicEvent::Ack;
            }
            PmicAction::Report { reg, check, value, ok } => {
                reports.push((reg, check, value, ok));
                event = PmicEvent::Ack;
            }
            PmicAction::Done(ok) => return (writes, reports, delays, ok),
        }
    }
}

#[test]
fn panel_supply_bring_up() {
    let mut regs = [0u8; 256];
    regs[0x03] = 0x4A;
    regs[0x82] = 0xE0;
    regs[0x90] = 0x40;
    let (writes, reports, delays, ok) = run(&mut regs, None);
    assert!(ok);
    assert_eq!(regs[REG_DCDC1_VOLTAGE as usize], 0xE0 | DCDC1_3300MV_CODE);
    for r in 0x92..=0x95 {
        assert_eq!(regs[r], ALDO_3300MV_CODE);
    }
    assert_eq!(regs[0x80] & 1, 1);
    assert_eq!(regs[REG_LDO_ONOFF_CTRL0 as usize], 0x4F);
    assert_eq!(delays, vec![100, 100, 100]);
    // ALDO3 on, off, on.
    let ldo: Vec<u8> = writes.iter().filter(|(r, _)| *r == 0x90).map(|(_, v)| *v).collect();
    assert_eq!(ldo, vec![0x41, 0x43, 0x4B, 0x4F, 0x4B, 0x4F]);
    assert_eq!(reports.len(), 8);
    assert!(reports.iter().all(|(_, _, _, ok)| *ok));
    assert_eq!(reports[0], (0x03, Readback::ChipId, Some(0x4A), true));
}

#[test]
fn wrong_chip_id_is_reported_but_not_fatal() {
    let mut regs = [0u8; 256];
    regs[0x03] = 0x47;
    let (_, reports, _, ok) = run(&mut regs, None);
    assert!(ok);
    assert_eq!(reports[0], (0x03, Readback::ChipId, Some(0x47), false));
}

#[test]
fn failed_write_stops_bring_up() {
    let mut regs = [0u8; 256];
    let (writes, reports, delays, ok) = run(&mut regs, Some(1));
    assert!(!ok);
    assert_eq!(writes.len(), 2);
    assert_eq!(reports.len(), 2);
    assert!(delays.is_empty());
}

#[test]
fn failed_read_of_update_stops_bring_up() {
    let mut seq = Axp2101::new().init_panel_supply();
    assert_eq!(seq.step(PmicEvent::Ack), PmicAction::ReadRegister(0x03));
    assert!(matches!(seq.step(PmicEvent::Failed), PmicAction::Report { value: None, ok: false, .. }));
    assert_eq!(seq.step(PmicEvent::Ack), PmicAction::ReadRegister(0x82));
    assert_eq!(seq.step(PmicEvent::Failed), PmicAction::Done(false));
    assert_eq!(seq.step(PmicEvent::Ack), PmicAction::Done(false));
}
