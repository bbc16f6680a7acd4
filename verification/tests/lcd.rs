use blueos_driver::lcd::co5300::{Co5300Driver, Co5300DriverModule, ProbeError, CASET, DISPON, RAMWR, RASET, SLPOUT, SWRESET};
use blueos_driver::lcd::{CmdParams, DrawArea, LcdError, PanelAction, PanelEvent, PanelSequence, PanelStep};

fn params(bytes: &[u8]) -> CmdParams {
    let mut p = CmdParams { len: bytes.len(), b0: 0, b1: 0, b2: 0, b3: 0 };
    if let Some(b) = bytes.get(0) { p.b0 = *b; }
    if let Some(b) = bytes.get(1) { p.b1 = *b; }
    if let Some(b) = bytes.get(2) { p.b2 = *b; }
    if let Some(b) = bytes.get(3) { p.b3 = *b; }
    p
}

/// Runs a sequence; the bus rejects the `fail_at`-th command or pixel write.
fn run(mut s: PanelSequence, fail_at: Option<usize>) -> Vec<PanelAction> {
    let mut out = Vec::new();
    let mut event = PanelEvent::Ack;
    let mut sent = 0;
    loop {
        let a = s.step(event);
        event = PanelEvent::Ack;
        match &a {
            PanelAction::Command { .. } | PanelAction::Pixels { .. } => {
                if Some(sent) == fail_at {
                    event = PanelEvent::Failed;
                }
                sent += 1;
            }
            PanelAction::Done(_) => {
                out.push(a);
                return out;
            }
            _ => {}
        }
        out.push(a);
    }
}

#[test]
fn init_sequence_order_and_delays() {
    let d = Co5300Driver::new();
    let actions = run(d.init(), None);
    assert_eq!(actions.len(), 28);
    assert_eq!(actions[1], PanelAction::Command { cmd: SWRESET, params: vec![] });
    assert_eq!(actions[3], PanelAction::DelayMs(80));
    assert_eq!(actions[5], PanelAction::Command { cmd: SLPOUT, params: vec![] });
    assert_eq!(actions[7], PanelAction::DelayMs(600));
    assert_eq!(actions[9], PanelAction::Command { cmd: 0xFE, params: vec![0x20] });
    assert_eq!(actions[10], PanelAction::Command { cmd: 0x19, params: vec![0x10] });
    assert_eq!(actions[11], PanelAction::Command { cmd: 0x1C, params: vec![0xA0] });
    assert_eq!(actions[12], PanelAction::Command { cmd: 0xFE, params: vec![0x00] });
    assert_eq!(actions[20], PanelAction::Command { cmd: CASET, params: vec![0x00, 0x00, 0x01, 0xDF] });
    assert_eq!(actions[21], PanelAction::Command { cmd: RASET, params: vec![0x00, 0x00, 0x01, 0xDF] });
    assert_eq!(actions[22], PanelAction::CsHigh);
    assert_eq!(actions[24], PanelAction::Command { cmd: DISPON, params: vec![] });
    assert_eq!(actions[26], PanelAction::DelayMs(100));
    assert_eq!(actions[27], PanelAction::Done(Ok(())));
}

#[test]
fn failed_vendor_command_releases_cs_and_stops() {
    let d = Co5300Driver::new();
    // Commands 0 and 1 are SWRESET and SLPOUT; command 4 is the 3rd vendor command.
    let actions = run(d.init(), Some(4));
    assert_eq!(actions[11], PanelAction::Command { cmd: 0x1C, params: vec![0xA0] });
    assert_eq!(actions[12], PanelAction::CsHigh);
    assert_eq!(actions[13], PanelAction::Done(Err(LcdError::Bus)));
    assert_eq!(actions.len(), 14);
}

#[test]
fn draw_full_area_streams_whole_buffer() {
    let d = Co5300Driver::new();
    let area = DrawArea { col_start: 0, col_end: 9, row_start: 0, row_end: 1 };
    let s = d.draw_area(area, 40).unwrap();
    assert_eq!(
        s.step_list(),
        &vec![
            PanelStep::CsLow,
            PanelStep::Command { cmd: CASET, params: params(&[0, 0, 0, 9]), on_fail: 5 },
            PanelStep::Command { cmd: RASET, params: params(&[0, 0, 0, 1]), on_fail: 5 },
            PanelStep::Command { cmd: RAMWR, params: params(&[]), on_fail: 5 },
            PanelStep::Pixels { start: 0, len: 40, on_fail: 5 },
            PanelStep::CsHigh,
        ]
    );
}

#[test]
fn draw_clipped_area_sends_visible_rows() {
    let d = Co5300Driver::new();
    let area = DrawArea { col_start: 475, col_end: 484, row_start: 478, row_end: 481 };
    let s = d.draw_area(area, 80).unwrap();
    assert_eq!(
        s.step_list(),
        &vec![
            PanelStep::CsLow,
            PanelStep::Command { cmd: CASET, params: params(&[0x01, 0xDB, 0x01, 0xDF]), on_fail: 6 },
            PanelStep::Command { cmd: RASET, params: params(&[0x01, 0xDE, 0x01, 0xDF]), on_fail: 6 },
            PanelStep::Command { cmd: RAMWR, params: params(&[]), on_fail: 6 },
            PanelStep::Pixels { start: 0, len: 10, on_fail: 6 },
            PanelStep::Pixels { start: 20, len: 10, on_fail: 6 },
            PanelStep::CsHigh,
        ]
    );
    let actions = run(d.draw_area(area, 80).unwrap(), Some(3));
    assert_eq!(actions[4], PanelAction::Pixels { start: 0, len: 10 });
    assert_eq!(actions[5], PanelAction::CsHigh);
    assert_eq!(actions[6], PanelAction::Done(Err(LcdError::Bus)));
}

#[test]
fn draw_rejects_bad_requests() {
    let d = Co5300Driver::new();
    let backwards = DrawArea { col_start: 5, col_end: 4, row_start: 0, row_end: 0 };
    assert_eq!(d.draw_area(backwards, 0).err(), Some(LcdError::InvalidArea));
    let rows_backwards = DrawArea { col_start: 0, col_end: 0, row_start: 3, row_end: 2 };
    assert_eq!(d.draw_area(rows_backwards, 0).err(), Some(LcdError::InvalidArea));
    let area = DrawArea { col_start: 0, col_end: 9, row_start: 0, row_end: 1 };
    assert_eq!(d.draw_area(area, 39).err(), Some(LcdError::InvalidColorData));
    let huge = DrawArea { col_start: 0, col_end: 0x1_0000, row_start: 0, row_end: 0x1_0000 };
    assert_eq!(d.draw_area(huge, 0).err(), Some(LcdError::InvalidColorData));
}

#[test]
fn draw_reversed_columns_over_full_row_span_is_invalid_area() {
    let d = Co5300Driver::new();
    let area = DrawArea { col_start: 5, col_end: 4, row_start: 0, row_end: u32::MAX };
    assert_eq!(d.draw_area(area, 0).err(), Some(LcdError::InvalidArea));
}

#[test]
fn draw_off_panel_is_a_no_op() {
    let d = Co5300Driver::new();
    let area = DrawArea { col_start: 480, col_end: 500, row_start: 0, row_end: 0 };
    let s = d.draw_area(area, 7).unwrap();
    assert!(s.step_list().is_empty());
    assert_eq!(run(s, None), vec![PanelAction::Done(Ok(()))]);
}

#[test]
fn driver_module_constructs() {
    let _m: Co5300DriverModule<u8> = Co5300DriverModule::new();
}

#[test]
fn probe_binds_only_an_unattached_native_device_with_a_config() {
    assert_eq!(Co5300DriverModule::<u8>::probe(true, false, Some(7)), Ok(7));
    assert_eq!(Co5300DriverModule::<u8>::probe(true, true, Some(7)), Err(ProbeError::NoDevice));
    assert_eq!(Co5300DriverModule::<u8>::probe(true, false, None), Err(ProbeError::NoDevice));
    assert_eq!(Co5300DriverModule::<u8>::probe(false, false, Some(7)), Err(ProbeError::NoDevice));
}
