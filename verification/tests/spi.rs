use blueos_driver::error::HalError;
use blueos_driver::regfield::FieldSet;
use blueos_driver::spi::esp32_spi::{poll_step, wait_until_clear, Esp32Spi2, PollDecision, SPI_CMD_TIMEOUT};
use blueos_driver::spi::transaction::{still_pending, BusAction, BusEvent, SpiReg, SpiStep, SpiTransaction};
use blueos_driver::spi::{SpiBitOrder, SpiConfig, SpiPhase, SpiPolarity};
use blueos_driver::Soc;

type Spi = Esp32Spi2<0x6002_4000, 0x600C_0000, 80_000_000>;

#[test]
fn test_wait_until_clear_times_out() {
    assert_eq!(wait_until_clear(|_| true, 3), Err(HalError::Timeout));
}

#[test]
fn test_wait_until_clear_returns_when_ready() {
    let mut polls = 0;
    assert_eq!(
        wait_until_clear(
            |_| {
                polls += 1;
                polls < 3
            },
            3
        ),
        Ok(())
    );
    assert_eq!(polls, 3);
}

#[test]
fn wait_until_clear_with_no_budget_times_out() {
    assert_eq!(wait_until_clear(|_| false, 0), Err(HalError::Timeout));
    assert_eq!(wait_until_clear(|_| false, 1), Ok(()));
}

#[test]
fn write_buf_packs_little_endian() {
    let spi = Spi::new();
    assert_eq!(spi.write_buf(&[1, 2, 3, 4, 5]), vec![0x0403_0201, 0x0000_0005]);
    assert_eq!(spi.write_buf(&[]), Vec::<u32>::new());
}

#[test]
fn read_buf_unpacks_and_round_trips() {
    let spi = Spi::new();
    let data: Vec<u8> = (0..64u32).map(|i| (i * 3 + 1) as u8).collect();
    let words = spi.write_buf(&data);
    let mut regs = [0u32; 16];
    regs[..words.len()].copy_from_slice(&words);
    let mut back = vec![0xAAu8; 66];
    spi.read_buf(&regs, &mut back);
    assert_eq!(&back[..64], &data[..]);
    assert_eq!(&back[64..], &[0xAA, 0xAA]);
}

#[test]
fn qspi_header_puts_command_at_index_two() {
    let spi = Spi::new();
    assert_eq!(spi.qspi_header(0x02, 0x51), [0x02, 0x00, 0x51, 0x00]);
}

#[test]
fn clock_divider_values() {
    let spi = Spi::new();
    assert_eq!(spi.configure_clock(80_000_000), Ok(0x8000_0000));
    assert_eq!(spi.configure_clock(40_000_000), Ok(0x1001));
    assert_eq!(spi.configure_clock(1_000_000), Ok(0x674E7));
    // Divisor 67 has no exact split: the first prescaler that fits is used.
    assert_eq!(spi.configure_clock(1_194_029), Ok(394_208));
    assert_eq!(spi.configure_clock(1_000), Err(HalError::NotSupport));
}

#[test]
fn spi_flash_default_is_mode0_msb_40mhz() {
    let c = SpiConfig::spi_flash_default();
    assert_eq!(c.baudrate, 40_000_000);
    assert_eq!(c.phase, SpiPhase::Phase0);
    assert_eq!(c.polarity, SpiPolarity::Low);
    assert_eq!(c.bit_order, SpiBitOrder::MsbFirst);
    assert_eq!(c.cs_pin, None);
}

/// Runs a transaction against a bus whose polls all succeed and whose data
/// buffer reads back `buffer`; returns the actions and the final result.
fn run(mut t: SpiTransaction, buffer: [u32; 16]) -> (Vec<BusAction>, Result<(), HalError>, SpiTransaction) {
    let mut actions = Vec::new();
    let mut event = BusEvent::Ack;
    loop {
        let a = t.step(event);
        event = match &a {
            BusAction::Poll { .. } => BusEvent::Polled(Ok(())),
            BusAction::ReadBuffer => BusEvent::Buffer(buffer),
            BusAction::Done(r) => {
                let r = *r;
                actions.push(a);
                return (actions, r, t);
            }
            _ => BusEvent::Ack,
        };
        actions.push(a);
    }
}

#[test]
fn half_duplex_write_chunks_at_buffer_size() {
    let spi = Spi::new();
    let data: Vec<u8> = (0..70u8).collect();
    let (actions, r, _) = run(spi.write(&data), [0; 16]);
    assert_eq!(r, Ok(()));
    let loads: Vec<&Vec<u32>> = actions.iter().filter_map(|a| if let BusAction::LoadTx(w) = a { Some(w) } else { None }).collect();
    assert_eq!(loads.len(), 2);
    assert_eq!(loads[0].len(), 16);
    assert_eq!(loads[1], &vec![0x4342_4140, 0x4544]);
    let dlens: Vec<u32> = actions.iter().filter_map(|a| if let BusAction::Write(SpiReg::MsDlen, v) = a { Some(*v) } else { None }).collect();
    assert_eq!(dlens, vec![511, 47]);
    // USER is set up once, before the first chunk: MOSI only, half duplex.
    assert_eq!(
        actions[0],
        BusAction::Modify(SpiReg::User, FieldSet { mask: 0xF800_0001, value: 0x0800_0000 })
    );
    assert_eq!(actions.last(), Some(&BusAction::Done(Ok(()))));
}

#[test]
fn empty_transfers_do_nothing() {
    let spi = Spi::new();
    let (actions, r, _) = run(spi.write(&[]), [0; 16]);
    assert_eq!(actions, vec![BusAction::Done(Ok(()))]);
    assert_eq!(r, Ok(()));
    let (actions, _, _) = run(spi.transfer(0, &[]), [0; 16]);
    assert_eq!(actions, vec![BusAction::Done(Ok(()))]);
}

#[test]
fn full_duplex_pads_write_and_collects_read() {
    let spi = Spi::new();
    let mut buffer = [0u32; 16];
    buffer[0] = 0x0403_0201;
    buffer[1] = 0x0807_0605;
    let (actions, r, t) = run(spi.transfer(6, &[0xAA, 0xBB]), buffer);
    assert_eq!(r, Ok(()));
    assert_eq!(t.received(), &vec![1, 2, 3, 4, 5, 6]);
    let loads: Vec<&Vec<u32>> = actions.iter().filter_map(|a| if let BusAction::LoadTx(w) = a { Some(w) } else { None }).collect();
    assert_eq!(loads, vec![&vec![0x0000_BBAA, 0x0000_0000]]);
    assert!(actions.contains(&BusAction::Write(SpiReg::MsDlen, 47)));
}

#[test]
fn read_collects_all_chunks() {
    let spi = Spi::new();
    let buffer = [0x1111_1111u32; 16];
    let (_, r, t) = run(spi.read(100), buffer);
    assert_eq!(r, Ok(()));
    assert_eq!(t.received().len(), 100);
    assert!(t.received().iter().all(|b| *b == 0x11));
}

#[test]
fn stuck_update_aborts_without_counting() {
    let spi = Spi::new();
    let mut t = spi.write(&[1, 2, 3]);
    let mut event = BusEvent::Ack;
    loop {
        let a = t.step(event);
        match a {
            BusAction::Poll { reg: SpiReg::Cmd, mask: 0x0080_0000, until_set: false, max_polls: SPI_CMD_TIMEOUT } => {
                event = BusEvent::Polled(Err(HalError::Timeout))
            }
            BusAction::Done(r) => {
                assert_eq!(r, Err(HalError::Timeout));
                break;
            }
            _ => event = BusEvent::Ack,
        }
    }
    assert_eq!(t.usr_timeouts(), 0);
    assert_eq!(t.trans_done_timeouts(), 0);
    assert_eq!(t.step(BusEvent::Ack), BusAction::Done(Err(HalError::Timeout)));
}

#[test]
fn stuck_usr_is_counted_and_aborts() {
    let spi = Spi::new();
    let mut t = spi.write(&[1]);
    let mut event = BusEvent::Ack;
    let result = loop {
        match t.step(event) {
            BusAction::Poll { reg: SpiReg::Cmd, mask: 0x0100_0000, .. } => event = BusEvent::Polled(Err(HalError::Timeout)),
            BusAction::Poll { .. } => event = BusEvent::Polled(Ok(())),
            BusAction::Done(r) => break r,
            _ => event = BusEvent::Ack,
        }
    };
    assert_eq!(result, Err(HalError::Timeout));
    assert_eq!(t.usr_timeouts(), 1);
}

#[test]
fn missing_trans_done_is_counted_and_continues() {
    let spi = Spi::new();
    let mut t = spi.write(&[0u8; 130]);
    let mut event = BusEvent::Ack;
    let result = loop {
        match t.step(event) {
            BusAction::Poll { reg: SpiReg::DmaIntRaw, until_set: true, .. } => event = BusEvent::Polled(Err(HalError::Timeout)),
            BusAction::Poll { .. } => event = BusEvent::Polled(Ok(())),
            BusAction::Done(r) => break r,
            _ => event = BusEvent::Ack,
        }
    };
    assert_eq!(result, Ok(()));
    assert_eq!(t.trans_done_timeouts(), 3);
    assert_eq!(t.usr_timeouts(), 0);
}

#[test]
fn qspi_pixel_write_sends_header_then_quad_data() {
    let spi = Spi::new();
    let (actions, r, _) = run(spi.qspi_write_pixels(&[0x12, 0x34]), [0; 16]);
    assert_eq!(r, Ok(()));
    let loads: Vec<&Vec<u32>> = actions.iter().filter_map(|a| if let BusAction::LoadTx(w) = a { Some(w) } else { None }).collect();
    assert_eq!(loads, vec![&vec![0x002C_0032], &vec![0x0000_3412]]);
    // The data phase enables the quad lines: CTRL.FREAD_QUAD and USER.FWRITE_QUAD.
    assert!(actions.contains(&BusAction::Modify(SpiReg::Ctrl, FieldSet { mask: 1 << 15, value: 1 << 15 })));
    assert!(actions.contains(&BusAction::Modify(SpiReg::User, FieldSet { mask: 0xF800_2001, value: 0x0800_2000 })));
}

#[test]
fn qspi_command_without_params_sends_header_only() {
    let spi = Spi::new();
    let (actions, _, _) = run(spi.qspi_write_command(0x29, &[]), [0; 16]);
    let loads: Vec<&Vec<u32>> = actions.iter().filter_map(|a| if let BusAction::LoadTx(w) = a { Some(w) } else { None }).collect();
    assert_eq!(loads, vec![&vec![0x0029_0002]]);
    assert!(!actions.iter().any(|a| matches!(a, BusAction::Modify(SpiReg::Ctrl, _))));
}

#[test]
fn qspi_read_returns_response_bytes() {
    let spi = Spi::new();
    let mut buffer = [0u32; 16];
    buffer[0] = 0x7766_5544;
    let (actions, r, t) = run(spi.qspi_read_command(0x04, 3), buffer);
    assert_eq!(r, Ok(()));
    assert_eq!(t.received(), &vec![0x44, 0x55, 0x66]);
    assert_eq!(actions[0], BusAction::Modify(SpiReg::Ctrl, FieldSet { mask: 1 << 15, value: 0 }));
    assert_eq!(actions[1], BusAction::Write(SpiReg::User1, 7));
    assert!(actions.contains(&BusAction::LoadTx(vec![0x0004_0003])));
    assert!(actions.contains(&BusAction::Write(SpiReg::MsDlen, 31)));
}

#[test]
fn configure_c3_mode3_lsb() {
    let spi = Spi::new();
    let config = SpiConfig {
        baudrate: 20_000_000,
        phase: SpiPhase::Phase1,
        polarity: SpiPolarity::High,
        bit_order: SpiBitOrder::LsbFirst,
        cs_pin: None,
    };
    let (actions, r, _) = run(spi.configure(&config, Soc::Esp32C3), [0; 16]);
    assert_eq!(r, Ok(()));
    assert_eq!(actions[0], BusAction::Modify(SpiReg::SysPeripClkEn0, FieldSet { mask: 1 << 6, value: 1 << 6 }));
    assert_eq!(actions[3], BusAction::Write(SpiReg::ClkGate, 7));
    assert!(actions.contains(&BusAction::Modify(SpiReg::Misc, FieldSet { mask: 1 << 29, value: 1 << 29 })));
    // Mode 3 samples on the leading edge.
    assert!(actions.contains(&BusAction::Modify(SpiReg::User, FieldSet { mask: 1 << 9, value: 0 })));
    assert!(actions.contains(&BusAction::Modify(SpiReg::Ctrl, FieldSet { mask: 3 << 25, value: 3 << 25 })));
    assert!(actions.contains(&BusAction::Write(SpiReg::Clock, 0x3043)));
    assert!(actions.contains(&BusAction::Modify(SpiReg::Misc, FieldSet { mask: 0x4000_003F, value: 0x3F })));
}

#[test]
fn configure_rejects_unreachable_baudrate_after_partial_setup() {
    let spi = Spi::new();
    let mut config = SpiConfig::spi_flash_default();
    config.baudrate = 1_000;
    let (actions, r, _) = run(spi.configure(&config, Soc::Esp32C6), [0; 16]);
    assert_eq!(r, Err(HalError::NotSupport));
    assert!(!actions.iter().any(|a| matches!(a, BusAction::Write(SpiReg::Clock, _))));
    assert_eq!(
        actions[0],
        BusAction::Modify(SpiReg::PcrSpi2Conf, FieldSet { mask: 0b11, value: 0b01 })
    );
}

#[test]
fn disable_stops_clocks() {
    let spi = Spi::new();
    let (actions, _, _) = run(spi.disable(Soc::Esp32C3), [0; 16]);
    assert_eq!(
        actions,
        vec![
            BusAction::Modify(SpiReg::ClkGate, FieldSet { mask: 2, value: 0 }),
            BusAction::Modify(SpiReg::SysPeripClkEn0, FieldSet { mask: 1 << 6, value: 0 }),
            BusAction::Done(Ok(())),
        ]
    );
}

#[test]
fn fifo_reset_is_a_set_then_clear_pulse() {
    let spi = Spi::new();
    assert_eq!(
        spi.reset_tx_rx_fifo(),
        vec![
            SpiStep::Modify(SpiReg::DmaConf, FieldSet { mask: 0x6000_0000, value: 0x6000_0000 }),
            SpiStep::Modify(SpiReg::DmaConf, FieldSet { mask: 0x6000_0000, value: 0 }),
        ]
    );
    assert_eq!(
        spi.reset_tx_fifo(),
        vec![
            SpiStep::Modify(SpiReg::DmaConf, FieldSet { mask: 0x4000_0000, value: 0x4000_0000 }),
            SpiStep::Modify(SpiReg::DmaConf, FieldSet { mask: 0x4000_0000, value: 0 }),
        ]
    );
    assert_eq!(
        spi.reset_rx_fifo(),
        vec![
            SpiStep::Modify(SpiReg::DmaConf, FieldSet { mask: 0x2000_0000, value: 0x2000_0000 }),
            SpiStep::Modify(SpiReg::DmaConf, FieldSet { mask: 0x2000_0000, value: 0 }),
        ]
    );
}

#[test]
fn poll_pending_follows_the_awaited_state() {
    assert!(still_pending(1 << 23, 1 << 23, false));
    assert!(!still_pending(0, 1 << 23, false));
    assert!(still_pending(0, 1 << 12, true));
    assert!(!still_pending(1 << 12, 1 << 12, true));
}

#[test]
fn apply_config_latches_update() {
    let spi = Spi::new();
    let (actions, r, _) = run(spi.apply_config(), [0; 16]);
    assert_eq!(r, Ok(()));
    assert_eq!(
        actions,
        vec![
            BusAction::Write(SpiReg::Cmd, 1 << 23),
            BusAction::Poll { reg: SpiReg::Cmd, mask: 1 << 23, until_set: false, max_polls: SPI_CMD_TIMEOUT },
            BusAction::Done(Ok(())),
        ]
    );
}

#[test]
fn transaction_program_order_per_chunk() {
    let spi = Spi::new();
    let (actions, _, _) = run(spi.write(&[9]), [0; 16]);
    assert_eq!(
        actions,
        vec![
            BusAction::Modify(SpiReg::User, FieldSet { mask: 0xF800_0001, value: 0x0800_0000 }),
            BusAction::Modify(SpiReg::DmaConf, FieldSet { mask: 0x4000_0000, value: 0x4000_0000 }),
            BusAction::Modify(SpiReg::DmaConf, FieldSet { mask: 0x4000_0000, value: 0 }),
            BusAction::Write(SpiReg::MsDlen, 7),
            BusAction::LoadTx(vec![9]),
            BusAction::Modify(SpiReg::Cmd, FieldSet { mask: 1 << 23, value: 1 << 23 }),
            BusAction::Poll { reg: SpiReg::Cmd, mask: 1 << 23, until_set: false, max_polls: SPI_CMD_TIMEOUT },
            BusAction::Write(SpiReg::DmaIntClr, 1 << 12),
            BusAction::Modify(SpiReg::Cmd, FieldSet { mask: 1 << 24, value: 1 << 24 }),
            BusAction::Poll { reg: SpiReg::Cmd, mask: 1 << 24, until_set: false, max_polls: SPI_CMD_TIMEOUT },
            BusAction::Poll { reg: SpiReg::DmaIntRaw, mask: 1 << 12, until_set: true, max_polls: SPI_CMD_TIMEOUT },
            BusAction::Write(SpiReg::DmaIntClr, 1 << 12),
            BusAction::Done(Ok(())),
        ]
    );
}

/// Applies register writes and read-modify-writes to a register file that
/// starts with every bit set; polls succeed.
fn registers_after_run(t: SpiTransaction) -> std::collections::HashMap<SpiReg, u32> {
    let mut regs = std::collections::HashMap::new();
    let (actions, _, _) = run(t, [0; 16]);
    for a in actions {
        match a {
            BusAction::Write(r, v) => {
                regs.insert(r, v);
            }
            BusAction::Modify(r, f) => {
                let cur = *regs.get(&r).unwrap_or(&0xFFFF_FFFF);
                regs.insert(r, (cur & !f.mask) | f.value);
            }
            _ => {}
        }
    }
    regs
}

#[test]
fn configure_leaves_master_mode_with_cs_disabled() {
    let spi = Spi::new();
    let regs = registers_after_run(spi.configure(&SpiConfig::spi_flash_default(), Soc::Esp32C6));
    assert_eq!(regs[&SpiReg::Slave], 0);
    assert_eq!(regs[&SpiReg::DmaConf], 0);
    assert_eq!(regs[&SpiReg::Misc] & 0x3F, 0x3F);
    assert_eq!(regs[&SpiReg::Misc] & 0x6000_0000, 0);
    assert_eq!(regs[&SpiReg::User] & 0x200, 0);
    assert_eq!(regs[&SpiReg::Ctrl] & 0x0600_0000, 0);
    assert_eq!(regs[&SpiReg::Clock], 0x1001);
    assert_eq!(regs[&SpiReg::ClkGate], 7);
    assert_eq!(regs[&SpiReg::PcrSpi2Conf] & 3, 3);
    assert_eq!(regs[&SpiReg::PcrSpi2ClkmConf] & 0x70_0000, 0x50_0000);
}

#[test]
fn disable_undoes_enable_on_c3() {
    let spi = Spi::new();
    let mut regs = registers_after_run(spi.enable(Soc::Esp32C3));
    assert_eq!(regs[&SpiReg::ClkGate], 7);
    assert_eq!(regs[&SpiReg::SysPeripClkEn0] & 0x40, 0x40);
    assert_eq!(regs[&SpiReg::SysPeripRstEn0] & 0x40, 0);
    let (actions, _, _) = run(spi.disable(Soc::Esp32C3), [0; 16]);
    for a in actions {
        if let BusAction::Modify(r, f) = a {
            let cur = regs[&r];
            regs.insert(r, (cur & !f.mask) | f.value);
        }
    }
    assert_eq!(regs[&SpiReg::ClkGate], 5);
    assert_eq!(regs[&SpiReg::SysPeripClkEn0] & 0x40, 0);
}

#[test]
fn read_after_pixel_write_runs_on_one_wire() {
    let spi = Spi::new();
    let mut regs = registers_after_run(spi.qspi_write_pixels(&[1, 2, 3, 4]));
    assert_eq!(regs[&SpiReg::Ctrl] & (1 << 15), 1 << 15);
    let (actions, _, _) = run(spi.qspi_read_command(0x04, 4), [0; 16]);
    for a in actions {
        match a {
            BusAction::Write(r, v) => {
                regs.insert(r, v);
            }
            BusAction::Modify(r, f) => {
                let cur = *regs.get(&r).unwrap_or(&0xFFFF_FFFF);
                regs.insert(r, (cur & !f.mask) | f.value);
            }
            _ => {}
        }
    }
    assert_eq!(regs[&SpiReg::Ctrl] & (1 << 15), 0);
    assert_eq!(regs[&SpiReg::User] & (1 << 13), 0);
}

#[test]
fn poll_step_decides_after_each_answer() {
    assert_eq!(poll_step(0, 3, false), PollDecision::Done(Ok(())));
    assert_eq!(poll_step(0, 3, true), PollDecision::PollAgain);
    assert_eq!(poll_step(1, 3, true), PollDecision::PollAgain);
    assert_eq!(poll_step(2, 3, true), PollDecision::Done(Err(HalError::Timeout)));
    assert_eq!(poll_step(2, 3, false), PollDecision::Done(Ok(())));
    assert_eq!(poll_step(0, 1, true), PollDecision::Done(Err(HalError::Timeout)));
}

#[test]
fn wait_until_clear_polls_until_first_clear_answer() {
    let answers = [true, true, false, true];
    let mut polls = 0;
    assert_eq!(
        wait_until_clear(
            |_| {
                polls += 1;
                answers[polls - 1]
            },
            4
        ),
        Ok(())
    );
    assert_eq!(polls, 3);
    let mut polls = 0;
    assert_eq!(
        wait_until_clear(
            |_| {
                polls += 1;
                answers[polls - 1]
            },
            2
        ),
        Err(HalError::Timeout)
    );
    assert_eq!(polls, 2);
    assert_eq!(wait_until_clear(|j| j < 2, 3), Ok(()));
    assert_eq!(wait_until_clear(|j| j < 2, 2), Err(HalError::Timeout));
}

#[test]
fn configure_ignores_the_cs_pin() {
    let spi = Spi::new();
    let a = SpiConfig::spi_flash_default();
    let mut b = SpiConfig::spi_flash_default();
    b.cs_pin = Some(7);
    assert_eq!(run(spi.configure(&a, Soc::Esp32C3), [0; 16]).0, run(spi.configure(&b, Soc::Esp32C3), [0; 16]).0);
}
