use blueos_driver::pinctrl::esp32_pinctrl::{Esp32IoMuxPinctrl, PinOp, FSPICLK_IN_IDX, FSPICLK_OUT_IDX, FSPICS0_OUT_IDX};
use blueos_driver::regfield::FieldSet;
use blueos_driver::Soc;

#[test]
fn software_chip_select_is_preset_high_before_enable() {
    let cs = Esp32IoMuxPinctrl::new(10, 1, false, false, false, 2, Some(FSPICS0_OUT_IDX), None, true, false);
    assert_eq!(
        cs.init(Soc::Esp32C3),
        vec![
            PinOp::Write { addr: 0x6000_902C, value: 0x1800 },
            PinOp::Modify { addr: 0x6000_409C, fields: FieldSet { mask: 4, value: 0 } },
            PinOp::Write { addr: 0x6000_457C, value: 68 | (1 << 9) },
            PinOp::GpioOutSet(1 << 10),
            PinOp::GpioEnableSet(1 << 10),
        ]
    );
}

#[test]
fn peripheral_pin_routes_both_ways_and_enables_pad() {
    let clk = Esp32IoMuxPinctrl::new(6, 2, true, false, false, 3, Some(FSPICLK_OUT_IDX), Some(FSPICLK_IN_IDX), false, false);
    assert_eq!(
        clk.init(Soc::Esp32C6),
        vec![
            PinOp::Write { addr: 0x6009_001C, value: 0x2E00 },
            PinOp::Modify { addr: 0x6009_108C, fields: FieldSet { mask: 4, value: 0 } },
            PinOp::Write { addr: 0x6009_156C, value: 63 },
            PinOp::GpioEnableSet(1 << 6),
            PinOp::Write { addr: 0x6009_1250, value: (1 << 7) | 6 },
        ]
    );
}

#[test]
fn open_drain_input_only_pin() {
    let sda = Esp32IoMuxPinctrl::new(3, 1, true, true, false, 0, None, Some(46), false, true);
    assert_eq!(
        sda.init(Soc::Esp32C6),
        vec![
            PinOp::Write { addr: 0x6009_0010, value: (1 << 12) | (1 << 9) | (1 << 8) },
            PinOp::Modify { addr: 0x6009_1080, fields: FieldSet { mask: 4, value: 4 } },
            PinOp::Write { addr: 0x6009_1154 + 4 * 46, value: (1 << 7) | 3 },
        ]
    );
}
