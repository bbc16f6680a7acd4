//! ESP32 IO_MUX + GPIO-matrix pin controller (C3/C6): the register writes
//! that put a pin into its configured function.
use vstd::prelude::*;
use crate::regfield::{FieldSet, field, field_spec, join};
use crate::Soc;

verus! {

// SPI2/FSPI signal indices of the GPIO matrix; a signal's IN and OUT
// variants share one index.
pub const FSPICLK_OUT_IDX: u32 = 63;
pub const FSPICLK_IN_IDX: u32 = 63;
pub const FSPIQ_OUT_IDX: u32 = 64;
pub const FSPIQ_IN_IDX: u32 = 64;
pub const FSPID_OUT_IDX: u32 = 65;
pub const FSPID_IN_IDX: u32 = 65;
pub const FSPIHD_OUT_IDX: u32 = 66;
pub const FSPIHD_IN_IDX: u32 = 66;
pub const FSPIWP_OUT_IDX: u32 = 67;
pub const FSPIWP_IN_IDX: u32 = 67;
pub const FSPICS0_OUT_IDX: u32 = 68;
pub const FSPICS0_IN_IDX: u32 = 68;

// I2CEXT0 signal indices of the C6 GPIO matrix.
pub const I2CEXT0_SCL_OUT_IDX: u32 = 45;
pub const I2CEXT0_SCL_IN_IDX: u32 = 45;
pub const I2CEXT0_SDA_OUT_IDX: u32 = 46;
pub const I2CEXT0_SDA_IN_IDX: u32 = 46;

/// Per-pin PAD_DRIVER register, relative to the GPIO block.
pub const GPIO_PIN_REG_OFFSET: u64 = 0x74;
/// FUNCx_IN_SEL_CFG registers, relative to the GPIO block.
pub const FUNC_IN_SEL_CFG_OFFSET: u64 = 0x154;
/// FUNCx_OUT_SEL_CFG registers, relative to the GPIO block.
pub const FUNC_OUT_SEL_CFG_OFFSET: u64 = 0x554;

/// Pins that have an IO_MUX register (C3: 22 pins, C6: 30 pins).
pub const IO_MUX_PIN_COUNT: u8 = 30;

/// Base address of the GPIO block (and its matrix).
pub open spec fn gpio_matrix_base(soc: Soc) -> u64 {
    match soc {
        Soc::Esp32C3 => 0x6000_4000,
        Soc::Esp32C6 => 0x6009_1000,
    }
}

/// Base address of the IO_MUX block.
pub open spec fn io_mux_base(soc: Soc) -> u64 {
    match soc {
        Soc::Esp32C3 => 0x6000_9000,
        Soc::Esp32C6 => 0x6009_0000,
    }
}

/// One register access of a pin's initialisation.
#[derive(Debug, Clone, Copy, PartialEq, Eq, Structural)]
pub enum PinOp {
    /// Store `value` at the 32-bit register at `addr`.
    Write { addr: u64, value: u32 },
    /// Read-modify-write the fields of the 32-bit register at `addr`.
    Modify { addr: u64, fields: FieldSet },
    /// Write `mask` to the GPIO block's ENABLE_W1TS register (`DATA` field):
    /// the pads of its set bits start driving.
    GpioEnableSet(u32),
    /// Write `mask` to the GPIO block's OUT_W1TS register (`DATA` field):
    /// the pads of its set bits output high.
    GpioOutSet(u32),
}

/// IO_MUX register of `pin`: `IO_MUX_BASE + 0x04 + 4 * pin`.
pub open spec fn io_mux_addr(soc: Soc, pin: u8) -> u64 {
    (io_mux_base(soc) + 4 + 4 * pin) as u64
}

/// IO_MUX fields: MCU_SEL (bits 12..15), FUN_IE (9), FUN_PU (8), FUN_PD (7), FUN_DRV (10..12).
pub open spec fn io_mux_fields(mcu_sel: u32, ie: bool, pu: bool, pd: bool, drv: u32) -> FieldSet {
    join(join(join(join(field_spec(7, 12, mcu_sel), field_spec(1, 9, if ie { 1 } else { 0 })),
        field_spec(1, 8, if pu { 1 } else { 0 })), field_spec(1, 7, if pd { 1 } else { 0 })), field_spec(3, 10, drv))
}

/// PAD_DRIVER register of `pin`.
pub open spec fn pad_addr(soc: Soc, pin: u8) -> u64 {
    (gpio_matrix_base(soc) + GPIO_PIN_REG_OFFSET + 4 * pin) as u64
}

/// PAD_DRIVER (bit 2): 1 for open drain, 0 for push-pull.
pub open spec fn pad_driver(open_drain: bool) -> FieldSet {
    field_spec(1, 2, if open_drain { 1 } else { 0 })
}

/// FUNCx_OUT_SEL_CFG register of `pin`.
pub open spec fn out_sel_addr(soc: Soc, pin: u8) -> u64 {
    (gpio_matrix_base(soc) + FUNC_OUT_SEL_CFG_OFFSET + 4 * pin) as u64
}

/// FUNCx_OUT_SEL_CFG: OUT_SEL (bits 0..8) the signal, INV_SEL (8) clear,
/// OEN_SEL (9) as given, OEN_INV_SEL (10) clear.
pub open spec fn out_sel_fields(signal: u32, oen_sel: u32) -> FieldSet {
    join(join(join(field_spec(0xff, 0, signal), field_spec(1, 8, 0)), field_spec(1, 9, oen_sel)), field_spec(1, 10, 0))
}

/// FUNCx_IN_SEL_CFG register of peripheral input `signal`.
pub open spec fn in_sel_addr(soc: Soc, signal: u32) -> u64 {
    (gpio_matrix_base(soc) + FUNC_IN_SEL_CFG_OFFSET + 4 * signal) as u64
}

/// FUNCx_IN_SEL_CFG: SEL (bit 7) routes via the matrix, IN_INV_SEL (6)
/// clear, IN_SEL (bits 0..6) the pin.
pub open spec fn in_sel_fields(pin: u32) -> FieldSet {
    join(join(field_spec(1, 7, 1), field_spec(1, 6, 0)), field_spec(0x3f, 0, pin))
}

/// The pin-configuration entry of one pin.
pub struct Esp32IoMuxPinctrl {
    pin: u8,
    mcu_sel: u32,
    ie: bool,
    pu: bool,
    pd: bool,
    drv: u32,
    out_signal: Option<u32>,
    in_signal: Option<u32>,
    gpio_output: bool,
    open_drain: bool,
}

impl Esp32IoMuxPinctrl {
    pub closed spec fn pin(&self) -> u8 { self.pin }
    pub closed spec fn mcu_sel(&self) -> u32 { self.mcu_sel }
    pub closed spec fn ie(&self) -> bool { self.ie }
    pub closed spec fn pu(&self) -> bool { self.pu }
    pub closed spec fn pd(&self) -> bool { self.pd }
    pub closed spec fn drv(&self) -> u32 { self.drv }
    pub closed spec fn out_signal(&self) -> Option<u32> { self.out_signal }
    pub closed spec fn in_signal(&self) -> Option<u32> { self.in_signal }
    pub closed spec fn gpio_output(&self) -> bool { self.gpio_output }
    pub closed spec fn open_drain(&self) -> bool { self.open_drain }

    /// A pin `pin` in IO_MUX function `mcu_sel`, with input enable, pull-up,
    /// pull-down and drive strength; optionally routed to peripheral output
    /// `out_signal` and from peripheral input `in_signal`; `gpio_output` for
    /// a software-driven output (such as a chip select), `open_drain` for an
    /// open-drain pad.
    pub fn new(
        pin: u8,
        mcu_sel: u32,
        ie: bool,
        pu: bool,
        pd: bool,
        drv: u32,
        out_signal: Option<u32>,
        in_signal: Option<u32>,
        gpio_output: bool,
        open_drain: bool,
    ) -> (p: Self)
        ensures
            p.pin() == pin,
            p.mcu_sel() == mcu_sel,
            p.ie() == ie,
            p.pu() == pu,
            p.pd() == pd,
            p.drv() == drv,
            p.out_signal() == out_signal,
            p.in_signal() == in_signal,
            p.gpio_output() == gpio_output,
            p.open_drain() == open_drain,
    {
        Esp32IoMuxPinctrl { pin, mcu_sel, ie, pu, pd, drv, out_signal, in_signal, gpio_output, open_drain }
    }

    /// The pin number.
    pub fn pin_index(&self) -> (p: u8)
        ensures
            p == self.pin(),
    {
        self.pin
    }

    /// The register accesses that configure the pin, in order: IO_MUX
    /// function, pad driver, output routing (and pad output enable for a
    /// peripheral-driven output), input routing, and for a software-driven
    /// output the level preset high before its output is enabled.
    pub open spec fn init_ops(&self, soc: Soc) -> Seq<PinOp> {
        let bit = (1u32 << self.pin()) as u32;
        seq![
            PinOp::Write { addr: io_mux_addr(soc, self.pin()),
                value: io_mux_fields(self.mcu_sel(), self.ie(), self.pu(), self.pd(), self.drv()).value },
            PinOp::Modify { addr: pad_addr(soc, self.pin()), fields: pad_driver(self.open_drain()) },
        ] + match self.out_signal() {
            Some(sig) => seq![PinOp::Write { addr: out_sel_addr(soc, self.pin()),
                value: out_sel_fields(sig, if self.gpio_output() { 1u32 } else { 0u32 }).value }]
                + if self.gpio_output() { Seq::<PinOp>::empty() } else { seq![PinOp::GpioEnableSet(bit)] },
            None => Seq::<PinOp>::empty(),
        } + match self.in_signal() {
            Some(sig) => seq![PinOp::Write { addr: in_sel_addr(soc, sig), value: in_sel_fields(self.pin() as u32).value }],
            None => Seq::<PinOp>::empty(),
        } + if self.gpio_output() { seq![PinOp::GpioOutSet(bit), PinOp::GpioEnableSet(bit)] } else { Seq::<PinOp>::empty() }
    }

    /// The register accesses that put the pin into its configured function
    /// (see [`Self::init_ops`]). Only pins with an IO_MUX register can be configured.
    pub fn init(&self, soc: Soc) -> (ops: Vec<PinOp>)
        requires
            self.pin() < IO_MUX_PIN_COUNT,
        ensures
            ops@ == self.init_ops(soc),
    {
        let pin = self.pin;
        let gpio_base: u64 = match soc { Soc::Esp32C3 => 0x6000_4000, Soc::Esp32C6 => 0x6009_1000 };
        let mux_base: u64 = match soc { Soc::Esp32C3 => 0x6000_9000, Soc::Esp32C6 => 0x6009_0000 };
        let bit: u32 = 1u32 << pin;
        let mut ops: Vec<PinOp> = Vec::new();
        let mux = field(7, 12, self.mcu_sel).plus(field(1, 9, if self.ie { 1 } else { 0 })).plus(
            field(1, 8, if self.pu { 1 } else { 0 })).plus(field(1, 7, if self.pd { 1 } else { 0 })).plus(
            field(3, 10, self.drv));
        ops.push(PinOp::Write { addr: mux_base + 4 + 4 * (pin as u64), value: mux.value });
        ops.push(PinOp::Modify { addr: gpio_base + GPIO_PIN_REG_OFFSET + 4 * (pin as u64),
            fields: field(1, 2, if self.open_drain { 1 } else { 0 }) });
        let ghost s1 = ops@;
        if let Some(sig) = self.out_signal {
            let oen_sel: u32 = if self.gpio_output { 1 } else { 0 };
            let out = field(0xff, 0, sig).plus(field(1, 8, 0)).plus(field(1, 9, oen_sel)).plus(field(1, 10, 0));
            ops.push(PinOp::Write { addr: gpio_base + FUNC_OUT_SEL_CFG_OFFSET + 4 * (pin as u64), value: out.value });
            if !self.gpio_output {
                ops.push(PinOp::GpioEnableSet(bit));
            }
        }
        let ghost s2 = ops@;
        if let Some(sig) = self.in_signal {
            let inp = field(1, 7, 1).plus(field(1, 6, 0)).plus(field(0x3f, 0, pin as u32));
            ops.push(PinOp::Write { addr: gpio_base + FUNC_IN_SEL_CFG_OFFSET + 4 * (sig as u64), value: inp.value });
        }
        let ghost s3 = ops@;
        if self.gpio_output {
            ops.push(PinOp::GpioOutSet(bit));
            ops.push(PinOp::GpioEnableSet(bit));
        }
        assert(ops@ =~= self.init_ops(soc));
        ops
    }
}

/// A software-driven output is preset high before its pad starts driving,
/// so a chip select never glitches low while being enabled.
pub proof fn lemma_software_output_preset_high(p: Esp32IoMuxPinctrl, soc: Soc)
    requires
        p.gpio_output(),
    ensures
        ({
            let ops = p.init_ops(soc);
            let bit = (1u32 << p.pin()) as u32;
            &&& ops.len() >= 2
            &&& ops[ops.len() - 2] == PinOp::GpioOutSet(bit)
            &&& ops[ops.len() - 1] == PinOp::GpioEnableSet(bit)
            &&& forall|i: int| 0 <= i < ops.len() - 2 ==> !(#[trigger] ops[i] is GpioEnableSet)
        }),
{
    let ops = p.init_ops(soc);
    let bit = (1u32 << p.pin()) as u32;
    let a = seq![
        PinOp::Write { addr: io_mux_addr(soc, p.pin()),
            value: io_mux_fields(p.mcu_sel(), p.ie(), p.pu(), p.pd(), p.drv()).value },
        PinOp::Modify { addr: pad_addr(soc, p.pin()), fields: pad_driver(p.open_drain()) },
    ];
    let b = match p.out_signal() {
        Some(sig) => seq![PinOp::Write { addr: out_sel_addr(soc, p.pin()),
            value: out_sel_fields(sig, if p.gpio_output() { 1u32 } else { 0u32 }).value }]
            + if p.gpio_output() { Seq::<PinOp>::empty() } else { seq![PinOp::GpioEnableSet(bit)] },
        None => Seq::<PinOp>::empty(),
    };
    let c = match p.in_signal() {
        Some(sig) => seq![PinOp::Write { addr: in_sel_addr(soc, sig), value: in_sel_fields(p.pin() as u32).value }],
        None => Seq::<PinOp>::empty(),
    };
    let d = seq![PinOp::GpioOutSet(bit), PinOp::GpioEnableSet(bit)];
    assert(ops == a + b + c + d);
    assert forall|i: int| 0 <= i < ops.len() - 2 implies !(#[trigger] ops[i] is GpioEnableSet) by {
        if i < a.len() {
            assert(ops[i] == a[i]);
        } else if i < a.len() + b.len() {
            assert(ops[i] == b[i - a.len()]);
        } else {
            assert(ops[i] == c[i - a.len() - b.len()]);
        }
    }
}

/// A peripheral-driven output pin gets its pad output enable, right after
/// its output routing.
pub proof fn lemma_peripheral_output_enabled(p: Esp32IoMuxPinctrl, soc: Soc)
    requires
        p.out_signal() is Some,
        !p.gpio_output(),
    ensures
        p.init_ops(soc)[3] == PinOp::GpioEnableSet((1u32 << p.pin()) as u32),
        p.init_ops(soc)[2] is Write,
{
}

/// The first access writes the pin's IO_MUX register (at `0x6000_9004` on
/// the C3 and `0x6009_0004` on the C6, 4 bytes per pin) with exactly the
/// requested configuration: FUN_PD (bit 7) set exactly when pull-down was
/// asked for, FUN_PU (bit 8) exactly when pull-up, FUN_IE (bit 9) exactly
/// when input enable, FUN_DRV (bits 10..12) the drive strength, MCU_SEL
/// (bits 12..15) the function, and no other bit.
pub proof fn lemma_io_mux_word(p: Esp32IoMuxPinctrl, soc: Soc)
    ensures
        p.init_ops(soc)[0] matches PinOp::Write { addr, value } && {
            &&& addr == (match soc { Soc::Esp32C3 => 0x6000_9004int, Soc::Esp32C6 => 0x6009_0004int }) + 4 * p.pin()
            &&& (value & 0x80 != 0) == p.pd()
            &&& (value & 0x100 != 0) == p.pu()
            &&& (value & 0x200 != 0) == p.ie()
            &&& (value >> 10u32) & 3 == p.drv() & 3
            &&& (value >> 12u32) & 7 == p.mcu_sel() & 7
            &&& value & !0x7F80u32 == 0
        },
{
    let m = p.mcu_sel();
    let drv = p.drv();
    let iv: u32 = if p.ie() { 1 } else { 0 };
    let uv: u32 = if p.pu() { 1 } else { 0 };
    let dv: u32 = if p.pd() { 1 } else { 0 };
    let v = io_mux_fields(m, p.ie(), p.pu(), p.pd(), drv).value;
    assert(v == ((m & 7) << 12u32) | ((iv & 1) << 9u32) | ((uv & 1) << 8u32) | ((dv & 1) << 7u32) | ((drv & 3) << 10u32));
    assert({
        let w = ((m & 7) << 12u32) | ((iv & 1) << 9u32) | ((uv & 1) << 8u32) | ((dv & 1) << 7u32) | ((drv & 3) << 10u32);
        &&& (w & 0x80 != 0) == (dv == 1)
        &&& (w & 0x100 != 0) == (uv == 1)
        &&& (w & 0x200 != 0) == (iv == 1)
        &&& (w >> 10u32) & 3 == drv & 3
        &&& (w >> 12u32) & 7 == m & 7
        &&& w & !0x7F80u32 == 0
    }) by (bit_vector)
        requires iv <= 1, uv <= 1, dv <= 1;
}

/// The second access sets the pad driver of the pin (PAD_DRIVER, bit 2 of
/// its GPIO_PINn register at `GPIO base + 0x74 + 4 * pin`): open drain
/// exactly when asked for, push-pull otherwise, and nothing else of that
/// register.
pub proof fn lemma_pad_driver_word(p: Esp32IoMuxPinctrl, soc: Soc)
    ensures
        p.init_ops(soc)[1] matches PinOp::Modify { addr, fields } && {
            &&& addr == (match soc { Soc::Esp32C3 => 0x6000_4074int, Soc::Esp32C6 => 0x6009_1074int }) + 4 * p.pin()
            &&& fields.mask == 4
            &&& fields.value == if p.open_drain() { 4u32 } else { 0u32 }
        },
{
    assert(1u32 << 2u32 == 4u32 && (1u32 & 1u32) << 2u32 == 4u32 && (0u32 & 1u32) << 2u32 == 0u32) by (bit_vector);
}

} // verus!
