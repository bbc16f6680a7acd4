//! Laws on the register contents that the setup programs leave behind,
//! for a register file in which every register holds what was last written.
use vstd::prelude::*;
use crate::regfield::{FieldSet, field_spec, join};
use crate::spi::{SpiConfig, SpiPhase, SpiPolarity, SpiBitOrder};
use crate::spi::transaction::{
    Chunk, FifoReset, SpiReg, SpiStep, chunk_steps, chunks_steps, fifo_reset_clear, fifo_reset_set,
};
use crate::spi::esp32_spi::{
    bit_of, bit_order_fields, clock_setting, configure_prefix, configure_steps, cs_disabled, disable_steps, enable_steps, idle_edge, out_edge,
    full_duplex_chunks, half_read_chunks, half_write_chunks, user_half_write,
    command_write_chunks, ctrl_quad, pixel_write_chunks, qspi_data_chunk, qspi_header_chunk, qspi_write_chunks, user_qspi_write, qspi_read_chunks, qspi_read_setup, user_full_duplex, user_qspi_read,
};
use crate::Soc;

verus! {

/// What one register step does to the register file `regs` (polls, loads
/// and receives leave it alone).
pub open spec fn apply_register_step(regs: Map<SpiReg, u32>, s: SpiStep) -> Map<SpiReg, u32> {
    match s {
        SpiStep::Write(r, v) => regs.insert(r, v),
        SpiStep::Modify(r, f) => regs.insert(r, crate::regfield::modified(regs[r], f)),
        _ => regs,
    }
}

/// The register file after `steps`, when every register holds what was last
/// written to it.
pub open spec fn registers_after(steps: Seq<SpiStep>, regs: Map<SpiReg, u32>) -> Map<SpiReg, u32>
    decreases steps.len(),
{
    if steps.len() == 0 {
        regs
    } else {
        apply_register_step(registers_after(steps.drop_last(), regs), steps.last())
    }
}

pub proof fn lemma_registers_after_append(a: Seq<SpiStep>, b: Seq<SpiStep>, regs: Map<SpiReg, u32>)
    ensures
        registers_after(a + b, regs) == registers_after(b, registers_after(a, regs)),
    decreases b.len(),
{
    if b.len() == 0 {
        assert(a + b =~= a);
    } else {
        assert((a + b).drop_last() =~= a + b.drop_last());
        assert((a + b).last() == b.last());
        lemma_registers_after_append(a, b.drop_last(), regs);
    }
}

proof fn lemma_registers_after_one(s: SpiStep, regs: Map<SpiReg, u32>)
    ensures
        registers_after(seq![s], regs) == apply_register_step(regs, s),
{
    reveal_with_fuel(registers_after, 2);
    assert(seq![s].drop_last() =~= Seq::<SpiStep>::empty());
}

/// The register file after the steps of `s`, one at a time.
proof fn lemma_registers_after_unrolled(s: Seq<SpiStep>, regs: Map<SpiReg, u32>, k: int)
    requires
        0 <= k <= s.len(),
    ensures
        registers_after(s.take(k), regs) == if k == 0 { regs } else {
            apply_register_step(registers_after(s.take(k - 1), regs), s[k - 1])
        },
{
    if k > 0 {
        assert(s.take(k).drop_last() =~= s.take(k - 1));
        assert(s.take(k).last() == s[k - 1]);
    } else {
        assert(s.take(0) =~= Seq::<SpiStep>::empty());
    }
}

proof fn lemma_field_bits()
    ensures
        field_spec(1, 0, 1) == (FieldSet { mask: 1, value: 1 }),
        field_spec(1, 1, 1) == (FieldSet { mask: 2, value: 2 }),
        field_spec(1, 1, 0) == (FieldSet { mask: 2, value: 0 }),
        field_spec(1, 2, 1) == (FieldSet { mask: 4, value: 4 }),
        field_spec(1, 0, 0) == (FieldSet { mask: 1, value: 0 }),
        field_spec(1, 6, 1) == (FieldSet { mask: 0x40, value: 0x40 }),
        field_spec(1, 6, 0) == (FieldSet { mask: 0x40, value: 0 }),
        field_spec(3, 20, 1) == (FieldSet { mask: 0x30_0000, value: 0x10_0000 }),
        field_spec(1, 22, 1) == (FieldSet { mask: 0x40_0000, value: 0x40_0000 }),
        field_spec(1, 22, 0) == (FieldSet { mask: 0x40_0000, value: 0 }),
{
    assert(
        ((1u32 << 0u32) == 1u32 && ((1u32 & 1u32) << 0u32) == 1u32 && ((0u32 & 1u32) << 0u32) == 0u32) &&
        ((1u32 << 1u32) == 2u32 && ((1u32 & 1u32) << 1u32) == 2u32 && ((0u32 & 1u32) << 1u32) == 0u32) &&
        ((1u32 << 2u32) == 4u32 && ((1u32 & 1u32) << 2u32) == 4u32) &&
        ((1u32 << 6u32) == 0x40u32 && ((1u32 & 1u32) << 6u32) == 0x40u32 && ((0u32 & 1u32) << 6u32) == 0u32) &&
        ((3u32 << 20u32) == 0x30_0000u32 && ((1u32 & 3u32) << 20u32) == 0x10_0000u32) &&
        ((1u32 << 22u32) == 0x40_0000u32 && ((1u32 & 1u32) << 22u32) == 0x40_0000u32 && ((0u32 & 1u32) << 22u32) == 0u32)
    ) by (bit_vector);
}

/// Enabling turns on the controller's clock gate (CLK_EN, MST_CLK_ACTIVE,
/// MST_CLK_SEL) and the SPI2 bus clock, and leaves SPI2 out of reset, on
/// both parts; disabling afterwards stops the master clock and the SPI2
/// clocks again.
pub proof fn lemma_disable_undoes_enable(soc: Soc, regs: Map<SpiReg, u32>)
    ensures
        ({
            let on = registers_after(enable_steps(soc), regs);
            &&& on[SpiReg::ClkGate] == 7
            &&& soc == Soc::Esp32C3 ==> on[SpiReg::SysPeripClkEn0] & 0x40 == 0x40
                && on[SpiReg::SysPeripRstEn0] & 0x40 == 0
            &&& soc == Soc::Esp32C6 ==> on[SpiReg::PcrSpi2Conf] & 3 == 3
                && on[SpiReg::PcrSpi2ClkmConf] & 0x70_0000 == 0x50_0000
        }),
        ({
            let off = registers_after(enable_steps(soc) + disable_steps(soc), regs);
            &&& off[SpiReg::ClkGate] & 2 == 0
            &&& off[SpiReg::ClkGate] & 5 == 5
            &&& soc == Soc::Esp32C3 ==> off[SpiReg::SysPeripClkEn0] & 0x40 == 0
            &&& soc == Soc::Esp32C6 ==> off[SpiReg::PcrSpi2Conf] & 1 == 0
                && off[SpiReg::PcrSpi2ClkmConf] & 0x40_0000 == 0
        }),
{
    lemma_field_bits();
    let e = enable_steps(soc);
    let d = disable_steps(soc);
    assert(join(join(field_spec(1, 0, 1), field_spec(1, 1, 1)), field_spec(1, 2, 1)).value == 7) by {
        assert(1u32 | 2u32 | 4u32 == 7u32) by (bit_vector);
    }
    lemma_registers_after_unrolled(e, regs, 1);
    lemma_registers_after_unrolled(e, regs, 2);
    lemma_registers_after_unrolled(e, regs, 3);
    lemma_registers_after_unrolled(e, regs, 4);
    assert(e.take(4) =~= e);
    let on = registers_after(e, regs);
    lemma_registers_after_append(e, d, regs);
    lemma_registers_after_unrolled(d, on, 1);
    lemma_registers_after_unrolled(d, on, 2);
    let m1 = registers_after(e.take(1), regs);
    let m2 = registers_after(e.take(2), regs);
    assert(
        (((7u32 & !2u32) | 0u32) & 2u32 == 0u32) &&
        (((7u32 & !2u32) | 0u32) & 5u32 == 5u32)
    ) by (bit_vector);
    assert(0x40u32 & !0x40u32 == 0 && 0u32 & !0x40u32 == 0 && 1u32 & !3u32 == 0 && 2u32 & !2u32 == 0
        && 0x50_0000u32 & !0x70_0000u32 == 0 && 0u32 & !0x40_0000u32 == 0 && 0u32 & !1u32 == 0) by (bit_vector);
    match soc {
        Soc::Esp32C3 => {
            assert(d.take(2) =~= d);
            lemma_modify_bits(regs[SpiReg::SysPeripClkEn0], 0x40, 0x40);
            lemma_modify_bits(m2[SpiReg::SysPeripRstEn0], 0x40, 0);
            lemma_modify_bits(on[SpiReg::SysPeripClkEn0], 0x40, 0);
        },
        Soc::Esp32C6 => {
            lemma_registers_after_unrolled(d, on, 3);
            assert(d.take(3) =~= d);
            assert(
                (1u32 | 2u32 == 3u32 && 1u32 | 0u32 == 1u32) &&
                (0x30_0000u32 | 0x40_0000u32 == 0x70_0000u32 && 0x10_0000u32 | 0x40_0000u32 == 0x50_0000u32)
            ) by (bit_vector);
            let c1 = m1[SpiReg::PcrSpi2Conf];
            lemma_modify_bits(regs[SpiReg::PcrSpi2Conf], 3, 1);
            lemma_modify_bits(c1, 2, 2);
            assert(c1 & 3 == 1);
            assert(c1 & 1 == 1) by (bit_vector) requires c1 & 3u32 == 1u32;
            let c2 = m2[SpiReg::PcrSpi2Conf];
            assert(c2 == (c1 & !2u32) | 2u32);
            assert(c2 & 3 == 3) by (bit_vector) requires c2 == (c1 & !2u32) | 2u32, c1 & 1u32 == 1u32;
            lemma_modify_bits(regs[SpiReg::PcrSpi2ClkmConf], 0x70_0000, 0x50_0000);
            lemma_modify_bits(on[SpiReg::PcrSpi2ClkmConf], 0x40_0000, 0);
            let x = registers_after(d.take(2), on)[SpiReg::PcrSpi2Conf];
            lemma_modify_bits(x, 1, 0);
        },
    }
}

/// A read-modify-write of well-formed fields sets them and keeps the rest.
proof fn lemma_modify_bits(x: u32, m: u32, v: u32)
    requires
        v & !m == 0,
    ensures
        ((x & !m) | v) & m == v,
        ((x & !m) | v) & !m == x & !m,
{
    assert(
        (v & !m == 0 ==> ((x & !m) | v) & m == v) &&
        (v & !m == 0 ==> ((x & !m) | v) & !m == x & !m)
    ) by (bit_vector);
}

} // verus!

verus! {

proof fn lemma_cs_disabled_fields()
    ensures
        cs_disabled() == (FieldSet { mask: 0x4000_003F, value: 0x3F }),
{
    assert(
        (1u32 << 0u32 == 1u32 && (1u32 & 1u32) << 0u32 == 1u32) &&
        (1u32 << 1u32 == 2u32 && (1u32 & 1u32) << 1u32 == 2u32) &&
        (1u32 << 2u32 == 4u32 && (1u32 & 1u32) << 2u32 == 4u32) &&
        (1u32 << 3u32 == 8u32 && (1u32 & 1u32) << 3u32 == 8u32) &&
        (1u32 << 4u32 == 16u32 && (1u32 & 1u32) << 4u32 == 16u32) &&
        (1u32 << 5u32 == 32u32 && (1u32 & 1u32) << 5u32 == 32u32) &&
        (1u32 << 30u32 == 0x4000_0000u32 && (0u32 & 1u32) << 30u32 == 0u32) &&
        (1u32 | 2u32 == 3u32 && 3u32 | 4u32 == 7u32 && 7u32 | 8u32 == 15u32) &&
        (15u32 | 16u32 == 31u32 && 31u32 | 32u32 == 63u32 && 63u32 | 0x4000_0000u32 == 0x4000_003Fu32) &&
        (63u32 | 0u32 == 63u32)
    ) by (bit_vector);
}

/// The register file after the full configuration program with divider word `w`.
proof fn lemma_configure_registers_with_clock(config: SpiConfig, soc: Soc, w: u32, regs: Map<SpiReg, u32>)
    ensures
        ({
            let r = registers_after(configure_prefix(config, soc)
                + seq![SpiStep::Write(SpiReg::Clock, w), SpiStep::Modify(SpiReg::Misc, cs_disabled())], regs);
            &&& r[SpiReg::Slave] == 0
            &&& r[SpiReg::DmaConf] == 0
            &&& r[SpiReg::Misc] & 0x3F == 0x3F
            &&& r[SpiReg::Misc] & 0x4000_0000 == 0
            &&& (r[SpiReg::Misc] & 0x2000_0000 != 0) == (config.polarity == SpiPolarity::High)
            &&& (r[SpiReg::User] & 0x200 != 0) == ((config.polarity == SpiPolarity::High) != (config.phase == SpiPhase::Phase1))
            &&& (r[SpiReg::Ctrl] & 0x0200_0000 != 0) == (config.bit_order == SpiBitOrder::LsbFirst)
            &&& (r[SpiReg::Ctrl] & 0x0400_0000 != 0) == (config.bit_order == SpiBitOrder::LsbFirst)
            &&& r[SpiReg::Clock] == w
        }),
{
    let s = configure_prefix(config, soc) + seq![SpiStep::Write(SpiReg::Clock, w), SpiStep::Modify(SpiReg::Misc, cs_disabled())];
    assert(s.len() == 14);
    lemma_registers_after_unrolled(s, regs, 1);
    lemma_registers_after_unrolled(s, regs, 2);
    lemma_registers_after_unrolled(s, regs, 3);
    lemma_registers_after_unrolled(s, regs, 4);
    lemma_registers_after_unrolled(s, regs, 5);
    lemma_registers_after_unrolled(s, regs, 6);
    lemma_registers_after_unrolled(s, regs, 7);
    lemma_registers_after_unrolled(s, regs, 8);
    lemma_registers_after_unrolled(s, regs, 9);
    lemma_registers_after_unrolled(s, regs, 10);
    lemma_registers_after_unrolled(s, regs, 11);
    lemma_registers_after_unrolled(s, regs, 12);
    lemma_registers_after_unrolled(s, regs, 13);
    lemma_registers_after_unrolled(s, regs, 14);
    lemma_registers_after_unrolled(s, regs, 0);
    assert(s.take(14) =~= s);
    let e = enable_steps(soc);
    assert(forall|j: int| 0 <= j < 4 ==> s[j] == #[trigger] e[j]);
    assert(forall|j: int| 0 <= j < 4 ==> !(#[trigger] e[j] matches SpiStep::Write(SpiReg::Slave, _))
        && !(e[j] matches SpiStep::Modify(SpiReg::Slave, _)));
    let r4 = registers_after(s.take(4), regs);
    let r14 = registers_after(s, regs);
    // Slave: written with SOFT_RESET set, then SOFT_RESET cleared.
    assert(field_spec(1, 26, 0).value | field_spec(1, 27, 1).value == 0x0800_0000u32 && field_spec(1, 27, 0)
        == (FieldSet { mask: 0x0800_0000, value: 0 })) by {
        assert(
            (((0u32 & 1u32) << 26u32) | ((1u32 & 1u32) << 27u32) == 0x0800_0000u32) &&
            (1u32 << 27u32 == 0x0800_0000u32 && (0u32 & 1u32) << 27u32 == 0u32)
        ) by (bit_vector);
    }
    assert(((0x0800_0000u32 & !0x0800_0000u32) | 0u32) == 0u32) by (bit_vector);
    // DMA_CONF: written zero, then the FIFO reset pulse.
    assert(field_spec(1, 27, 0).value | field_spec(1, 28, 0).value == 0u32) by {
        assert(((0u32 & 1u32) << 27u32) | ((0u32 & 1u32) << 28u32) == 0u32) by (bit_vector);
    }
    assert(fifo_reset_set(FifoReset::TxRx) == (FieldSet { mask: 0x6000_0000, value: 0x6000_0000 })
        && fifo_reset_clear(FifoReset::TxRx) == (FieldSet { mask: 0x6000_0000, value: 0 })) by {
        assert(
            (((1u32 << 30u32) | (1u32 << 29u32)) == 0x6000_0000u32) &&
            (((1u32 & 1u32) << 30u32) | ((1u32 & 1u32) << 29u32) == 0x6000_0000u32) &&
            (((0u32 & 1u32) << 30u32) | ((0u32 & 1u32) << 29u32) == 0u32)
        ) by (bit_vector);
    }
    assert((((0u32 & !0x6000_0000u32) | 0x6000_0000u32) & !0x6000_0000u32) | 0u32 == 0u32) by (bit_vector);
    // MISC: idle edge, then chip selects.
    let pol = bit_of(config.polarity == SpiPolarity::High);
    let m9 = registers_after(s.take(9), regs)[SpiReg::Misc];
    let m10 = r14[SpiReg::Misc];
    assert(idle_edge(config.polarity) == (FieldSet { mask: 0x2000_0000, value: if pol == 1 { 0x2000_0000u32 } else { 0 } })) by {
        assert(1u32 << 29u32 == 0x2000_0000u32 && (1u32 & 1u32) << 29u32 == 0x2000_0000u32 && (0u32 & 1u32) << 29u32 == 0u32) by (bit_vector);
    }
    lemma_cs_disabled_fields();
    let mi = registers_after(s.take(10), regs)[SpiReg::Misc];
    assert(mi == (m9 & !0x2000_0000u32) | (if pol == 1 { 0x2000_0000u32 } else { 0 }));
    assert(m10 == (mi & !0x4000_003Fu32) | 0x3Fu32);
    assert(m10 & 0x3F == 0x3F && m10 & 0x4000_0000 == 0 && (m10 & 0x2000_0000 != 0) == (mi & 0x2000_0000 != 0))
        by (bit_vector) requires m10 == (mi & !0x4000_003Fu32) | 0x3Fu32;
    assert((mi & 0x2000_0000 != 0) == (pol == 1)) by (bit_vector)
        requires mi == (m9 & !0x2000_0000u32) | (if pol == 1 { 0x2000_0000u32 } else { 0 });
    // USER: output edge.
    let edge = bit_of((config.polarity == SpiPolarity::High) != (config.phase == SpiPhase::Phase1));
    assert(out_edge(config.polarity, config.phase) == (FieldSet { mask: 0x200, value: if edge == 1 { 0x200u32 } else { 0 } })) by {
        assert(1u32 << 9u32 == 0x200u32 && (1u32 & 1u32) << 9u32 == 0x200u32 && (0u32 & 1u32) << 9u32 == 0u32) by (bit_vector);
    }
    let u10 = registers_after(s.take(10), regs)[SpiReg::User];
    let u = r14[SpiReg::User];
    assert(u == (u10 & !0x200u32) | (if edge == 1 { 0x200u32 } else { 0 }));
    assert((u & 0x200 != 0) == (edge == 1)) by (bit_vector)
        requires u == (u10 & !0x200u32) | (if edge == 1 { 0x200u32 } else { 0 });
    // CTRL: bit order.
    let lsb = bit_of(config.bit_order == SpiBitOrder::LsbFirst);
    assert(bit_order_fields(config.bit_order) == (FieldSet { mask: 0x0600_0000,
        value: if lsb == 1 { 0x0600_0000u32 } else { 0 } })) by {
        assert(
            ((1u32 << 25u32) | (1u32 << 26u32) == 0x0600_0000u32) &&
            (((1u32 & 1u32) << 25u32) | ((1u32 & 1u32) << 26u32) == 0x0600_0000u32) &&
            (((0u32 & 1u32) << 25u32) | ((0u32 & 1u32) << 26u32) == 0u32)
        ) by (bit_vector);
    }
    let c11 = registers_after(s.take(11), regs)[SpiReg::Ctrl];
    let c = r14[SpiReg::Ctrl];
    assert(c == (c11 & !0x0600_0000u32) | (if lsb == 1 { 0x0600_0000u32 } else { 0 }));
    assert((c & 0x0200_0000 != 0) == (lsb == 1) && (c & 0x0400_0000 != 0) == (lsb == 1)) by (bit_vector)
        requires c == (c11 & !0x0600_0000u32) | (if lsb == 1 { 0x0600_0000u32 } else { 0 });
}

} // verus!

verus! {

/// The step writes or modifies register `r`.
pub open spec fn writes_register(s: SpiStep, r: SpiReg) -> bool {
    match s {
        SpiStep::Write(w, _) => w == r,
        SpiStep::Modify(w, _) => w == r,
        _ => false,
    }
}

/// Steps that neither write nor modify `r` leave it as it was.
proof fn lemma_untouched_register(steps: Seq<SpiStep>, regs: Map<SpiReg, u32>, r: SpiReg)
    requires
        forall|i: int| 0 <= i < steps.len() ==> !writes_register(#[trigger] steps[i], r),
    ensures
        registers_after(steps, regs)[r] == regs[r],
    decreases steps.len(),
{
    if steps.len() > 0 {
        let a = steps.drop_last();
        assert forall|i: int| 0 <= i < a.len() implies !writes_register(#[trigger] a[i], r) by {
            assert(a[i] == steps[i]);
        }
        lemma_untouched_register(a, regs, r);
        assert(!writes_register(steps[steps.len() - 1], r));
    }
}

/// A chunk that carries no CTRL and no USER fields writes neither register.
proof fn lemma_chunk_leaves_ctrl_user(c: Chunk, r: SpiReg)
    requires
        c.ctrl is None,
        c.user is None,
        r == SpiReg::Ctrl || r == SpiReg::User,
    ensures
        forall|i: int| 0 <= i < chunk_steps(c).len() ==> !writes_register(#[trigger] chunk_steps(c)[i], r),
{
    let s = chunk_steps(c);
    assert forall|i: int| 0 <= i < s.len() implies !writes_register(#[trigger] s[i], r) by {
        let tail = if c.rx_len > 0 { seq![SpiStep::Receive(c.rx_len)] } else { Seq::<SpiStep>::empty() };
        assert(s =~= crate::spi::transaction::reset_steps(c.reset)
            + seq![SpiStep::Write(SpiReg::MsDlen, crate::spi::transaction::bitlen_word(c.tx_len as int)),
                SpiStep::LoadTx { start: c.tx_start, len: c.tx_len }]
            + crate::spi::transaction::start_transfer_steps() + crate::spi::transaction::wait_done_steps() + tail);
        if i < 2 {
        } else if i < 4 {
        } else if i < 9 {
        } else if i < 11 {
        } else {
        }
    }
}

/// Chunks that carry no CTRL and no USER fields write neither register.
proof fn lemma_chunks_leave_ctrl_user(cs: Seq<Chunk>, r: SpiReg)
    requires
        forall|k: int| 0 <= k < cs.len() ==> (#[trigger] cs[k]).ctrl is None && cs[k].user is None,
        r == SpiReg::Ctrl || r == SpiReg::User,
    ensures
        forall|i: int| 0 <= i < chunks_steps(cs).len() ==> !writes_register(#[trigger] chunks_steps(cs)[i], r),
    decreases cs.len(),
{
    if cs.len() > 0 {
        let a = cs.drop_last();
        assert forall|k: int| 0 <= k < a.len() implies (#[trigger] a[k]).ctrl is None && a[k].user is None by {
            assert(a[k] == cs[k]);
        }
        lemma_chunks_leave_ctrl_user(a, r);
        let last = cs[cs.len() - 1];
        lemma_chunk_leaves_ctrl_user(last, r);
        let x = chunks_steps(a);
        let y = chunk_steps(last);
        assert(chunks_steps(cs) == x + y);
        assert forall|i: int| 0 <= i < (x + y).len() implies !writes_register(#[trigger] (x + y)[i], r) by {
            if i < x.len() {
                assert((x + y)[i] == x[i]);
            } else {
                assert((x + y)[i] == y[i - x.len()]);
            }
        }
    }
}

/// A QSPI command read runs on one wire whatever ran before it (a pixel
/// write that left the quad lines on, for one): from the end of its setup,
/// through every step of its transfers, CTRL.FREAD_QUAD and
/// USER.FWRITE_QUAD are clear, when every register holds what was last
/// written to it.
pub proof fn lemma_qspi_read_one_wire(len: int, regs: Map<SpiReg, u32>, i: int)
    requires
        0 <= i <= chunks_steps(qspi_read_chunks(len)).len(),
    ensures
        ({
            let r = registers_after(qspi_read_setup() + chunks_steps(qspi_read_chunks(len)).take(i), regs);
            &&& r[SpiReg::Ctrl] & 0x8000 == 0
            &&& r[SpiReg::User] & 0x2000 == 0
        }),
{
    let setup = qspi_read_setup();
    let body = chunks_steps(qspi_read_chunks(len)).take(i);
    lemma_registers_after_append(setup, body, regs);
    lemma_registers_after_unrolled(setup, regs, 1);
    lemma_registers_after_unrolled(setup, regs, 2);
    lemma_registers_after_unrolled(setup, regs, 3);
    assert(setup.take(3) =~= setup);
    let after = registers_after(setup, regs);
    let c0 = regs[SpiReg::Ctrl];
    let u2 = registers_after(setup.take(2), regs)[SpiReg::User];
    assert(after[SpiReg::Ctrl] == crate::regfield::modified(c0, crate::spi::esp32_spi::ctrl_quad(false)));
    assert(after[SpiReg::User] == crate::regfield::modified(u2, user_qspi_read()));
    assert(crate::spi::esp32_spi::ctrl_quad(false) == (FieldSet { mask: 0x8000, value: 0 })) by {
        assert(1u32 << 15u32 == 0x8000u32 && (0u32 & 1u32) << 15u32 == 0u32) by (bit_vector);
    }
    assert(user_qspi_read().mask & 0x2000 == 0x2000 && user_qspi_read().value & 0x2000 == 0) by {
        assert(
            ((1u32 << 0u32) | (1u32 << 27u32) | (1u32 << 28u32) | (1u32 << 31u32) | (1u32 << 30u32)
                | (1u32 << 29u32) | (1u32 << 13u32)) & 0x2000u32 == 0x2000u32 &&
            (((0u32 & 1u32) << 0u32) | ((1u32 & 1u32) << 27u32) | ((1u32 & 1u32) << 28u32) | ((0u32 & 1u32) << 31u32)
                | ((0u32 & 1u32) << 30u32) | ((1u32 & 1u32) << 29u32) | ((0u32 & 1u32) << 13u32)) & 0x2000u32 == 0u32
        ) by (bit_vector);
    }
    let um = user_qspi_read().mask;
    let uv = user_qspi_read().value;
    assert(((c0 & !0x8000u32) | 0u32) & 0x8000u32 == 0u32) by (bit_vector);
    assert(((u2 & !um) | uv) & 0x2000u32 == 0u32) by (bit_vector)
        requires um & 0x2000u32 == 0x2000u32, uv & 0x2000u32 == 0u32;
    let cs = qspi_read_chunks(len);
    assert forall|k: int| 0 <= k < cs.len() implies (#[trigger] cs[k]).ctrl is None && cs[k].user is None by {}
    lemma_chunks_leave_ctrl_user(cs, SpiReg::Ctrl);
    lemma_chunks_leave_ctrl_user(cs, SpiReg::User);
    let all = chunks_steps(cs);
    assert forall|j: int| 0 <= j < body.len() implies !writes_register(#[trigger] body[j], SpiReg::Ctrl) by {
        assert(body[j] == all[j]);
    }
    assert forall|j: int| 0 <= j < body.len() implies !writes_register(#[trigger] body[j], SpiReg::User) by {
        assert(body[j] == all[j]);
    }
    lemma_untouched_register(body, after, SpiReg::Ctrl);
    lemma_untouched_register(body, after, SpiReg::User);
}

} // verus!

verus! {

/// After `configure`, whether or not the divider could realise the baud
/// rate: the controller is a master out of soft reset with DMA off and its
/// FIFO resets released, the clock idles at the configured polarity, and the
/// output edge and bit order follow the configuration. When it could, the
/// divider also holds the clock setting and all six hardware chip selects are
/// disabled without CS_KEEP_ACTIVE. This holds whatever the registers held
/// before, when every register holds what was last written to it.
pub proof fn lemma_configure_registers(config: SpiConfig, soc: Soc, apb_hz: u32, regs: Map<SpiReg, u32>)
    ensures
        ({
            let r = registers_after(configure_steps(config, soc, apb_hz), regs);
            &&& r[SpiReg::Slave] == 0
            &&& r[SpiReg::DmaConf] == 0
            &&& (r[SpiReg::Misc] & 0x2000_0000 != 0) == (config.polarity == SpiPolarity::High)
            &&& (r[SpiReg::User] & 0x200 != 0) == ((config.polarity == SpiPolarity::High) != (config.phase == SpiPhase::Phase1))
            &&& (r[SpiReg::Ctrl] & 0x0200_0000 != 0) == (config.bit_order == SpiBitOrder::LsbFirst)
            &&& (r[SpiReg::Ctrl] & 0x0400_0000 != 0) == (config.bit_order == SpiBitOrder::LsbFirst)
            &&& clock_setting(apb_hz, config.baudrate) matches Some(w) ==> {
                &&& r[SpiReg::Misc] & 0x3F == 0x3F
                &&& r[SpiReg::Misc] & 0x4000_0000 == 0
                &&& r[SpiReg::Clock] == w
            }
        }),
{
    let p = configure_prefix(config, soc);
    match clock_setting(apb_hz, config.baudrate) {
        Some(w) => {
            lemma_configure_registers_with_clock(config, soc, w, regs);
        },
        None => {
            assert(configure_steps(config, soc, apb_hz) =~= p);
            let tail = seq![SpiStep::Write(SpiReg::Clock, 0), SpiStep::Modify(SpiReg::Misc, cs_disabled())];
            lemma_configure_registers_with_clock(config, soc, 0, regs);
            lemma_registers_after_append(p, tail, regs);
            let rp = registers_after(p, regs);
            assert forall|r: SpiReg| r != SpiReg::Clock && r != SpiReg::Misc implies
                #[trigger] registers_after(tail, rp)[r] == rp[r] by {
                assert forall|i: int| 0 <= i < tail.len() implies !writes_register(#[trigger] tail[i], r) by {}
                lemma_untouched_register(tail, rp, r);
            }
            assert(registers_after(tail, rp)[SpiReg::Slave] == rp[SpiReg::Slave]);
            assert(registers_after(tail, rp)[SpiReg::DmaConf] == rp[SpiReg::DmaConf]);
            assert(registers_after(tail, rp)[SpiReg::User] == rp[SpiReg::User]);
            assert(registers_after(tail, rp)[SpiReg::Ctrl] == rp[SpiReg::Ctrl]);
            lemma_registers_after_unrolled(tail, rp, 1);
            lemma_registers_after_unrolled(tail, rp, 2);
            assert(tail.take(2) =~= tail);
            lemma_cs_disabled_fields();
            let m = rp[SpiReg::Misc];
            let e = registers_after(tail, rp)[SpiReg::Misc];
            assert(e == (m & !0x4000_003Fu32) | 0x3Fu32);
            assert((e & 0x2000_0000 != 0) == (m & 0x2000_0000 != 0)) by (bit_vector)
                requires e == (m & !0x4000_003Fu32) | 0x3Fu32;
        },
    }
}

} // verus!

verus! {

/// The steps of chunks, the first one first.
proof fn lemma_chunks_steps_first(cs: Seq<Chunk>)
    requires
        cs.len() > 0,
    ensures
        chunks_steps(cs) == chunk_steps(cs[0]) + chunks_steps(cs.subrange(1, cs.len() as int)),
    decreases cs.len(),
{
    if cs.len() == 1 {
        assert(cs.drop_last() =~= Seq::<Chunk>::empty());
        assert(cs.subrange(1, 1) =~= Seq::<Chunk>::empty());
        assert(chunks_steps(cs) == chunks_steps(cs.drop_last()) + chunk_steps(cs.last()));
        assert(chunk_steps(cs[0]) + Seq::<SpiStep>::empty() =~= chunk_steps(cs[0]));
        assert(Seq::<SpiStep>::empty() + chunk_steps(cs[0]) =~= chunk_steps(cs[0]));
    } else {
        let d = cs.drop_last();
        lemma_chunks_steps_first(d);
        let rest = cs.subrange(1, cs.len() as int);
        assert(rest.len() > 0);
        assert(rest.drop_last() =~= d.subrange(1, d.len() as int));
        assert(rest.last() == cs.last());
        assert(d[0] == cs[0]);
        assert(chunks_steps(rest) == chunks_steps(rest.drop_last()) + chunk_steps(rest.last()));
        assert(chunks_steps(cs) == chunks_steps(d) + chunk_steps(cs.last()));
        assert(chunks_steps(cs) =~= chunk_steps(cs[0]) + chunks_steps(rest));
    }
}

/// In a run of chunks whose first sets the USER fields `f` and none of which
/// writes USER otherwise, the first step sets `f` and, from then on, USER
/// holds `f` over what it held before.
proof fn lemma_user_set_by_first_chunk(cs: Seq<Chunk>, f: crate::regfield::FieldSet, regs: Map<SpiReg, u32>, i: int)
    requires
        cs.len() > 0,
        forall|k: int| 0 <= k < cs.len() ==> (#[trigger] cs[k]).ctrl is None,
        cs[0].user == Some(f),
        forall|k: int| 1 <= k < cs.len() ==> (#[trigger] cs[k]).user is None,
        1 <= i <= chunks_steps(cs).len(),
    ensures
        chunks_steps(cs)[0] == SpiStep::Modify(SpiReg::User, f),
        registers_after(chunks_steps(cs).take(i), regs)[SpiReg::User]
            == crate::regfield::modified(regs[SpiReg::User], f),
{
    let c0 = cs[0];
    let bare = Chunk { user: None, ..c0 };
    assert(chunk_steps(c0) =~= seq![SpiStep::Modify(SpiReg::User, f)] + chunk_steps(bare));
    lemma_chunk_leaves_ctrl_user(bare, SpiReg::User);
    let rest = cs.subrange(1, cs.len() as int);
    assert forall|k: int| 0 <= k < rest.len() implies (#[trigger] rest[k]).ctrl is None && rest[k].user is None by {
        assert(rest[k] == cs[k + 1]);
    }
    lemma_chunks_leave_ctrl_user(rest, SpiReg::User);
    lemma_chunks_steps_first(cs);
    let all = chunks_steps(cs);
    let tail = chunk_steps(bare) + chunks_steps(rest);
    assert(all =~= seq![SpiStep::Modify(SpiReg::User, f)] + tail);
    let body = all.take(i);
    assert(body =~= seq![SpiStep::Modify(SpiReg::User, f)] + tail.take(i - 1));
    assert forall|j: int| 0 <= j < tail.take(i - 1).len() implies
        !writes_register(#[trigger] tail.take(i - 1)[j], SpiReg::User) by {
        let b = chunk_steps(bare);
        if j < b.len() {
            assert(tail[j] == b[j]);
        } else {
            assert(tail[j] == chunks_steps(rest)[j - b.len()]);
        }
    }
    lemma_registers_after_append(seq![SpiStep::Modify(SpiReg::User, f)], tail.take(i - 1), regs);
    lemma_registers_after_one(SpiStep::Modify(SpiReg::User, f), regs);
    lemma_untouched_register(tail.take(i - 1),
        registers_after(seq![SpiStep::Modify(SpiReg::User, f)], regs), SpiReg::User);
}

/// USER after the full-duplex fields are set over `x`: DOUTDIN, USR_MOSI and
/// USR_MISO on, no command, address or dummy phase.
proof fn lemma_full_duplex_user_bits(x: u32)
    ensures
        crate::regfield::modified(x, user_full_duplex()) & 0xF800_0001 == 0x1800_0001,
{
    assert(user_full_duplex() == (crate::regfield::FieldSet { mask: 0xF800_0001, value: 0x1800_0001 })) by {
        assert(
            ((1u32 << 0u32) | (1u32 << 27u32) | (1u32 << 28u32) | (1u32 << 31u32) | (1u32 << 30u32)
                | (1u32 << 29u32)) == 0xF800_0001u32 &&
            (((1u32 & 1u32) << 0u32) | ((1u32 & 1u32) << 27u32) | ((1u32 & 1u32) << 28u32) | ((0u32 & 1u32) << 31u32)
                | ((0u32 & 1u32) << 30u32) | ((0u32 & 1u32) << 29u32)) == 0x1800_0001u32
        ) by (bit_vector);
    }
    assert(((x & !0xF800_0001u32) | 0x1800_0001u32) & 0xF800_0001u32 == 0x1800_0001u32) by (bit_vector);
}

/// A read of `len` bytes samples MISO in full duplex: at every step that
/// takes received bytes, USER has DOUTDIN, USR_MOSI and USR_MISO set and the
/// command, address and dummy phases off, whatever the registers held
/// before the read, when every register holds what was last written to it.
pub proof fn lemma_read_receives_in_full_duplex(len: int, regs: Map<SpiReg, u32>, i: int)
    requires
        0 <= i < chunks_steps(half_read_chunks(len)).len(),
        chunks_steps(half_read_chunks(len))[i] is Receive,
    ensures
        registers_after(chunks_steps(half_read_chunks(len)).take(i), regs)[SpiReg::User] & 0xF800_0001
            == 0x1800_0001,
{
    let cs = half_read_chunks(len);
    if cs.len() == 0 {
        assert(chunks_steps(cs) =~= Seq::<SpiStep>::empty());
    }
    assert forall|k: int| 0 <= k < cs.len() implies (#[trigger] cs[k]).ctrl is None by {}
    assert forall|k: int| 1 <= k < cs.len() implies (#[trigger] cs[k]).user is None by {}
    lemma_user_set_by_first_chunk(cs, user_full_duplex(), regs, 1);
    lemma_user_set_by_first_chunk(cs, user_full_duplex(), regs, i);
    lemma_full_duplex_user_bits(regs[SpiReg::User]);
}

/// A transfer writing `wlen` bytes and reading `rlen` samples MISO in full
/// duplex: at every step that takes received bytes, USER has DOUTDIN,
/// USR_MOSI and USR_MISO set and the command, address and dummy phases off,
/// whatever an earlier operation left in the registers, when every register
/// holds what was last written to it.
pub proof fn lemma_transfer_receives_in_full_duplex(wlen: int, rlen: int, regs: Map<SpiReg, u32>, i: int)
    requires
        0 <= i < chunks_steps(full_duplex_chunks(wlen, rlen)).len(),
        chunks_steps(full_duplex_chunks(wlen, rlen))[i] is Receive,
    ensures
        registers_after(chunks_steps(full_duplex_chunks(wlen, rlen)).take(i), regs)[SpiReg::User] & 0xF800_0001
            == 0x1800_0001,
{
    let cs = full_duplex_chunks(wlen, rlen);
    if cs.len() == 0 {
        assert(chunks_steps(cs) =~= Seq::<SpiStep>::empty());
    }
    assert forall|k: int| 0 <= k < cs.len() implies (#[trigger] cs[k]).ctrl is None by {}
    assert forall|k: int| 1 <= k < cs.len() implies (#[trigger] cs[k]).user is None by {}
    lemma_user_set_by_first_chunk(cs, user_full_duplex(), regs, 1);
    lemma_user_set_by_first_chunk(cs, user_full_duplex(), regs, i);
    lemma_full_duplex_user_bits(regs[SpiReg::User]);
}

/// A write of `len` bytes runs half duplex on MOSI alone: whenever a
/// chunk's data is loaded for sending, USER has USR_MOSI set and DOUTDIN,
/// USR_MISO and the command, address and dummy phases off, whatever the
/// registers held before, when every register holds what was last written.
pub proof fn lemma_write_sends_mosi_only(len: int, regs: Map<SpiReg, u32>, i: int)
    requires
        0 <= i < chunks_steps(half_write_chunks(len)).len(),
        chunks_steps(half_write_chunks(len))[i] is LoadTx,
    ensures
        registers_after(chunks_steps(half_write_chunks(len)).take(i), regs)[SpiReg::User] & 0xF800_0001
            == 0x0800_0000,
{
    let cs = half_write_chunks(len);
    if cs.len() == 0 {
        assert(chunks_steps(cs) =~= Seq::<SpiStep>::empty());
    }
    assert forall|k: int| 0 <= k < cs.len() implies (#[trigger] cs[k]).ctrl is None by {}
    assert forall|k: int| 1 <= k < cs.len() implies (#[trigger] cs[k]).user is None by {}
    lemma_user_set_by_first_chunk(cs, user_half_write(), regs, 1);
    lemma_user_set_by_first_chunk(cs, user_half_write(), regs, i);
    let x = regs[SpiReg::User];
    assert(user_half_write() == (crate::regfield::FieldSet { mask: 0xF800_0001, value: 0x0800_0000 })) by {
        assert(
            ((1u32 << 0u32) | (1u32 << 27u32) | (1u32 << 28u32) | (1u32 << 31u32) | (1u32 << 30u32)
                | (1u32 << 29u32)) == 0xF800_0001u32 &&
            (((0u32 & 1u32) << 0u32) | ((1u32 & 1u32) << 27u32) | ((0u32 & 1u32) << 28u32) | ((0u32 & 1u32) << 31u32)
                | ((0u32 & 1u32) << 30u32) | ((0u32 & 1u32) << 29u32)) == 0x0800_0000u32
        ) by (bit_vector);
    }
    assert(((x & !0xF800_0001u32) | 0x0800_0000u32) & 0xF800_0001u32 == 0x0800_0000u32) by (bit_vector);
}

/// A register value after an optional read-modify-write.
pub open spec fn after_optional(v: u32, f: Option<crate::regfield::FieldSet>) -> u32 {
    match f {
        Some(g) => crate::regfield::modified(v, g),
        None => v,
    }
}

proof fn lemma_optional_modify_registers(reg: SpiReg, f: Option<crate::regfield::FieldSet>, prev: Map<SpiReg, u32>)
    ensures
        registers_after(crate::spi::transaction::optional_modify(reg, f), prev)[reg] == after_optional(prev[reg], f),
        forall|r: SpiReg| r != reg ==> #[trigger] registers_after(crate::spi::transaction::optional_modify(reg, f), prev)[r] == prev[r],
{
    match f {
        Some(g) => {
            lemma_registers_after_one(SpiStep::Modify(reg, g), prev);
        },
        None => {
            assert(crate::spi::transaction::optional_modify(reg, f) =~= Seq::<SpiStep>::empty());
        },
    }
}

/// Within one chunk: its data is loaded once, after its CTRL and USER fields
/// are set and before anything else writes either register; after the
/// chunk, CTRL holds its CTRL fields over what it held before.
proof fn lemma_chunk_load_registers(c: Chunk, prev: Map<SpiReg, u32>, j: int)
    requires
        0 <= j < chunk_steps(c).len(),
        chunk_steps(c)[j] is LoadTx,
    ensures
        chunk_steps(c)[j] == (SpiStep::LoadTx { start: c.tx_start, len: c.tx_len }),
        registers_after(chunk_steps(c).take(j), prev)[SpiReg::User] == after_optional(prev[SpiReg::User], c.user),
        registers_after(chunk_steps(c).take(j), prev)[SpiReg::Ctrl] == after_optional(prev[SpiReg::Ctrl], c.ctrl),
{
    let a = crate::spi::transaction::optional_modify(SpiReg::Ctrl, c.ctrl);
    let b = crate::spi::transaction::optional_modify(SpiReg::User, c.user);
    let tail = if c.rx_len > 0 { seq![SpiStep::Receive(c.rx_len)] } else { Seq::<SpiStep>::empty() };
    let pre = crate::spi::transaction::reset_steps(c.reset)
        + seq![SpiStep::Write(SpiReg::MsDlen, crate::spi::transaction::bitlen_word(c.tx_len as int))];
    let rest = pre + seq![SpiStep::LoadTx { start: c.tx_start, len: c.tx_len }]
        + crate::spi::transaction::start_transfer_steps() + crate::spi::transaction::wait_done_steps() + tail;
    let s = chunk_steps(c);
    assert(s =~= a + b + rest);
    let ab = a + b;
    assert(ab.len() <= 2);
    assert forall|x: int| 0 <= x < ab.len() implies !(#[trigger] ab[x] is LoadTx) by {
        if x < a.len() { assert(ab[x] == a[x]); } else { assert(ab[x] == b[x - a.len()]); }
    }
    assert forall|x: int| 0 <= x < rest.len() && x != 3 implies !(#[trigger] rest[x] is LoadTx) by {
        if x < 2 {
        } else if x < 4 {
        } else if x < 9 {
        } else if x < 11 {
        } else {
        }
    }
    if j < ab.len() {
        assert(s[j] == ab[j]);
        assert(false);
    }
    assert(s[j] == rest[j - ab.len()]);
    assert(j == ab.len() + 3);
    assert(s.take(j) =~= a + b + pre);
    lemma_registers_after_append(a + b, pre, prev);
    lemma_registers_after_append(a, b, prev);
    lemma_optional_modify_registers(SpiReg::Ctrl, c.ctrl, prev);
    let ra = registers_after(a, prev);
    lemma_optional_modify_registers(SpiReg::User, c.user, ra);
    let rb = registers_after(b, ra);
    assert forall|x: int| 0 <= x < pre.len() implies !writes_register(#[trigger] pre[x], SpiReg::User)
        && !writes_register(pre[x], SpiReg::Ctrl) by {}
    lemma_untouched_register(pre, rb, SpiReg::User);
    lemma_untouched_register(pre, rb, SpiReg::Ctrl);
}

/// After a whole chunk, CTRL holds the chunk's CTRL fields over what it held before.
proof fn lemma_chunk_ctrl_after(c: Chunk, prev: Map<SpiReg, u32>)
    ensures
        registers_after(chunk_steps(c), prev)[SpiReg::Ctrl] == after_optional(prev[SpiReg::Ctrl], c.ctrl),
{
    let a = crate::spi::transaction::optional_modify(SpiReg::Ctrl, c.ctrl);
    let bare = Chunk { ctrl: None, user: None, ..c };
    let b = crate::spi::transaction::optional_modify(SpiReg::User, c.user);
    assert(chunk_steps(c) =~= a + (b + chunk_steps(bare)));
    lemma_chunk_leaves_ctrl_user(bare, SpiReg::Ctrl);
    let bb = b + chunk_steps(bare);
    assert forall|x: int| 0 <= x < bb.len() implies !writes_register(#[trigger] bb[x], SpiReg::Ctrl) by {
        if x < b.len() { assert(bb[x] == b[x]); } else { assert(bb[x] == chunk_steps(bare)[x - b.len()]); }
    }
    lemma_registers_after_append(a, bb, prev);
    lemma_optional_modify_registers(SpiReg::Ctrl, c.ctrl, prev);
    lemma_untouched_register(bb, registers_after(a, prev), SpiReg::Ctrl);
}

proof fn lemma_qspi_write_fields(quad: bool, u: u32, c: u32)
    ensures
        (crate::regfield::modified(u, user_qspi_write(false)) & 0x2000) == 0,
        (crate::regfield::modified(u, user_qspi_write(quad)) & 0x2000 != 0) == quad,
        (crate::regfield::modified(c, ctrl_quad(quad)) & 0x8000 != 0) == quad,
{
    let q: u32 = if quad { 1 } else { 0 };
    let hw = user_half_write();
    assert(user_qspi_write(quad).mask == hw.mask | (1u32 << 13u32));
    assert(user_qspi_write(quad).value == hw.value | ((q & 1u32) << 13u32));
    assert(user_qspi_write(false).value == hw.value | ((0u32 & 1u32) << 13u32));
    assert(hw.value == 0x0800_0000u32) by {
        assert(((0u32 & 1u32) << 0u32) | ((1u32 & 1u32) << 27u32) | ((0u32 & 1u32) << 28u32) | ((0u32 & 1u32) << 31u32)
            | ((0u32 & 1u32) << 30u32) | ((0u32 & 1u32) << 29u32) == 0x0800_0000u32) by (bit_vector);
    }
    let hm = hw.mask;
    assert(((u & !(hm | (1u32 << 13u32))) | (0x0800_0000u32 | ((0u32 & 1u32) << 13u32))) & 0x2000u32 == 0u32) by (bit_vector);
    assert((((u & !(hm | (1u32 << 13u32))) | (0x0800_0000u32 | ((q & 1u32) << 13u32))) & 0x2000u32 != 0u32) == (q == 1u32))
        by (bit_vector) requires q <= 1u32;
    assert((((c & !(1u32 << 15u32)) | ((q & 1u32) << 15u32)) & 0x8000u32 != 0u32) == (q == 1u32))
        by (bit_vector) requires q <= 1u32;
}

/// The header and the first `m` data chunks of a QSPI write.
proof fn lemma_qspi_write_prefix(len: int, quad: bool, regs: Map<SpiReg, u32>, m: int)
    requires
        0 <= len,
        len + 4 <= usize::MAX,
        0 <= m <= crate::spi::esp32_spi::chunk_count(len),
    ensures
        ({
            let steps = chunks_steps(qspi_write_chunks(len, quad).take(m + 1));
            &&& forall|i: int| 0 <= i < steps.len() ==> match #[trigger] steps[i] {
                SpiStep::LoadTx { start, .. } => {
                    let r = registers_after(steps.take(i), regs);
                    &&& start < 4 ==> r[SpiReg::User] & 0x2000 == 0
                    &&& start >= 4 ==> (r[SpiReg::User] & 0x2000 != 0) == quad
                        && (r[SpiReg::Ctrl] & 0x8000 != 0) == quad
                },
                _ => true,
            }
            &&& m >= 1 ==> (registers_after(steps, regs)[SpiReg::Ctrl] & 0x8000 != 0) == quad
        }),
    decreases m,
{
    let cs = qspi_write_chunks(len, quad);
    let cm = cs.take(m + 1);
    let steps = chunks_steps(cm);
    let last = cm[m];
    let prefix = cm.drop_last();
    assert(chunks_steps(cm) == chunks_steps(prefix) + chunk_steps(last));
    let sp = chunks_steps(prefix);
    let sc = chunk_steps(last);
    let rp = registers_after(sp, regs);
    if m == 0 {
        assert(prefix =~= Seq::<Chunk>::empty());
        assert(last == qspi_header_chunk());
    } else {
        lemma_qspi_write_prefix(len, quad, regs, m - 1);
        assert(prefix =~= cs.take(m));
        assert(last == qspi_data_chunk(len, quad, m - 1));
    }
    assert forall|i: int| 0 <= i < steps.len() implies match #[trigger] steps[i] {
        SpiStep::LoadTx { start, .. } => {
            let r = registers_after(steps.take(i), regs);
            &&& start < 4 ==> r[SpiReg::User] & 0x2000 == 0
            &&& start >= 4 ==> (r[SpiReg::User] & 0x2000 != 0) == quad
                && (r[SpiReg::Ctrl] & 0x8000 != 0) == quad
        },
        _ => true,
    } by {
        if i < sp.len() {
            assert(steps[i] == sp[i]);
            assert(steps.take(i) =~= sp.take(i));
            assert(m >= 1);
            assert(sp == chunks_steps(qspi_write_chunks(len, quad).take((m - 1) + 1)));
        } else if steps[i] is LoadTx {
            let j = i - sp.len();
            assert(steps[i] == sc[j]);
            assert(steps.take(i) =~= sp + sc.take(j));
            lemma_registers_after_append(sp, sc.take(j), regs);
            lemma_chunk_load_registers(last, rp, j);
            lemma_qspi_write_fields(quad, rp[SpiReg::User], rp[SpiReg::Ctrl]);
            let r = registers_after(steps.take(i), regs);
            assert(r[SpiReg::User] == after_optional(rp[SpiReg::User], last.user));
            if m == 0 {
                assert(last.tx_start == 0);
                assert(r[SpiReg::User] & 0x2000 == 0);
            } else {
                crate::spi::esp32_spi::lemma_chunk_count(len, m - 1);
                assert(last.tx_start >= 4);
                assert((r[SpiReg::User] & 0x2000 != 0) == quad);
                if m == 1 {
                    assert((r[SpiReg::Ctrl] & 0x8000 != 0) == quad);
                } else {
                    assert((rp[SpiReg::Ctrl] & 0x8000 != 0) == quad);
                    assert((r[SpiReg::Ctrl] & 0x8000 != 0) == quad);
                }
            }
        }
    }
    if m >= 1 {
        lemma_registers_after_append(sp, sc, regs);
        lemma_chunk_ctrl_after(last, rp);
        lemma_qspi_write_fields(quad, rp[SpiReg::User], rp[SpiReg::Ctrl]);
    }
}

/// A QSPI write sends its 4-byte header on one wire and its payload on four
/// wires exactly when `quad` (pixel writes) and on one otherwise (command
/// parameters): whenever the header is loaded for sending USER.FWRITE_QUAD is
/// clear, and whenever payload bytes are loaded USER.FWRITE_QUAD and
/// CTRL.FREAD_QUAD (the quad lines' master enable) are both set exactly when
/// `quad`; whatever the registers held before, when every register holds
/// what was last written to it.
pub proof fn lemma_qspi_write_line_modes(len: int, quad: bool, regs: Map<SpiReg, u32>, i: int)
    requires
        0 <= len,
        len + 4 <= usize::MAX,
        0 <= i < chunks_steps(qspi_write_chunks(len, quad)).len(),
    ensures
        match chunks_steps(qspi_write_chunks(len, quad))[i] {
            SpiStep::LoadTx { start, .. } => {
                let r = registers_after(chunks_steps(qspi_write_chunks(len, quad)).take(i), regs);
                &&& start < 4 ==> r[SpiReg::User] & 0x2000 == 0
                &&& start >= 4 ==> (r[SpiReg::User] & 0x2000 != 0) == quad
                    && (r[SpiReg::Ctrl] & 0x8000 != 0) == quad
            },
            _ => true,
        },
{
    let cs = qspi_write_chunks(len, quad);
    let n = crate::spi::esp32_spi::chunk_count(len);
    assert(cs.take(n + 1) =~= cs);
    lemma_qspi_write_prefix(len, quad, regs, n);
}

/// A pixel write streams its payload on four wires: whenever pixel bytes
/// are loaded for sending, USER.FWRITE_QUAD and CTRL.FREAD_QUAD are set,
/// while its header goes out with USER.FWRITE_QUAD clear; whatever the
/// registers held before, when every register holds what was last written.
pub proof fn lemma_pixel_write_four_wire(len: int, regs: Map<SpiReg, u32>, i: int)
    requires
        0 <= len,
        len + 4 <= usize::MAX,
        0 <= i < chunks_steps(pixel_write_chunks(len)).len(),
    ensures
        match chunks_steps(pixel_write_chunks(len))[i] {
            SpiStep::LoadTx { start, .. } => {
                let r = registers_after(chunks_steps(pixel_write_chunks(len)).take(i), regs);
                &&& start < 4 ==> r[SpiReg::User] & 0x2000 == 0
                &&& start >= 4 ==> r[SpiReg::User] & 0x2000 != 0 && r[SpiReg::Ctrl] & 0x8000 != 0
            },
            _ => true,
        },
{
    lemma_qspi_write_line_modes(len, true, regs, i);
}

/// A command write sends its header and parameters on one wire: whenever
/// bytes are loaded for sending, USER.FWRITE_QUAD is clear, and CTRL.FREAD_QUAD
/// is clear while the parameters go out, whatever an earlier pixel write left
/// there; when every register holds what was last written.
pub proof fn lemma_command_write_one_wire(len: int, regs: Map<SpiReg, u32>, i: int)
    requires
        0 <= len,
        len + 4 <= usize::MAX,
        0 <= i < chunks_steps(command_write_chunks(len)).len(),
    ensures
        match chunks_steps(command_write_chunks(len))[i] {
            SpiStep::LoadTx { start, .. } => {
                let r = registers_after(chunks_steps(command_write_chunks(len)).take(i), regs);
                &&& r[SpiReg::User] & 0x2000 == 0
                &&& start >= 4 ==> r[SpiReg::Ctrl] & 0x8000 == 0
            },
            _ => true,
        },
{
    lemma_qspi_write_line_modes(len, false, regs, i);
}

} // verus!
