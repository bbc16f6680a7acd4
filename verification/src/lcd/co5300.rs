//! ChipOne CO5300 AMOLED panel (480x480, QSPI 4-wire, no D/CX pin): its
//! initialisation sequence and the command streams that draw an area.
//!
//! DCS commands travel in the QSPI address phase; chip select is held low
//! across each group of commands (and, when drawing, across the window
//! commands and the whole pixel stream).
use vstd::prelude::*;
use core::marker::PhantomData;
use crate::lcd::{CmdParams, DrawArea, LcdError, PanelSequence, PanelStep, panel_steps_fit, LCD_BYTES_PER_PIXEL};

verus! {

// MIPI DCS standard commands.
pub const SWRESET: u8 = 0x01;
pub const SLPOUT: u8 = 0x11;
pub const DISPON: u8 = 0x29;
pub const CASET: u8 = 0x2A;
pub const RASET: u8 = 0x2B;
pub const RAMWR: u8 = 0x2C;
/// Tearing effect line on.
pub const TEON: u8 = 0x35;
pub const MADCTL: u8 = 0x36;
pub const COLMOD: u8 = 0x3A;
/// Write CTRL Display.
pub const WRCTRLD: u8 = 0x53;
/// Display brightness, normal mode.
pub const WRDISBV: u8 = 0x51;
/// Display brightness, HBM mode.
pub const HBM_DISBV: u8 = 0x63;

// CO5300 vendor commands: 0xFE switches the register page.
pub const PAGE_SWITCH: u8 = 0xFE;
/// Analog channel configuration (vendor page).
pub const VENDOR_REG_19: u8 = 0x19;
/// Analog channel configuration (vendor page).
pub const VENDOR_REG_1C: u8 = 0x1C;
pub const SPI_MODE_REG: u8 = 0xC4;

/// The panel orientation that lights up.
pub const MADCTL_VALUE: u8 = 0x30;
/// RGB565.
pub const COLMOD_RGB565: u8 = 0x55;
/// Display on, brightness control off.
pub const WRCTRLD_VALUE: u8 = 0x20;
/// QSPI 4-wire data path for pixel streaming.
pub const SPI_MODE_VALUE: u8 = 0x80;
/// DCS standard command page.
pub const PAGE_DCS_STANDARD: u8 = 0x00;
/// Vendor command page.
pub const PAGE_VENDOR: u8 = 0x20;
pub const BRIGHTNESS_MAX: u8 = 0xFF;

/// Address window of the full panel.
pub const COL_START: u32 = 0;
pub const COL_END: u32 = 479;
pub const ROW_START: u32 = 0;
pub const ROW_END: u32 = 479;

pub const PANEL_WIDTH: u32 = 480;
pub const PANEL_HEIGHT: u32 = 480;

/// Settling time after SWRESET.
pub const SWRESET_DELAY_MS: u32 = 80;
/// Booster settling time after SLPOUT.
pub const SLPOUT_DELAY_MS: u32 = 600;
/// Display settling time after DISPON.
pub const DISPON_DELAY_MS: u32 = 100;

/// No parameters.
pub open spec fn no_params() -> CmdParams {
    CmdParams { len: 0, b0: 0, b1: 0, b2: 0, b3: 0 }
}

/// One parameter byte.
pub open spec fn one_param(b: u8) -> CmdParams {
    CmdParams { len: 1, b0: b, b1: 0, b2: 0, b3: 0 }
}

/// CASET/RASET parameters: start and end, each as a big-endian 16-bit value.
pub open spec fn window_params(start: u32, end: u32) -> CmdParams {
    CmdParams {
        len: 4,
        b0: ((start >> 8u32) & 0xffu32) as u8,
        b1: (start & 0xffu32) as u8,
        b2: ((end >> 8u32) & 0xffu32) as u8,
        b3: (end & 0xffu32) as u8,
    }
}

/// A command that, when rejected, resumes at `on_fail`.
pub open spec fn command(cmd: u8, params: CmdParams, on_fail: usize) -> PanelStep {
    PanelStep::Command { cmd, params, on_fail }
}

/// The panel configuration commands: the vendor-page analog setup bracketed
/// by page switches, QSPI 4-wire mode, RGB565, tearing effect on,
/// orientation, display control, full brightness in both modes, and the
/// full 480x480 address window.
pub open spec fn vendor_init_steps(on_fail: usize) -> Seq<PanelStep> {
    seq![
        command(PAGE_SWITCH, one_param(PAGE_VENDOR), on_fail),
        command(VENDOR_REG_19, one_param(0x10), on_fail),
        command(VENDOR_REG_1C, one_param(0xA0), on_fail),
        command(PAGE_SWITCH, one_param(PAGE_DCS_STANDARD), on_fail),
        command(SPI_MODE_REG, one_param(SPI_MODE_VALUE), on_fail),
        command(COLMOD, one_param(COLMOD_RGB565), on_fail),
        command(TEON, one_param(0x00), on_fail),
        command(MADCTL, one_param(MADCTL_VALUE), on_fail),
        command(WRCTRLD, one_param(WRCTRLD_VALUE), on_fail),
        command(WRDISBV, one_param(BRIGHTNESS_MAX), on_fail),
        command(HBM_DISBV, one_param(BRIGHTNESS_MAX), on_fail),
        command(CASET, window_params(COL_START, COL_END), on_fail),
        command(RASET, window_params(ROW_START, ROW_END), on_fail),
    ]
}

/// The panel bring-up: SWRESET (+80 ms), SLPOUT (+600 ms), the configuration
/// commands, DISPON (+100 ms); each group under its own chip-select window.
pub open spec fn init_steps() -> Seq<PanelStep> {
    seq![
        PanelStep::CsLow, command(SWRESET, no_params(), 2), PanelStep::CsHigh, PanelStep::DelayMs(SWRESET_DELAY_MS),
        PanelStep::CsLow, command(SLPOUT, no_params(), 6), PanelStep::CsHigh, PanelStep::DelayMs(SLPOUT_DELAY_MS),
        PanelStep::CsLow,
    ] + vendor_init_steps(22) + seq![
        PanelStep::CsHigh,
        PanelStep::CsLow, command(DISPON, no_params(), 25), PanelStep::CsHigh, PanelStep::DelayMs(DISPON_DELAY_MS),
    ]
}

/// The bring-up sets the panel's pixel format to the one pixels are streamed
/// in: RGB565, two bytes per pixel. Its COLMOD (0x3A) command carries the
/// single parameter 0x55, and it is the only COLMOD command of the sequence.
pub proof fn lemma_init_sets_rgb565()
    ensures
        LCD_BYTES_PER_PIXEL == 2,
        init_steps()[14] matches PanelStep::Command { cmd, params, .. } && cmd == 0x3Au8
            && params.bytes() == seq![0x55u8],
        forall|i: int| 0 <= i < init_steps().len() && i != 14 ==>
            !(#[trigger] init_steps()[i] matches PanelStep::Command { cmd, .. } && cmd == 0x3Au8),
{
    let s = init_steps();
    let v = vendor_init_steps(22);
    assert(s.len() == 27);
    assert forall|i: int| 9 <= i < 22 implies #[trigger] s[i] == v[i - 9] by {}
    assert(one_param(0x55).bytes() =~= seq![0x55u8]);
    assert forall|i: int| 0 <= i < s.len() && i != 14 implies
        !(#[trigger] s[i] matches PanelStep::Command { cmd, .. } && cmd == 0x3Au8) by {
        if 9 <= i < 22 {
            assert(s[i] == v[i - 9]);
        }
    }
}

/// Columns (rows) the area spans.
pub open spec fn span(start: u32, end: u32) -> int {
    end - start + 1
}

/// The last column (row) drawn: the area's end, clipped to the panel.
pub open spec fn clipped_end(end: u32, limit: u32) -> u32 {
    if end < limit - 1 { end } else { (limit - 1) as u32 }
}

/// The area's pixels, and the bytes of colour data that hold them.
pub open spec fn area_pixels(a: DrawArea) -> int {
    span(a.col_start, a.col_end) * span(a.row_start, a.row_end)
}

/// The command stream that draws `a` on a `width` x `height` panel from a
/// colour buffer of `color_len` bytes: the clipped window (CASET, RASET),
/// RAMWR, then the whole buffer when nothing is clipped, else the visible
/// part of each row; all under one chip-select window.
pub open spec fn draw_steps(a: DrawArea, width: u32, height: u32, color_len: usize) -> Seq<PanelStep> {
    let col_end = clipped_end(a.col_end, width);
    let row_end = clipped_end(a.row_end, height);
    let aw = span(a.col_start, a.col_end);
    let dw = span(a.col_start, col_end);
    let dh = span(a.row_start, row_end);
    let full = dw * dh == area_pixels(a);
    let rows = if full { 1int } else { dh };
    let release = (4 + rows) as usize;
    seq![
        PanelStep::CsLow,
        command(CASET, window_params(a.col_start, col_end), release),
        command(RASET, window_params(a.row_start, row_end), release),
        command(RAMWR, no_params(), release),
    ] + (if full {
        seq![PanelStep::Pixels { start: 0, len: color_len, on_fail: release }]
    } else {
        Seq::new(dh as nat, |r: int| PanelStep::Pixels {
            start: (r * aw * LCD_BYTES_PER_PIXEL) as usize,
            len: (dw * LCD_BYTES_PER_PIXEL) as usize,
            on_fail: release,
        })
    }) + seq![PanelStep::CsHigh]
}

/// The panel driver state: the panel's size.
pub struct Co5300Driver {
    pub width: u32,
    pub height: u32,
}

impl Co5300Driver {
    /// The 480x480 panel.
    pub fn new() -> (d: Self)
        ensures
            d.width == PANEL_WIDTH,
            d.height == PANEL_HEIGHT,
    {
        Co5300Driver { width: PANEL_WIDTH, height: PANEL_HEIGHT }
    }

    /// The window commands for columns `col_start..=col_end` and rows
    /// `row_start..=row_end`, followed by RAMWR which opens the pixel stream.
    pub fn set_window(&self, col_start: u32, col_end: u32, row_start: u32, row_end: u32, on_fail: usize)
        -> (s: Vec<PanelStep>)
        ensures
            s@ == seq![
                command(CASET, window_params(col_start, col_end), on_fail),
                command(RASET, window_params(row_start, row_end), on_fail),
                command(RAMWR, no_params(), on_fail),
            ],
    {
        let mut s: Vec<PanelStep> = Vec::new();
        s.push(PanelStep::Command { cmd: CASET, params: window(col_start, col_end), on_fail });
        s.push(PanelStep::Command { cmd: RASET, params: window(row_start, row_end), on_fail });
        s.push(PanelStep::Command { cmd: RAMWR, params: CmdParams { len: 0, b0: 0, b1: 0, b2: 0, b3: 0 }, on_fail });
        assert(s@ =~= seq![
            command(CASET, window_params(col_start, col_end), on_fail),
            command(RASET, window_params(row_start, row_end), on_fail),
            command(RAMWR, no_params(), on_fail),
        ]);
        s
    }

    /// The panel configuration commands (see [`vendor_init_steps`]).
    pub fn vendor_init(&self, on_fail: usize) -> (s: Vec<PanelStep>)
        ensures
            s@ == vendor_init_steps(on_fail),
    {
        let mut s: Vec<PanelStep> = Vec::new();
        s.push(PanelStep::Command { cmd: PAGE_SWITCH, params: one(PAGE_VENDOR), on_fail });
        s.push(PanelStep::Command { cmd: VENDOR_REG_19, params: one(0x10), on_fail });
        s.push(PanelStep::Command { cmd: VENDOR_REG_1C, params: one(0xA0), on_fail });
        s.push(PanelStep::Command { cmd: PAGE_SWITCH, params: one(PAGE_DCS_STANDARD), on_fail });
        s.push(PanelStep::Command { cmd: SPI_MODE_REG, params: one(SPI_MODE_VALUE), on_fail });
        s.push(PanelStep::Command { cmd: COLMOD, params: one(COLMOD_RGB565), on_fail });
        s.push(PanelStep::Command { cmd: TEON, params: one(0x00), on_fail });
        s.push(PanelStep::Command { cmd: MADCTL, params: one(MADCTL_VALUE), on_fail });
        s.push(PanelStep::Command { cmd: WRCTRLD, params: one(WRCTRLD_VALUE), on_fail });
        s.push(PanelStep::Command { cmd: WRDISBV, params: one(BRIGHTNESS_MAX), on_fail });
        s.push(PanelStep::Command { cmd: HBM_DISBV, params: one(BRIGHTNESS_MAX), on_fail });
        s.push(PanelStep::Command { cmd: CASET, params: window(COL_START, COL_END), on_fail });
        s.push(PanelStep::Command { cmd: RASET, params: window(ROW_START, ROW_END), on_fail });
        assert(s@ =~= vendor_init_steps(on_fail));
        s
    }

    /// The panel bring-up sequence (see [`init_steps`]).
    pub fn init(&self) -> (seq: PanelSequence)
        ensures
            seq.steps() == init_steps(),
            seq.pixel_len() == 0,
            seq.fresh(),
            seq.wf(),
    {
        let none = CmdParams { len: 0, b0: 0, b1: 0, b2: 0, b3: 0 };
        let mut s: Vec<PanelStep> = Vec::new();
        s.push(PanelStep::CsLow);
        s.push(PanelStep::Command { cmd: SWRESET, params: none, on_fail: 2 });
        s.push(PanelStep::CsHigh);
        s.push(PanelStep::DelayMs(SWRESET_DELAY_MS));
        s.push(PanelStep::CsLow);
        s.push(PanelStep::Command { cmd: SLPOUT, params: none, on_fail: 6 });
        s.push(PanelStep::CsHigh);
        s.push(PanelStep::DelayMs(SLPOUT_DELAY_MS));
        s.push(PanelStep::CsLow);
        let mut v = self.vendor_init(22);
        s.append(&mut v);
        s.push(PanelStep::CsHigh);
        s.push(PanelStep::CsLow);
        s.push(PanelStep::Command { cmd: DISPON, params: none, on_fail: 25 });
        s.push(PanelStep::CsHigh);
        s.push(PanelStep::DelayMs(DISPON_DELAY_MS));
        assert(s@ =~= init_steps());
        assert(panel_steps_fit(s@, 0)) by {
            assert forall|i: int| 0 <= i < s@.len() implies match #[trigger] s@[i] {
                PanelStep::Command { params, on_fail, .. } => params.len <= 4 && i < on_fail <= s@.len(),
                PanelStep::Pixels { start, len, on_fail } => start + len <= 0 && i < on_fail <= s@.len(),
                _ => true,
            } by {
                assert(s@[i] == init_steps()[i]);
                if 9 <= i < 22 {
                    assert(init_steps()[i] == vendor_init_steps(22)[i - 9]);
                }
            }
        }
        PanelSequence::new(s, 0)
    }

    /// The command stream that draws `area` from `color_len` bytes of RGB565
    /// colour data. `InvalidArea` when the area ends before it starts;
    /// nothing to do when it starts outside the panel; `InvalidColorData`
    /// when its pixel or byte count overflows or the colour data does not
    /// hold exactly its pixels; else [`draw_steps`], with the part outside
    /// the panel clipped.
    pub fn draw_area(&self, area: DrawArea, color_len: usize) -> (r: Result<PanelSequence, LcdError>)
        requires
            area.col_start <= area.col_end ==> area.col_end - area.col_start < u32::MAX,
            area.col_start <= area.col_end && area.row_start <= area.row_end
                ==> area.row_end - area.row_start < u32::MAX,
        ensures
            area.col_end < area.col_start || area.row_end < area.row_start
                ==> r == Err::<PanelSequence, LcdError>(LcdError::InvalidArea),
            !(area.col_end < area.col_start || area.row_end < area.row_start) ==> {
                if area.col_start >= self.width || area.row_start >= self.height {
                    r matches Ok(s) && s.steps() == Seq::<PanelStep>::empty() && s.fresh() && s.wf()
                } else if area_pixels(area) > u32::MAX
                    || area_pixels(area) * LCD_BYTES_PER_PIXEL > usize::MAX
                    || color_len != area_pixels(area) * LCD_BYTES_PER_PIXEL {
                    r == Err::<PanelSequence, LcdError>(LcdError::InvalidColorData)
                } else {
                    r matches Ok(s) && s.steps() == draw_steps(area, self.width, self.height, color_len)
                        && s.pixel_len() == color_len && s.fresh() && s.wf()
                }
            },
    {
        if area.col_end < area.col_start || area.row_end < area.row_start {
            return Err(LcdError::InvalidArea);
        }
        let area_width = area.col_end - area.col_start + 1;
        let area_height = area.row_end - area.row_start + 1;
        if area.col_start >= self.width || area.row_start >= self.height {
            return Ok(PanelSequence::new(Vec::new(), 0));
        }
        let col_start = area.col_start;
        let row_start = area.row_start;
        let col_end = if area.col_end < self.width - 1 { area.col_end } else { self.width - 1 };
        let row_end = if area.row_end < self.height - 1 { area.row_end } else { self.height - 1 };
        let draw_width = col_end - col_start + 1;
        let draw_height = row_end - row_start + 1;
        proof {
            assert(draw_width <= area_width && draw_height <= area_height);
            vstd::arithmetic::mul::lemma_mul_inequality(draw_width as int, area_width as int, draw_height as int);
            vstd::arithmetic::mul::lemma_mul_inequality(draw_height as int, area_height as int, area_width as int);
            vstd::arithmetic::mul::lemma_mul_is_commutative(draw_height as int, area_width as int);
            assert(area_pixels(area) == area_width * area_height);
        }
        let draw_pixels = match draw_width.checked_mul(draw_height) {
            Some(p) => p,
            None => { return Err(LcdError::InvalidColorData); },
        };
        let area_pix = match area_width.checked_mul(area_height) {
            Some(p) => p,
            None => { return Err(LcdError::InvalidColorData); },
        };
        let expected_len = match (area_pix as usize).checked_mul(LCD_BYTES_PER_PIXEL as usize) {
            Some(n) => n,
            None => { return Err(LcdError::InvalidColorData); },
        };
        if color_len != expected_len {
            return Err(LcdError::InvalidColorData);
        }
        proof {
            assert(draw_height * 2 <= area_width * area_height * 2) by (nonlinear_arith)
                requires draw_height <= area_height, 1 <= area_width;
            assert(draw_width * 2 <= area_width * area_height * 2) by (nonlinear_arith)
                requires draw_width <= area_width, 1 <= area_height;
        }
        let rows: usize = if draw_pixels == area_pix { 1 } else { draw_height as usize };
        let release: usize = 4 + rows;
        let mut s: Vec<PanelStep> = Vec::new();
        s.push(PanelStep::CsLow);
        let mut w = self.set_window(col_start, col_end, row_start, row_end, release);
        s.append(&mut w);
        let ghost head = s@;
        let mut px: Vec<PanelStep> = if draw_pixels == area_pix {
            let mut v: Vec<PanelStep> = Vec::new();
            v.push(PanelStep::Pixels { start: 0, len: color_len, on_fail: release });
            v
        } else {
            // The area is clipped at its end only, so its first visible pixel
            // is the first pixel of the colour data.
            visible_rows(area_width, area_height, draw_width, draw_height, color_len, release)
        };
        let ghost pixel_steps = px@;
        s.append(&mut px);
        s.push(PanelStep::CsHigh);
        assert(s@ =~= head + pixel_steps + seq![PanelStep::CsHigh]);
        assert(s@ =~= draw_steps(area, self.width, self.height, color_len));
        proof { lemma_draw_steps_fit(s@, head, pixel_steps, release, color_len); }
        Ok(PanelSequence::new(s, color_len))
    }
}

/// A draw stream of the window commands, pixel writes within the colour
/// buffer, and chip-select release at the failure target, fits.
proof fn lemma_draw_steps_fit(s: Seq<PanelStep>, head: Seq<PanelStep>, px: Seq<PanelStep>, release: usize, color_len: usize)
    requires
        s == head + px + seq![PanelStep::CsHigh],
        head.len() == 4,
        release == 4 + px.len(),
        forall|i: int| 0 <= i < head.len() ==> match #[trigger] head[i] {
            PanelStep::Command { params, on_fail, .. } => params.len <= 4 && on_fail == release,
            PanelStep::Pixels { .. } => false,
            _ => true,
        },
        forall|i: int| 0 <= i < px.len() ==> match #[trigger] px[i] {
            PanelStep::Pixels { start, len, on_fail } => start + len <= color_len && on_fail == release,
            _ => false,
        },
    ensures
        panel_steps_fit(s, color_len as int),
{
    assert forall|i: int| 0 <= i < s.len() implies match #[trigger] s[i] {
        PanelStep::Command { params, on_fail, .. } => params.len <= 4 && i < on_fail <= s.len(),
        PanelStep::Pixels { start, len, on_fail } => start + len <= color_len && i < on_fail <= s.len(),
        _ => true,
    } by {
        if i < 4 {
            assert(s[i] == head[i]);
        } else if i < 4 + px.len() {
            assert(s[i] == px[i - 4]);
        }
    }
}

/// The pixel writes of the visible part of each of the `draw_height` rows of
/// an area `area_width` pixels wide, from a colour buffer of `color_len` bytes.
fn visible_rows(area_width: u32, area_height: u32, draw_width: u32, draw_height: u32,
    color_len: usize, release: usize) -> (px: Vec<PanelStep>)
    requires
        1 <= draw_width <= area_width,
        draw_height <= area_height,
        area_width * area_height * LCD_BYTES_PER_PIXEL == color_len,
    ensures
        px@ == Seq::new(draw_height as nat, |r: int| PanelStep::Pixels {
            start: (r * area_width * LCD_BYTES_PER_PIXEL) as usize,
            len: (draw_width * LCD_BYTES_PER_PIXEL) as usize,
            on_fail: release,
        }),
        forall|i: int| 0 <= i < px@.len() ==> match #[trigger] px@[i] {
            PanelStep::Pixels { start, len, on_fail } => start + len <= color_len && on_fail == release,
            _ => false,
        },
{
    let ghost aw = area_width as int;
    let ghost dw = draw_width as int;
    let ghost dh = draw_height as int;
    let ghost want = Seq::new(draw_height as nat, |r: int| PanelStep::Pixels {
        start: (r * area_width * LCD_BYTES_PER_PIXEL) as usize,
        len: (draw_width * LCD_BYTES_PER_PIXEL) as usize,
        on_fail: release,
    });
    let skip_per_row = area_width - draw_width;
    let mut px: Vec<PanelStep> = Vec::new();
    let mut offset: usize = 0;
    let mut r: u32 = 0;
    while r < draw_height
        invariant
            r <= draw_height,
            aw == area_width,
            dw == draw_width,
            dh == draw_height,
            1 <= draw_width <= area_width,
            draw_height <= area_height,
            skip_per_row == area_width - draw_width,
            area_width * area_height * 2 == color_len,
            offset == r * aw * 2,
            want == Seq::new(draw_height as nat, |r: int| PanelStep::Pixels {
                start: (r * area_width * LCD_BYTES_PER_PIXEL) as usize,
                len: (draw_width * LCD_BYTES_PER_PIXEL) as usize,
                on_fail: release,
            }),
            px@ == want.take(r as int),
            forall|i: int| 0 <= i < px@.len() ==> match #[trigger] px@[i] {
                PanelStep::Pixels { start, len, on_fail } => start + len <= color_len && on_fail == release,
                _ => false,
            },
        decreases draw_height - r,
    {
        proof {
            assert(r * aw * 2 + dw * 2 <= (r + 1) * aw * 2) by (nonlinear_arith)
                requires dw <= aw;
            assert((r + 1) * aw * 2 <= aw * area_height * 2) by (nonlinear_arith)
                requires r < dh, dh <= area_height, 0 <= aw;
            assert((r + 1) * aw * 2 == r * aw * 2 + dw * 2 + (aw - dw) * 2) by (nonlinear_arith);
        }
        let row_len = draw_width as usize * LCD_BYTES_PER_PIXEL as usize;
        px.push(PanelStep::Pixels { start: offset, len: row_len, on_fail: release });
        offset = offset + row_len + skip_per_row as usize * LCD_BYTES_PER_PIXEL as usize;
        r = r + 1;
        assert(px@ =~= want.take(r as int));
    }
    assert(want.take(dh) =~= want);
    px
}

/// A one-byte parameter.
fn one(b: u8) -> (p: CmdParams)
    ensures
        p == one_param(b),
{
    CmdParams { len: 1, b0: b, b1: 0, b2: 0, b3: 0 }
}

/// CASET/RASET parameters (see [`window_params`]).
fn window(start: u32, end: u32) -> (p: CmdParams)
    ensures
        p == window_params(start, end),
{
    CmdParams {
        len: 4,
        b0: ((start >> 8) & 0xFF) as u8,
        b1: (start & 0xFF) as u8,
        b2: ((end >> 8) & 0xFF) as u8,
        b3: (end & 0xFF) as u8,
    }
}

/// The driver module that binds CO5300 panels.
pub struct Co5300DriverModule<G> {
    _marker: PhantomData<G>,
}

/// Why a device is not bound to this driver.
#[derive(Debug, Clone, Copy, PartialEq, Eq, Structural)]
pub enum ProbeError {
    /// No such device for this driver (`ENODEV`).
    NoDevice,
}

impl<G> Co5300DriverModule<G> {
    pub fn new() -> Self {
        Co5300DriverModule { _marker: PhantomData }
    }

    /// Binds a device: a native device that is not yet attached and whose
    /// configuration carries the panel's chip-select pin `cs` gives that pin;
    /// a device of another kind, one already attached, or one without a
    /// configuration is `NoDevice`.
    pub fn probe(native: bool, attached: bool, cs: Option<G>) -> (r: Result<G, ProbeError>)
        ensures
            r == (if native && !attached && cs is Some { Ok::<G, ProbeError>(cs->0) }
                else { Err::<G, ProbeError>(ProbeError::NoDevice) }),
    {
        if !native || attached {
            return Err(ProbeError::NoDevice);
        }
        match cs {
            Some(pin) => Ok(pin),
            None => Err(ProbeError::NoDevice),
        }
    }
}

} // verus!

verus! {

/// Every command and pixel write, when the bus rejects it, resumes at a
/// chip-select release: a failure never leaves the panel selected.
pub open spec fn failures_release_cs(steps: Seq<PanelStep>) -> bool {
    forall|i: int| 0 <= i < steps.len() ==> match #[trigger] steps[i] {
        PanelStep::Command { on_fail, .. } => on_fail < steps.len() && steps[on_fail as int] == PanelStep::CsHigh,
        PanelStep::Pixels { on_fail, .. } => on_fail < steps.len() && steps[on_fail as int] == PanelStep::CsHigh,
        _ => true,
    }
}

/// The bring-up never leaves the panel selected after a failure.
pub proof fn lemma_init_failures_release_cs()
    ensures
        failures_release_cs(init_steps()),
{
    let s = init_steps();
    assert forall|i: int| 0 <= i < s.len() implies match #[trigger] s[i] {
        PanelStep::Command { on_fail, .. } => on_fail < s.len() && s[on_fail as int] == PanelStep::CsHigh,
        PanelStep::Pixels { on_fail, .. } => on_fail < s.len() && s[on_fail as int] == PanelStep::CsHigh,
        _ => true,
    } by {
        if 9 <= i < 22 {
            assert(s[i] == vendor_init_steps(22)[i - 9]);
        }
    }
}

/// Drawing an area that starts on the panel holds chip select low across
/// the window commands and the whole pixel stream (it is driven low first,
/// released last, and not toggled in between), and never leaves the panel
/// selected after a failure.
pub proof fn lemma_draw_failures_release_cs(a: DrawArea, width: u32, height: u32, color_len: usize)
    requires
        a.col_start <= a.col_end,
        a.row_start <= a.row_end,
        a.col_start < width,
        a.row_start < height,
        area_pixels(a) * LCD_BYTES_PER_PIXEL == color_len,
    ensures
        failures_release_cs(draw_steps(a, width, height, color_len)),
        draw_steps(a, width, height, color_len)[0] == PanelStep::CsLow,
        draw_steps(a, width, height, color_len).last() == PanelStep::CsHigh,
        forall|i: int| 0 < i < draw_steps(a, width, height, color_len).len() - 1
            ==> (#[trigger] draw_steps(a, width, height, color_len)[i] is Command
                || draw_steps(a, width, height, color_len)[i] is Pixels),
{
    let s = draw_steps(a, width, height, color_len);
    let dh = span(a.row_start, clipped_end(a.row_end, height));
    let aw = span(a.col_start, a.col_end);
    let ah = span(a.row_start, a.row_end);
    assert(dh >= 1 && dh <= ah && aw >= 1);
    assert(dh <= aw * ah) by (nonlinear_arith) requires 1 <= dh, dh <= ah, aw >= 1;
    assert(dh + 4 <= usize::MAX);
    let full = span(a.col_start, clipped_end(a.col_end, width)) * dh == area_pixels(a);
    let rows = if full { 1int } else { dh };
    assert(s.len() == 5 + rows);
    assert forall|i: int| 0 <= i < s.len() implies match #[trigger] s[i] {
        PanelStep::Command { on_fail, .. } => on_fail < s.len() && s[on_fail as int] == PanelStep::CsHigh,
        PanelStep::Pixels { on_fail, .. } => on_fail < s.len() && s[on_fail as int] == PanelStep::CsHigh,
        _ => true,
    } by {
        assert(s[s.len() - 1] == PanelStep::CsHigh);
        assert(s[4 + rows] == PanelStep::CsHigh);
    }
    assert forall|i: int| 0 < i < s.len() - 1 implies (#[trigger] s[i] is Command || s[i] is Pixels) by {
        if i >= 4 {
            assert(s[i] is Pixels);
        }
    }
}

} // verus!

verus! {

/// The colour-buffer byte offsets that the pixel writes of `steps` send, in
/// order.
pub open spec fn pixel_bytes(steps: Seq<PanelStep>) -> Seq<int>
    decreases steps.len(),
{
    if steps.len() == 0 {
        Seq::<int>::empty()
    } else {
        pixel_bytes(steps.drop_last()) + match steps.last() {
            PanelStep::Pixels { start, len, .. } => Seq::new(len as nat, |j: int| start + j),
            _ => Seq::<int>::empty(),
        }
    }
}

proof fn lemma_pixel_bytes_append(a: Seq<PanelStep>, b: Seq<PanelStep>)
    ensures
        pixel_bytes(a + b) == pixel_bytes(a) + pixel_bytes(b),
    decreases b.len(),
{
    if b.len() == 0 {
        assert(a + b =~= a);
        assert(pixel_bytes(a) + Seq::<int>::empty() =~= pixel_bytes(a));
    } else {
        assert((a + b).drop_last() =~= a + b.drop_last());
        assert((a + b).last() == b.last());
        lemma_pixel_bytes_append(a, b.drop_last());
        let t = match b.last() {
            PanelStep::Pixels { start, len, .. } => Seq::new(len as nat, |j: int| start + j),
            _ => Seq::<int>::empty(),
        };
        assert(pixel_bytes(a) + pixel_bytes(b.drop_last()) + t =~= pixel_bytes(a) + (pixel_bytes(b.drop_last()) + t));
    }
}

proof fn lemma_pixel_bytes_one(st: PanelStep)
    ensures
        pixel_bytes(seq![st]) == match st {
            PanelStep::Pixels { start, len, .. } => Seq::new(len as nat, |j: int| start + j),
            _ => Seq::<int>::empty(),
        },
{
    reveal_with_fuel(pixel_bytes, 2);
    assert(seq![st].drop_last() =~= Seq::<PanelStep>::empty());
    assert(seq![st].last() == st);
    let t = match st {
        PanelStep::Pixels { start, len, .. } => Seq::new(len as nat, |j: int| start + j),
        _ => Seq::<int>::empty(),
    };
    assert(Seq::<int>::empty() + t =~= t);
}

/// The byte offsets of the visible part of an area `aw` pixels wide whose
/// first `dw` columns and first `dh` rows are visible: row `r` is bytes
/// `2 * aw * r .. 2 * aw * r + 2 * dw`.
pub open spec fn visible_bytes(aw: int, dw: int, dh: int) -> Seq<int> {
    Seq::new((2 * dw * dh) as nat, |i: int| (i / (2 * dw)) * (2 * aw) + i % (2 * dw))
}

/// The pixel writes of the first `k` visible rows.
proof fn lemma_row_writes_bytes(aw: int, dw: int, dh: int, release: usize, k: int)
    requires
        1 <= dw <= aw,
        0 <= k <= dh,
        2 * aw * dh <= usize::MAX,
    ensures
        pixel_bytes(Seq::new(dh as nat, |r: int| PanelStep::Pixels {
            start: (r * aw * LCD_BYTES_PER_PIXEL) as usize,
            len: (dw * LCD_BYTES_PER_PIXEL) as usize,
            on_fail: release,
        }).take(k)) == Seq::new((2 * dw * k) as nat, |i: int| (i / (2 * dw)) * (2 * aw) + i % (2 * dw)),
    decreases k,
{
    let rows = Seq::new(dh as nat, |r: int| PanelStep::Pixels {
        start: (r * aw * LCD_BYTES_PER_PIXEL) as usize,
        len: (dw * LCD_BYTES_PER_PIXEL) as usize,
        on_fail: release,
    });
    let d = 2 * dw;
    let f = |i: int| (i / d) * (2 * aw) + i % d;
    if k == 0 {
        assert(rows.take(0) =~= Seq::<PanelStep>::empty());
        assert(Seq::new((2 * dw * 0) as nat, f) =~= Seq::<int>::empty());
    } else {
        lemma_row_writes_bytes(aw, dw, dh, release, k - 1);
        assert(rows.take(k).drop_last() =~= rows.take(k - 1));
        assert(rows.take(k).last() == rows[k - 1]);
        let r = k - 1;
        assert(0 <= r * aw * 2 <= 2 * aw * dh) by (nonlinear_arith)
            requires 0 <= r < dh, 1 <= aw;
        let start = r * aw * 2;
        assert(r * aw * LCD_BYTES_PER_PIXEL == start);
        assert(dw * LCD_BYTES_PER_PIXEL == d);
        assert(2 * aw <= 2 * aw * dh) by (nonlinear_arith) requires 1 <= dh, 1 <= aw;
        assert(rows[k - 1] == PanelStep::Pixels { start: start as usize, len: d as usize, on_fail: release });
        let t = Seq::new(d as nat, |j: int| start + j);
        assert(pixel_bytes(rows.take(k)) == pixel_bytes(rows.take(k - 1)) + t);
        assert(2 * dw * k == 2 * dw * (k - 1) + d) by (nonlinear_arith) requires d == 2 * dw;
        let prev = Seq::new((2 * dw * (k - 1)) as nat, f);
        assert forall|i: int| 0 <= i < 2 * dw * k implies #[trigger] (prev + t)[i] == f(i) by {
            if i >= 2 * dw * (k - 1) {
                let j = i - 2 * dw * (k - 1);
                assert(i == (k - 1) * d + j) by (nonlinear_arith)
                    requires j == i - 2 * dw * (k - 1), d == 2 * dw;
                vstd::arithmetic::div_mod::lemma_fundamental_div_mod_converse(i, d, k - 1, j);
                assert((k - 1) * (2 * aw) == start) by (nonlinear_arith) requires start == (k - 1) * aw * 2;
            }
        }
        assert(prev + t =~= Seq::new((2 * dw * k) as nat, f));
    }
}

/// A draw that starts on the panel sends exactly the visible pixels, row by
/// row: the pixel writes carry bytes `2 * aw * r .. 2 * aw * r + 2 * dw` of
/// the colour buffer for each visible row `r`, in order, where `aw` is the
/// area's width and `dw` x `dh` the part of it on the panel; nothing of the
/// rows or columns past the panel's edge is sent.
pub proof fn lemma_draw_sends_visible_pixels(a: DrawArea, width: u32, height: u32, color_len: usize)
    requires
        a.col_start <= a.col_end,
        a.row_start <= a.row_end,
        a.col_start < width,
        a.row_start < height,
        color_len == (a.col_end - a.col_start + 1) * (a.row_end - a.row_start + 1) * 2,
    ensures
        ({
            let ce: int = if a.col_end < width { a.col_end as int } else { width - 1 };
            let re: int = if a.row_end < height { a.row_end as int } else { height - 1 };
            pixel_bytes(draw_steps(a, width, height, color_len))
                == visible_bytes(a.col_end - a.col_start + 1, ce - a.col_start + 1, re - a.row_start + 1)
        }),
{
    let col_end = clipped_end(a.col_end, width);
    let row_end = clipped_end(a.row_end, height);
    let aw = span(a.col_start, a.col_end);
    let ah = span(a.row_start, a.row_end);
    let dw = span(a.col_start, col_end);
    let dh = span(a.row_start, row_end);
    assert(1 <= dw <= aw && 1 <= dh <= ah);
    assert(area_pixels(a) == aw * ah);
    let full = dw * dh == area_pixels(a);
    let rows = if full { 1int } else { dh };
    let release = (4 + rows) as usize;
    let head = seq![
        PanelStep::CsLow,
        command(CASET, window_params(a.col_start, col_end), release),
        command(RASET, window_params(a.row_start, row_end), release),
        command(RAMWR, no_params(), release),
    ];
    let px = if full {
        seq![PanelStep::Pixels { start: 0, len: color_len, on_fail: release }]
    } else {
        Seq::new(dh as nat, |r: int| PanelStep::Pixels {
            start: (r * aw * LCD_BYTES_PER_PIXEL) as usize,
            len: (dw * LCD_BYTES_PER_PIXEL) as usize,
            on_fail: release,
        })
    };
    let tail = seq![PanelStep::CsHigh];
    assert(draw_steps(a, width, height, color_len) == head + px + tail);
    lemma_pixel_bytes_append(head + px, tail);
    lemma_pixel_bytes_append(head, px);
    lemma_pixel_bytes_one(PanelStep::CsHigh);
    assert(pixel_bytes(head) =~= Seq::<int>::empty()) by {
        reveal_with_fuel(pixel_bytes, 5);
    }
    let want = visible_bytes(aw, dw, dh);
    if full {
        assert(dw == aw && dh == ah) by (nonlinear_arith)
            requires 1 <= dw <= aw, 1 <= dh <= ah, dw * dh == aw * ah;
        lemma_pixel_bytes_one(PanelStep::Pixels { start: 0, len: color_len, on_fail: release });
        let got = Seq::new(color_len as nat, |j: int| 0 + j);
        assert(color_len == 2 * dw * dh) by (nonlinear_arith)
            requires color_len == aw * ah * 2, dw == aw, dh == ah;
        assert forall|i: int| 0 <= i < color_len implies #[trigger] want[i] == got[i] by {
            vstd::arithmetic::div_mod::lemma_fundamental_div_mod(i, 2 * dw);
            assert((i / (2 * dw)) * (2 * aw) == (2 * dw) * (i / (2 * dw))) by (nonlinear_arith)
                requires dw == aw;
        }
        assert(Seq::<int>::empty() + got + Seq::<int>::empty() =~= want);
    } else {
        assert(2 * aw * dh <= usize::MAX) by (nonlinear_arith)
            requires aw * ah * 2 == color_len, color_len <= usize::MAX, dh <= ah, 1 <= aw;
        lemma_row_writes_bytes(aw, dw, dh, release, dh);
        assert(px.take(dh) =~= px);
        assert(Seq::<int>::empty() + pixel_bytes(px) + Seq::<int>::empty() =~= want);
    }
}

/// The 16-bit value that a start (or end) pair of window parameter bytes
/// encodes, high byte first.
pub open spec fn be16(hi: u8, lo: u8) -> int {
    hi * 256 + lo
}

proof fn lemma_window_params_decode(start: u32, end: u32)
    requires
        start < 0x10000,
        end < 0x10000,
    ensures
        window_params(start, end).len == 4,
        be16(window_params(start, end).b0, window_params(start, end).b1) == start,
        be16(window_params(start, end).b2, window_params(start, end).b3) == end,
{
    let p = window_params(start, end);
    assert(((((start >> 8u32) & 0xffu32) as u8) as int) * 256 + (((start & 0xffu32) as u8) as int) == start as int)
        by (bit_vector) requires start < 0x10000u32;
    assert(((((end >> 8u32) & 0xffu32) as u8) as int) * 256 + (((end & 0xffu32) as u8) as int) == end as int)
        by (bit_vector) requires end < 0x10000u32;
}

/// A draw that starts on the panel selects the panel, opens the window of
/// exactly the visible part of the area (CASET from the area's first column
/// to its last column on the panel, RASET likewise for rows, each as two
/// big-endian 16-bit values), starts the memory write (RAMWR), and ends by
/// releasing the panel.
pub proof fn lemma_draw_opens_visible_window(a: DrawArea, width: u32, height: u32, color_len: usize)
    requires
        a.col_start <= a.col_end,
        a.row_start <= a.row_end,
        a.col_start < width <= 0x10000,
        a.row_start < height <= 0x10000,
        color_len == (a.col_end - a.col_start + 1) * (a.row_end - a.row_start + 1) * 2,
    ensures
        ({
            let s = draw_steps(a, width, height, color_len);
            let ce: int = if a.col_end < width { a.col_end as int } else { width - 1 };
            let re: int = if a.row_end < height { a.row_end as int } else { height - 1 };
            &&& s.len() >= 5
            &&& s[0] == PanelStep::CsLow
            &&& s[1] matches PanelStep::Command { cmd, params, .. } && cmd == 0x2Au8 && params.len == 4
                && be16(params.b0, params.b1) == a.col_start && be16(params.b2, params.b3) == ce
            &&& s[2] matches PanelStep::Command { cmd, params, .. } && cmd == 0x2Bu8 && params.len == 4
                && be16(params.b0, params.b1) == a.row_start && be16(params.b2, params.b3) == re
            &&& s[3] matches PanelStep::Command { cmd, params, .. } && cmd == 0x2Cu8 && params.len == 0
            &&& s[s.len() - 1] == PanelStep::CsHigh
            &&& forall|i: int| 4 <= i < s.len() - 1 ==> (#[trigger] s[i]) is Pixels
        }),
{
    let col_end = clipped_end(a.col_end, width);
    let row_end = clipped_end(a.row_end, height);
    lemma_window_params_decode(a.col_start, col_end);
    lemma_window_params_decode(a.row_start, row_end);
    let s = draw_steps(a, width, height, color_len);
    assert(s.len() >= 5);
}

} // verus!
