//! Register-level logic for the ESP32-C3/C6 GPSPI2 controller, the IO_MUX /
//! GPIO-matrix pin controller, the CO5300 QSPI AMOLED panel and the AXP2101
//! PMIC, written so that every decision the drivers take is verified.
//!
//! Register accesses themselves (MMIO, I2C transfers, delays) are performed
//! by the caller: the library hands out the exact values and sequences to
//! apply and consumes what the hardware reported back.
use vstd::prelude::*;

pub mod error;
pub mod regfield;
pub mod spi;
pub mod pinctrl;
pub mod lcd;
pub mod pmic;
pub mod console;

verus! {

/// The two ESP32 parts the drivers support; they differ in base addresses
/// and in how the SPI2 clock and reset are gated.
#[derive(Debug, Clone, Copy, PartialEq, Eq, Structural)]
pub enum Soc {
    Esp32C3,
    Esp32C6,
}

} // verus!
