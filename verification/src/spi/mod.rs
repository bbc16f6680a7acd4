//! SPI bus configuration shared by the SPI controller drivers.
use vstd::prelude::*;

pub mod coverage;
pub mod esp32_spi;
pub mod register_file;
pub mod transaction;

verus! {

/// SPI clock phase (CPHA).
#[derive(Debug, Clone, Copy, PartialEq, Eq, Structural)]
pub enum SpiPhase {
    Phase0,
    Phase1,
}

/// SPI clock polarity (CPOL).
#[derive(Debug, Clone, Copy, PartialEq, Eq, Structural)]
pub enum SpiPolarity {
    Low,
    High,
}

/// SPI bit order.
#[derive(Debug, Clone, Copy, PartialEq, Eq, Structural)]
pub enum SpiBitOrder {
    MsbFirst,
    LsbFirst,
}

/// SPI peripheral configuration.
pub struct SpiConfig {
    pub baudrate: u32,
    pub phase: SpiPhase,
    pub polarity: SpiPolarity,
    pub bit_order: SpiBitOrder,
    /// Unused: chip select is driven by software through a GPIO.
    pub cs_pin: Option<u8>,
}

impl SpiConfig {
    /// Mode 0 (CPOL=0, CPHA=0), MSB-first, 40 MHz.
    pub fn spi_flash_default() -> (c: Self)
        ensures
            c.baudrate == 40_000_000,
            c.phase == SpiPhase::Phase0,
            c.polarity == SpiPolarity::Low,
            c.bit_order == SpiBitOrder::MsbFirst,
            c.cs_pin is None,
    {
        SpiConfig {
            baudrate: 40_000_000,
            phase: SpiPhase::Phase0,
            polarity: SpiPolarity::Low,
            bit_order: SpiBitOrder::MsbFirst,
            cs_pin: None,
        }
    }
}

} // verus!
