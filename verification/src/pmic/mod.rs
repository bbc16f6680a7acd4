//! Power-management ICs.
pub mod axp2101;
