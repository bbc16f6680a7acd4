//! Pin controllers.
pub mod esp32_pinctrl;
