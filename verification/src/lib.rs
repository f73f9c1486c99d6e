//! Ambient-light-adaptive backlight control.
//!
//! The crate holds the decision logic of the controller: the lux-to-brightness
//! mapping, the step-wise ramp plan toward a target brightness, the
//! significant-change detector for the ambient sensor, and the parsing of
//! sysfs integer values. The surrounding process (file reads, the D-Bus
//! brightness call, signal handling and threads) drives these functions.

pub mod backlight;
pub mod config;
pub mod monitor;
pub mod parse;
