//! Verified logic of the PineTime watch firmware.
//!
//! The attribute table that the watch serves over Bluetooth Low Energy
//! ([`ble`], with its records in [`attribute`] and its type identifiers in
//! [`uuid`]), what holds of every such table ([`laws`]), and the arithmetic of
//! the backlight and battery drivers ([`backlight`], [`battery`],
//! [`battery_status`]).

pub mod attribute;
pub mod backlight;
pub mod battery;
pub mod battery_status;
pub mod ble;
pub mod laws;
pub mod uuid;
