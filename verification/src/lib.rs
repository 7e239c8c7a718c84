//! Wire codec for the Apple Notification Center Service (ANCS).
//!
//! ANCS is a Bluetooth Low Energy GATT service through which an accessory
//! learns about the notifications shown on an iOS device. This crate turns
//! the typed messages of the three ANCS characteristics into the exact byte
//! sequences the protocol prescribes, and back. It performs no I/O: callers
//! hand it the bytes a transport delivered and send the bytes it produces.
//!
//! Every conversion is stated against a mathematical model of the wire
//! format (`wire_bytes` for encoders, `parse_spec` for decoders), and the
//! relations between the two directions are proved as public lemmas.
use vstd::prelude::*;

pub mod attributes;
pub mod characteristics;
pub mod error;
pub mod wire;

verus! {

/// Identifier of the Apple Notification Center Service itself.
pub const APPLE_NOTIFICATION_CENTER_SERVICE_UUID: &'static str =
    "7905F431-B5CE-4E99-A40F-4B1E122D00D0";

} // verus!
