//! Host-side protocol engine for a tunable-lens controller on a serial link.
//!
//! The crate covers frame construction and validation (a CRC-16 checksum over
//! every exchanged payload), conversion between physical quantities and the
//! device's fixed-point wire integers, the operating-mode state machine that
//! gates which commands are legal, and the session façade that performs the
//! handshake, capability discovery and a graceful ramp-down.
//!
//! Physical quantities are carried as integers in milli-units (milli-mA,
//! milli-°C, milli-diopters), so every conversion is exact arithmetic.
//! The byte channel itself is abstracted as a transport trait; an unverified
//! binary supplies the real serial port, and a scripted transport replays
//! canned device traffic for tests.

pub mod checksum;
pub mod driver;
pub mod errors;
pub mod frame;
pub mod mode;
pub mod transport;
pub mod units;
pub mod wire;

pub use checksum::checksum;
pub use driver::{check_handshake, check_max_output_current, check_ramp_start, ramp_targets, LensDriver};
pub use errors::LensError;
pub use frame::{decode, decode_variable, encode};
pub use mode::{mode_from_u8, LensMode};
pub use transport::{ScriptedTransport, Transport};
pub use units::{
    current_from_raw, current_to_raw, diopter_from_raw, diopter_to_raw, max_current_from_raw,
    round_div_i64, temperature_from_raw, version_from_payload,
};
pub use wire::{i16_from_be, i16_to_be, u16_from_le, u16_to_le};
