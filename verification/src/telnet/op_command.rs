//! Telnet command byte values.

use vstd::prelude::*;

verus! {

/// End of subnegotiation parameters.
pub const SE: u8 = 240;
/// No operation.
pub const NOP: u8 = 241;
/// End of record.
pub const EOR: u8 = 239;
/// Go ahead.
pub const GA: u8 = 249;
/// Begin subnegotiation.
pub const SB: u8 = 250;
/// Sender wants to enable an option on its side.
pub const WILL: u8 = 251;
/// Sender wants to disable an option on its side.
pub const WONT: u8 = 252;
/// Sender wants the receiver to enable an option.
pub const DO: u8 = 253;
/// Sender wants the receiver to disable an option.
pub const DONT: u8 = 254;
/// Interpret-as-command introducer.
pub const IAC: u8 = 255;

} // verus!
