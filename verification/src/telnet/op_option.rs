//! Telnet option byte values used by this engine.

use vstd::prelude::*;

verus! {

/// Line mode negotiation.
pub const LINEMODE: u8 = 34;
/// Mud Client Compression Protocol, version 2.
pub const MCCP2: u8 = 86;
/// Mud Client Compression Protocol, version 3.
pub const MCCP3: u8 = 87;
/// Generic Mud Communication Protocol.
pub const GMCP: u8 = 201;

} // verus!
