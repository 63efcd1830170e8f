//! Flag bits of a CORA frame header.

use vstd::prelude::*;

verus! {

/// No flag set.
pub const NONE: u16 = 0x0000;

/// The payload is a raw HID report of the attached deck.
pub const VERBATIM: u16 = 0x8000;

/// The sender asks for an acknowledgement.
pub const REQ_ACK: u16 = 0x4000;

/// The frame acknowledges another one.
pub const ACK_NAK: u16 = 0x0200;

/// The frame carries a result.
pub const RESULT: u16 = 0x0100;

} // verus!
