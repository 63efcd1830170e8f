//! HID operations of a CORA frame header.

use vstd::prelude::*;

verus! {

/// Write an output report.
pub const WRITE: u8 = 0x00;

/// Send a feature report.
pub const SEND_REPORT: u8 = 0x01;

/// Request a feature report.
pub const GET_REPORT: u8 = 0x02;

} // verus!
