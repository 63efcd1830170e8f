//! The CORA protocol of the Elgato Stream Deck Network Dock.
//!
//! The Network Dock does not expose its attached Stream Deck as a USB/IP device. It speaks
//! Elgato's own CORA protocol over TCP, by default on port [`DEFAULT_TCP_PORT`].
//!
//! Two TCP connections are involved:
//!
//! 1. **Primary** (`host:5343`): the dock itself. After its first keepalive, it answers a
//!    "Device 2" info query (`GET_REPORT 0x1c`) that describes the attached deck: vendor and
//!    product id, serial number, and the TCP port the deck itself is served on.
//! 2. **Child** (`host:<device2 tcp port>`): the attached deck. Frames sent with the `VERBATIM`
//!    flag tunnel raw HID reports to the deck, byte for byte as over USB.
//!
//! [`frame`] holds the wire format, [`connection`] what frames do to one connection, [`device2`]
//! the dock's description of the deck, and [`session`] discovery and the deck as a transport.

use vstd::prelude::*;

pub mod connection;
pub mod device2;
pub mod flags;
pub mod frame;
pub mod op;
pub mod session;

pub use connection::Connection;
pub use device2::Device2Info;
pub use session::CoraTransport;

verus! {

/// Default TCP port the Network Dock listens on.
pub const DEFAULT_TCP_PORT: u16 = 5343;

/// How long to wait for a TCP connect, for an answer and for the first keepalive, in milliseconds.
pub const TIMEOUT_MILLIS: u64 = 5000;

} // verus!
