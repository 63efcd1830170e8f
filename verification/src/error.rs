use vstd::prelude::*;

verus! {

/// The error that `hidapi` reports for a USB HID operation. It is carried, never inspected.
#[verifier::external_type_specification]
#[verifier::external_body]
pub struct ExHidError(hidapi::HidError);

/// The error that the operating system reports for a socket operation. It is carried, never
/// inspected.
#[verifier::external_type_specification]
#[verifier::external_body]
pub struct ExIoError(std::io::Error);

/// The error that `core::str::from_utf8` reports. It is carried, never inspected.
#[verifier::external_type_specification]
#[verifier::external_body]
pub struct ExUtf8Error(core::str::Utf8Error);

/// Everything that can go wrong while talking to a Stream Deck.
#[derive(Debug)]
pub enum StreamDeckError {
    /// A USB HID operation failed.
    HidError(hidapi::HidError),
    /// Text reported by the device is not UTF-8.
    Utf8Error(core::str::Utf8Error),
    /// A socket operation failed.
    IoError(std::io::Error),
    /// The input to an I/O operation was unusable, as the message says.
    InvalidInput(&'static str),
    /// A lock was poisoned by a panicking thread.
    PoisonError,
    /// The peer did not answer in time.
    Timeout,
    /// The connection is gone.
    Disconnected,
    /// The peer broke the protocol, as the message says.
    Protocol(&'static str),
    /// The vendor and product id belong to no known device.
    UnrecognizedPID,
}

} // verus!
