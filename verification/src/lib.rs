//! Transports for Elgato Stream Deck devices: the [`transport::Transport`] interface with its
//! per-device identity reports, and the CORA protocol that the Network Dock speaks over TCP.
//!
//! Nothing in this crate opens a socket or a USB handle. Every type here is plain state, every
//! function a computation on bytes and state; the program around it moves the bytes.

pub mod error;
pub mod info;
pub mod transport;
pub mod util;

pub use error::StreamDeckError;
