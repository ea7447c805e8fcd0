//! An in-memory key-value cache: its message model, the binary wire format of
//! its multiplexed protocol, the store behind it and the service pipeline that
//! answers one request with one response.
//!
//! The contracts are stated over the views of the data: a message is seen as
//! a [`message::MessageView`], a buffer as the sequence of bytes it holds,
//! the store as a map from keys to entries. Every function is verified
//! against the contract it carries. What is believed without proof is said
//! where it stands: of the byte buffer in [`buffer`], of the clock in
//! [`clock`].
//!
//! - [`message`]: operations, status codes, payloads, messages.
//! - [`buffer`]: the byte buffer that frames are written to and read from.
//! - [`codec`]: the frame layout, encoding, decoding, and that one inverts
//!   the other.
//! - [`cache`]: the store and the four operations on it.
//! - [`stats`]: the request counters and their report.
//! - [`clock`]: clock readings and the time between two of them.
//! - [`service`]: the base service and the two decorators around it.
//! - [`connection`]: from a frame that came in to the frame that goes out.

pub mod buffer;
pub mod cache;
pub mod clock;
pub mod codec;
pub mod connection;
pub mod message;
pub mod service;
pub mod stats;
