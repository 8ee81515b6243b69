//! Client-side implementation of a lightweight request/response protocol
//! carried over a reliable byte stream.
//!
//! The crate has two layers:
//!
//! * [`codec`] — the frame codec: a deterministic mapping between a
//!   [`codec::Message`] and its delimited byte frame, with encoding,
//!   decoding, and the round-trip laws that relate them.
//! * [`client`] — the request/response logic of the client: correlation
//!   identifier generation, frame accumulation from a byte stream, and
//!   validation of a decoded response against the request that was sent.
//!
//! All I/O (connecting, writing, reading, timeouts) lives outside this
//! crate; the functions here work on plain values and carry contracts.

pub mod client;
pub mod codec;
pub mod errors;
