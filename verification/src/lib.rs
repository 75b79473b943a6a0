//! Connection-level core of a QUIC-family transport.
//!
//! The crate turns the payloads of received datagrams into ordered,
//! flow-controlled byte streams, and what the application writes into
//! frames for the peer. It does no I/O and keeps no state outside a
//! [`connection::Connection`]: datagrams and the time are pushed in,
//! encoded frames and requests to the collaborators (handshake, loss
//! recovery, congestion control) are pulled out.
//!
//! Every executable function is verified against a mathematical model:
//! - [`varint`], [`frame`], [`codec`], [`codec_laws`]: the wire format of
//!   frames, the codec, and the proof that decoding undoes encoding;
//! - [`reassembly`], [`reassembler`]: the receive side of a stream, with
//!   the proofs that reassembly does not depend on the order of arrival;
//! - [`send_buffer`]: the send side of a stream;
//! - [`flow`]: credit-based flow control;
//! - [`cid`]: the table of connection identifiers;
//! - [`stream`]: one stream, both sides with their budgets;
//! - [`connection_model`], [`connection`]: the state machine that owns the
//!   rest and dispatches frames.

pub mod error;
pub mod varint;
pub mod frame;
pub mod codec;
pub mod codec_laws;
pub mod reassembly;
pub mod reassembler;
pub mod send_buffer;
pub mod flow;
pub mod cid;
pub mod stream;
pub mod connection_model;
pub mod connection;
