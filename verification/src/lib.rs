//! A WebSocket framing codec with the permessage-deflate extension.
//!
//! The crate turns a byte-oriented, in-order transport into a message-oriented
//! channel: it serializes and parses RFC 6455 frames, applies client-side
//! masking, fragments and reassembles messages, and compresses message
//! payloads with DEFLATE as RFC 7692 prescribes.  The transport is modelled as
//! a pair of in-memory byte buffers; a caller pumps bytes between them and the
//! real connection.

pub mod types;
pub mod config;
pub mod stream;
pub mod frame;
pub mod deflate;
pub mod writer;
pub mod reader;
pub mod codec;
