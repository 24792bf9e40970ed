//! A sans-I/O HTTP/1.1 protocol engine: incremental receive buffering,
//! header normalization and validation, an event model, per-role
//! connection state machines, and body framing for reading and writing
//! message bodies.

pub mod ascii;
pub mod num;
pub mod util;
pub mod http_regex;
pub mod receive_buffer;
pub mod headers;
pub mod events;
pub mod state;
pub mod readers;
pub mod writers;
pub mod parse;
pub mod connection;
pub mod http2;
