//! Outbound payload encoders for an HTTP long-polling transport.
//!
//! A batch of protocol packets drained from a connection's outgoing queue is
//! multiplexed into a single response body, in one of several wire encodings:
//! the modern separator-joined text payload, or the legacy length-prefixed
//! binary and string payloads.

pub mod encoder;
pub mod laws;
pub mod packet;
pub mod varlen;
