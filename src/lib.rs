//! A bidirectional, message-oriented transport core: framing and decoding of
//! an inbound byte stream, routing of outbound messages to live connections,
//! and the lifecycle events that connections report.

pub mod client;
pub mod codec;
pub mod egress;
pub mod event;
pub mod ingress;
pub mod pool;
pub mod ring_buffer;
pub mod server;
