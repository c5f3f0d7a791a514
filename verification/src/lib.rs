//! Verified capture engine for a UBX-framed binary byte stream.
//!
//! The library frames an unbounded byte stream into protocol frames,
//! tracks acknowledgment frames for configuration commands, validates
//! serial-transport parameters, and adapts byte sinks and sources to
//! optional gzip compression.

pub mod ack;
pub mod commands;
pub mod config;
pub mod frame;
pub mod parser;
pub mod sink;
