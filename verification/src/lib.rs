//! A sidecar process supervisor: the verified logic behind launching one
//! external backend process, relaying its stdout and stderr line by line to a
//! log sink, and recording its exit.
//!
//! The pieces that must touch the operating system — spawning the process and
//! blocking on its pipes — live outside this library. Everything this library
//! decides is verified: how a byte stream is cut into lines, what a relay
//! emits for each read, how the supervisor's lifecycle advances, and how the
//! log sink grows.

pub mod line_buffer;
pub mod log_sink;
pub mod relay;
pub mod supervisor;
