//! Line assembly for an interrupt-driven serial console.
//!
//! The crate builds lines out of a raw byte stream: a fixed-capacity
//! [`buffer::LineBuffer`] accumulates printable bytes and supports backspace
//! editing, the [`assembler`] classifies each incoming byte and applies it to
//! the buffer, and a [`reader::LineReader`] owns the buffer and queues every
//! completed line for a consumer to drain. All mutation goes through an
//! exclusive reference, so one access at a time is guaranteed by construction;
//! whatever masks interrupts around these calls lives outside this crate.

pub mod assembler;
pub mod buffer;
pub mod laws;
pub mod reader;
