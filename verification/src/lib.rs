//! A small 8-bit register-machine interpreter with a two-pass assembler.
//!
//! The machine has five 8-bit registers, 256 bytes of memory, a zero flag,
//! and an 80x25 character display buffer. Programs are sequences of
//! instructions produced by the assembler in [`parser`] and executed one
//! step at a time by the engine in [`vm`]. All I/O (printing, keyboard,
//! sleeping) is surfaced to the caller as step outcomes and applied back
//! through dedicated entry points, so the machine itself stays pure.

pub mod text;
pub mod vm;
pub mod parser;
