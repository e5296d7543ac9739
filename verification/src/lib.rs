//! CHIP-8 emulation library.
//!
//! The library implements the CHIP-8 virtual machine: a 4KB-addressable
//! 8-bit processor with 16 general registers, a 16-entry call stack, two
//! timers, a 64x32 monochrome framebuffer and a 16-key input pad.
//!
//! Two machines are provided. [`processor::Processor`] is the full
//! interpreter: shifts read their source from `Vy`, drawing clips at the
//! screen edges, the hex font table is built in, and the block store/load
//! instructions advance the index register. [`chip8::Chip8`] is a reduced
//! machine kept for compatibility: shifts read from `Vx`, drawing wraps
//! around the screen edges, and there is no font table.
//!
//! Every instruction's effect is specified by a spec-level interpreter
//! (`spec_execute` in each module) and the executable code is verified
//! against it. Invalid opcodes, as well as call-stack overflow and
//! underflow, are reported through [`OpcodeError`] instead of panicking.

pub mod chip8;
pub mod interfaces;
pub mod laws;
pub mod processor;

mod bits;
mod errors;
mod rng;

pub use errors::OpcodeError;
pub use processor::Processor;
