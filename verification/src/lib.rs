//! A verified CHIP-8-style bytecode virtual machine: a fixed-opcode
//! instruction set executed over a register file, byte-addressable memory,
//! a call stack, and a double-buffered pixel surface with a lazily
//! populated sprite cache.

pub mod bytes;
pub mod frame;
pub mod laws;
pub mod sprite;
pub mod vm;
