//! Instruction-level emulator for an ATtiny1626-class 8-bit microcontroller:
//! byte-addressable storage blocks, a memory-mapped bus that routes a 16-bit
//! address to the owning block, an execution core that fetches, decodes and
//! executes one instruction per step, and a device that assembles the part's
//! memory map and loads firmware from decoded hex records.

pub mod memory;
pub mod isa;
pub mod cores;
pub mod devices;
