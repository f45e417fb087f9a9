//! A CHIP-8 virtual machine: 4 KiB of byte-addressable memory, sixteen 8-bit
//! registers, a 16-level call stack, two countdown timers, a 64x32 monochrome
//! framebuffer, a 16-key input device, and the fetch/decode/execute cycle that
//! gives every opcode its exact bit- and byte-level meaning.

pub mod cpu;
pub mod display;
pub mod keys;
pub mod laws;
pub mod memory;
pub mod registers;
pub mod state;
