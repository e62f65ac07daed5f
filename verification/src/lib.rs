//! A verified interpreter for the classic CHIP-8 virtual machine:
//! 16 eight-bit registers, 4 KiB of memory, a fixed-depth call stack,
//! two countdown timers, a 64x32 monochrome display and a 16-key pad.

pub mod decode;
pub mod laws;
pub mod machine;
pub mod semantics;
pub mod stack;
