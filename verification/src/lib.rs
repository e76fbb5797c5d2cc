//! A verified interpreter for a fixed 16-bit-opcode instruction set: a flat
//! 4096-byte memory, sixteen 8-bit registers, a call stack, two countdown
//! timers, and a 64x32 monochrome framebuffer.

pub mod error;
pub mod font;
pub mod machine;
pub mod opcode;
pub mod screen;
pub mod stack;
pub mod timers;
