//! A verified CHIP-8 interpreter core: a 4096-byte memory with the built-in
//! font, a 16-register file, a 64x32 one-bit framebuffer with XOR sprite
//! drawing, a single-key input latch, a 60 Hz countdown timer, and the
//! fetch-decode-execute step over the full instruction set.

pub mod chip;
pub mod display;
pub mod keyboard;
pub mod laws;
pub mod timer;
