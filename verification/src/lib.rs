//! A verified CHIP-8 interpreter core: registers, memory, stack, timers,
//! a collision-aware XOR sprite blitter, and the full opcode set, with the
//! execution semantics stated as spec functions and proved of the code.

pub mod cpu;
pub mod display;
pub mod keypad;
pub mod rng;
