//! The virtual machine's logic: the keyboard's and the display's character
//! set, the processor's register file, arithmetic, flags and interrupt
//! latch, and the memory map and page translation.
pub mod keys;
pub mod display;

pub mod cpu;
pub mod alu;
pub mod mmu;
pub mod memory;
pub mod bus;
pub mod access;
pub mod cycle;
pub mod disk;
