//! Simulatron toolchain: the SimObj object format and its linker, the SimAsm
//! assembler, and the instruction-level logic of the virtual machine.
pub mod bytes;
pub mod text;
pub mod hexprint;
pub mod silk;
pub mod salt;
pub mod sorting;
pub mod vm;
pub mod isa;
