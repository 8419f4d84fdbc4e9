//! A two-stage toy computing toolchain: an assembler for a small mnemonic
//! assembly language, and a virtual machine that executes the emitted
//! fixed-width decimal machine words against a bounded memory array.

pub mod assembler;
pub mod sim;
pub mod text;
pub mod word;
