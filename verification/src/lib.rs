//! A CHIP-8 toolchain: a two-pass assembler for the CHIP-8 mnemonic language
//! and an execution engine for the 16-bit opcode encoding they share.

pub mod assembler;
pub mod cpu;
pub mod instr;
pub mod labels;
pub mod machine;
