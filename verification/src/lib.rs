//! A small 8-bit virtual machine and its two-pass assembler.

pub mod assembler;
pub mod cpu;
pub mod device;
pub mod error;
pub mod isa;
pub mod labels;
pub mod laws;
pub mod machine;
pub mod memory;
pub mod number;
pub mod operand;
pub mod repl;
pub mod text;
