//! Instruction-set support: the building blocks shared by decoders, and the
//! RV32 core.

pub mod utils;
pub mod riscv32;
