//! The RV32 core: instruction descriptions, the decoder and the executor.

pub mod instruction;
pub mod decoder;
pub mod alu;
pub mod executor;
pub mod csr_reg;
pub mod semantics;
