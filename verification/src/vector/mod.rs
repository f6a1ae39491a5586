//! The vector extension: register file, masking policy, and the integer and
//! fixed-point arithmetic instructions.

pub mod types;
pub mod fixed_point;
pub mod integer;
pub mod regfile;
pub mod mask;
pub mod unit;
pub mod arith;
pub mod maskops;
pub mod permute;
pub mod fixops;
pub mod memory;
pub mod transfer;
