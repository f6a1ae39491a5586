//! The arithmetic of the RV32 core on 64-bit words: the register-register
//! and register-immediate operations and the branch conditions.

use vstd::prelude::*;
use vstd::arithmetic::power2::*;
use crate::bits::{to_signed, sign_extend, sign_extend_spec, as_signed_i128};
use crate::vector::integer::{IntegerOp, integer_binary, integer_binary_spec};
use crate::isa::riscv32::instruction::{AluOp, BranchOp};

verus! {

/// The two's complement value of a word.
pub open spec fn signed(a: u64) -> int {
    to_signed(a as int, 64)
}

/// `op` on the low 32 bits of `a` and `b`, its 32-bit result sign-extended
/// to 64 bits (the `W` operations).
pub open spec fn word32_spec(op: IntegerOp, a: u64, b: u64) -> u64 {
    sign_extend_spec(integer_binary_spec(op, 32, (a % 0x1_0000_0000) as u64, (b % 0x1_0000_0000) as u64) as u64, 32) as u64
}

/// The result of `op` on `a` and `b`, as RISC-V defines it for 64-bit
/// registers: the high multiplies give the upper half of the 128-bit
/// product, a division by zero gives all ones and its remainder the
/// dividend, the overflowing signed division gives the dividend and
/// remainder zero, and shifts take their amount from the low six bits (five
/// for the `W` operations).
pub open spec fn alu_spec(op: AluOp, a: u64, b: u64) -> u64 {
    match op {
        AluOp::Add => integer_binary_spec(IntegerOp::Add, 64, a, b) as u64,
        AluOp::Sub => integer_binary_spec(IntegerOp::Sub, 64, a, b) as u64,
        AluOp::MulLow => integer_binary_spec(IntegerOp::Mul, 64, a, b) as u64,
        AluOp::MulHighSigned => integer_binary_spec(IntegerOp::Mulh, 64, a, b) as u64,
        AluOp::MulHighUnsigned => integer_binary_spec(IntegerOp::Mulhu, 64, a, b) as u64,
        AluOp::MulHighSignedUnsigned => integer_binary_spec(IntegerOp::Mulhsu, 64, a, b) as u64,
        AluOp::DivSigned => integer_binary_spec(IntegerOp::Div, 64, a, b) as u64,
        AluOp::DivUnsigned => integer_binary_spec(IntegerOp::Divu, 64, a, b) as u64,
        AluOp::RemSigned => integer_binary_spec(IntegerOp::Rem, 64, a, b) as u64,
        AluOp::RemUnsigned => integer_binary_spec(IntegerOp::Remu, 64, a, b) as u64,
        AluOp::Sll => integer_binary_spec(IntegerOp::Sll, 64, a, b) as u64,
        AluOp::Srl => integer_binary_spec(IntegerOp::Srl, 64, a, b) as u64,
        AluOp::Sra => integer_binary_spec(IntegerOp::Sra, 64, a, b) as u64,
        AluOp::Addw => word32_spec(IntegerOp::Add, a, b),
        AluOp::Subw => word32_spec(IntegerOp::Sub, a, b),
        AluOp::Sllw => word32_spec(IntegerOp::Sll, a, b),
        AluOp::Srlw => word32_spec(IntegerOp::Srl, a, b),
        AluOp::Sraw => word32_spec(IntegerOp::Sra, a, b),
        AluOp::And => a & b,
        AluOp::Or => a | b,
        AluOp::Xor => a ^ b,
        AluOp::SignedLess => if signed(a) < signed(b) { 1 } else { 0 },
        AluOp::UnsignedLess => if a < b { 1 } else { 0 },
    }
}

/// Whether a branch under `op` is taken on `a` and `b`.
pub open spec fn branch_spec(op: BranchOp, a: u64, b: u64) -> bool {
    match op {
        BranchOp::Equal => a == b,
        BranchOp::NotEqual => a != b,
        BranchOp::SignedLess => signed(a) < signed(b),
        BranchOp::SignedGreatEqual => signed(a) >= signed(b),
        BranchOp::UnsignedLess => a < b,
        BranchOp::UnsignedGreatEqual => a >= b,
    }
}

/// One 64-bit operation through the element arithmetic of the vector unit.
fn word_op(op: IntegerOp, a: u64, b: u64) -> (r: u64)
    ensures
        r == integer_binary_spec(op, 64, a, b),
{
    proof {
        lemma2_to64_rest();
    }
    integer_binary(op, 64, a, b)
}

/// One `W` operation, as `word32_spec` says.
fn word32_op(op: IntegerOp, a: u64, b: u64) -> (r: u64)
    ensures
        r == word32_spec(op, a, b),
{
    proof {
        lemma2_to64();
    }
    let x = integer_binary(op, 32, a % 0x1_0000_0000, b % 0x1_0000_0000);
    sign_extend(x, 32)
}

/// The result of `op` on `a` and `b`, as `alu_spec` says.
pub fn alu(op: AluOp, a: u64, b: u64) -> (r: u64)
    ensures
        r == alu_spec(op, a, b),
{
    proof {
        lemma2_to64();
        lemma2_to64_rest();
    }
    match op {
        AluOp::Add => word_op(IntegerOp::Add, a, b),
        AluOp::Sub => word_op(IntegerOp::Sub, a, b),
        AluOp::MulLow => word_op(IntegerOp::Mul, a, b),
        AluOp::MulHighSigned => word_op(IntegerOp::Mulh, a, b),
        AluOp::MulHighUnsigned => word_op(IntegerOp::Mulhu, a, b),
        AluOp::MulHighSignedUnsigned => word_op(IntegerOp::Mulhsu, a, b),
        AluOp::DivSigned => word_op(IntegerOp::Div, a, b),
        AluOp::DivUnsigned => word_op(IntegerOp::Divu, a, b),
        AluOp::RemSigned => word_op(IntegerOp::Rem, a, b),
        AluOp::RemUnsigned => word_op(IntegerOp::Remu, a, b),
        AluOp::Sll => word_op(IntegerOp::Sll, a, b),
        AluOp::Srl => word_op(IntegerOp::Srl, a, b),
        AluOp::Sra => word_op(IntegerOp::Sra, a, b),
        AluOp::Addw => word32_op(IntegerOp::Add, a, b),
        AluOp::Subw => word32_op(IntegerOp::Sub, a, b),
        AluOp::Sllw => word32_op(IntegerOp::Sll, a, b),
        AluOp::Srlw => word32_op(IntegerOp::Srl, a, b),
        AluOp::Sraw => word32_op(IntegerOp::Sra, a, b),
        AluOp::And => a & b,
        AluOp::Or => a | b,
        AluOp::Xor => a ^ b,
        AluOp::SignedLess => {
            if as_signed_i128(a, 64) < as_signed_i128(b, 64) {
                1
            } else {
                0
            }
        },
        AluOp::UnsignedLess => if a < b {
            1
        } else {
            0
        },
    }
}

/// Whether a branch under `op` is taken on `a` and `b`.
pub fn branch_taken(op: BranchOp, a: u64, b: u64) -> (r: bool)
    ensures
        r == branch_spec(op, a, b),
{
    proof {
        lemma2_to64_rest();
    }
    match op {
        BranchOp::Equal => a == b,
        BranchOp::NotEqual => a != b,
        BranchOp::SignedLess => as_signed_i128(a, 64) < as_signed_i128(b, 64),
        BranchOp::SignedGreatEqual => as_signed_i128(a, 64) >= as_signed_i128(b, 64),
        BranchOp::UnsignedLess => a < b,
        BranchOp::UnsignedGreatEqual => a >= b,
    }
}

} // verus!
