//! What each instruction of the base table does, stated from the RISC-V
//! specification and proved of the executor: the value written by each
//! register operation, the target of each branch, the bytes that each load
//! and store moves, the jumps and upper immediates, the encoding key under
//! which the base table decodes each instruction, and each mnemonic.

use vstd::prelude::*;
use vstd::arithmetic::power2::*;
use vstd::arithmetic::div_mod::*;
use crate::bytes::le;
use crate::ram::{BASE_ADDR, store_le};
use crate::vector::integer::{tdiv, trem};
use crate::isa::riscv32::instruction::{RiscvInstr, RVInstrInfo, class_spec};
use crate::isa::riscv32::executor::execute_spec;
use crate::isa::riscv32::instruction::{InstrFormat, Exception, RV32Desc, table_rv32i_spec};
use crate::isa::riscv32::decoder::{decode_spec, decode_info_spec, lookup_opcode, lookup_f3, lookup_f7, partial_of, uses_f3};

verus! {

/// `2^64`, the modulus of register arithmetic.
pub open spec fn m64() -> int {
    0x1_0000_0000_0000_0000
}

/// `2^32`, the modulus of the word operations.
pub open spec fn m32() -> int {
    0x1_0000_0000
}

/// The two's complement value of a 64-bit register.
pub open spec fn int64(a: u64) -> int {
    if a >= 0x8000_0000_0000_0000 {
        a - m64()
    } else {
        a as int
    }
}

/// The two's complement value of a 32-bit word `w < 2^32`.
pub open spec fn int32(w: int) -> int {
    if w >= 0x8000_0000 {
        w - m32()
    } else {
        w
    }
}

/// The 32-bit word `w < 2^32` sign-extended to a 64-bit register value.
pub open spec fn sext32(w: int) -> int {
    if w >= 0x8000_0000 {
        w - m32() + m64()
    } else {
        w
    }
}

/// The low `n` bits of `v`, sign-extended to a 64-bit register value.
pub open spec fn sext(v: int, n: nat) -> int {
    let low = v % (pow2(n) as int);
    if low >= pow2((n - 1) as nat) {
        low - pow2(n) + m64()
    } else {
        low
    }
}

/// The value that a register-register (`R`) or register-immediate (`I`)
/// instruction reads as its second operand: `rs2`, or the immediate's low
/// twelve bits sign-extended.
pub open spec fn second_operand(regs: Seq<u64>, info: RVInstrInfo) -> int {
    match info {
        RVInstrInfo::R { rs2, .. } => regs[rs2 as int] as int,
        RVInstrInfo::I { imm, .. } => sext(imm as int, 12),
        _ => 0,
    }
}

/// Whether `info` names registers as a register-register or
/// register-immediate instruction, with a destination other than `x0`.
pub open spec fn writes_register(info: RVInstrInfo) -> bool {
    match info {
        RVInstrInfo::R { rs1, rs2, rd } => rs1 < 32 && rs2 < 32 && 0 < rd < 32,
        RVInstrInfo::I { rs1, rd, .. } => rs1 < 32 && 0 < rd < 32,
        _ => false,
    }
}

/// The first source and the destination register of `info`.
pub open spec fn rs1_of(info: RVInstrInfo) -> int {
    match info {
        RVInstrInfo::R { rs1, .. } => rs1 as int,
        RVInstrInfo::I { rs1, .. } => rs1 as int,
        _ => 0,
    }
}

pub open spec fn rd_of(info: RVInstrInfo) -> int {
    match info {
        RVInstrInfo::R { rd, .. } => rd as int,
        RVInstrInfo::I { rd, .. } => rd as int,
        _ => 0,
    }
}

proof fn lemma_powers()
    ensures
        pow2(1) == 2,
        pow2(7) == 0x80,
        pow2(8) == 0x100,
        pow2(11) == 0x800,
        pow2(12) == 0x1000,
        pow2(13) == 0x2000,
        pow2(15) == 0x8000,
        pow2(16) == 0x1_0000,
        pow2(20) == 0x10_0000,
        pow2(21) == 0x20_0000,
        pow2(31) == 0x8000_0000,
        pow2(32) == 0x1_0000_0000,
        pow2(63) == 0x8000_0000_0000_0000,
        pow2(64) == 0x1_0000_0000_0000_0000,
{
    lemma2_to64();
    lemma2_to64_rest();
}

/// The register that a register operation reads first.
pub open spec fn first_operand(regs: Seq<u64>, info: RVInstrInfo) -> int {
    regs[rs1_of(info)] as int
}

/// The value that running `instr` with operands `info` leaves in the
/// destination register.
pub open spec fn written(instr: RiscvInstr, regs: Seq<u64>, pc: u64, mem: Seq<u8>, info: RVInstrInfo) -> int {
    execute_spec(regs, pc, mem, class_spec(instr), info).0[rd_of(info)] as int
}

proof fn lemma_div_pow2_bound(x: int, k: nat)
    requires
        0 <= x,
    ensures
        0 <= x / (pow2(k) as int) <= x,
{
    lemma_pow2_pos(k);
    lemma_div_pos_is_pos(x, pow2(k) as int);
    lemma_div_is_ordered_by_denominator(x, 1, pow2(k) as int);
}

proof fn lemma_second_operand_bound(regs: Seq<u64>, info: RVInstrInfo)
    ensures
        0 <= second_operand(regs, info) < m64(),
{
    lemma_powers();
    if let RVInstrInfo::I { imm, .. } = info {
        assert(0 <= (imm as int) % 0x1000 < 0x1000);
    }
}

proof fn lemma_writes_add(instr: RiscvInstr, regs: Seq<u64>, pc: u64, mem: Seq<u8>, info: RVInstrInfo)
    requires
        regs.len() == 32,
        writes_register(info),
        instr == RiscvInstr::ADD || instr == RiscvInstr::ADDI,
    ensures
        written(instr, regs, pc, mem, info) == (first_operand(regs, info) + second_operand(regs, info)) % m64(),
{
    lemma_powers();
    lemma_second_operand_bound(regs, info);
}

proof fn lemma_writes_sub(instr: RiscvInstr, regs: Seq<u64>, pc: u64, mem: Seq<u8>, info: RVInstrInfo)
    requires
        regs.len() == 32,
        writes_register(info),
        instr == RiscvInstr::SUB,
    ensures
        written(instr, regs, pc, mem, info) == (first_operand(regs, info) - second_operand(regs, info)) % m64(),
{
    lemma_powers();
    lemma_second_operand_bound(regs, info);
}

proof fn lemma_writes_and(instr: RiscvInstr, regs: Seq<u64>, pc: u64, mem: Seq<u8>, info: RVInstrInfo)
    requires
        regs.len() == 32,
        writes_register(info),
        instr == RiscvInstr::AND || instr == RiscvInstr::ANDI,
    ensures
        written(instr, regs, pc, mem, info) == ((first_operand(regs, info) as u64) & (second_operand(regs, info) as u64)) as int,
{
    lemma_powers();
    lemma_second_operand_bound(regs, info);
}

proof fn lemma_writes_or(instr: RiscvInstr, regs: Seq<u64>, pc: u64, mem: Seq<u8>, info: RVInstrInfo)
    requires
        regs.len() == 32,
        writes_register(info),
        instr == RiscvInstr::OR || instr == RiscvInstr::ORI,
    ensures
        written(instr, regs, pc, mem, info) == ((first_operand(regs, info) as u64) | (second_operand(regs, info) as u64)) as int,
{
    lemma_powers();
    lemma_second_operand_bound(regs, info);
}

proof fn lemma_writes_xor(instr: RiscvInstr, regs: Seq<u64>, pc: u64, mem: Seq<u8>, info: RVInstrInfo)
    requires
        regs.len() == 32,
        writes_register(info),
        instr == RiscvInstr::XOR || instr == RiscvInstr::XORI,
    ensures
        written(instr, regs, pc, mem, info) == ((first_operand(regs, info) as u64) ^ (second_operand(regs, info) as u64)) as int,
{
    lemma_powers();
    lemma_second_operand_bound(regs, info);
}

proof fn lemma_writes_slt(instr: RiscvInstr, regs: Seq<u64>, pc: u64, mem: Seq<u8>, info: RVInstrInfo)
    requires
        regs.len() == 32,
        writes_register(info),
        instr == RiscvInstr::SLT || instr == RiscvInstr::SLTI,
    ensures
        written(instr, regs, pc, mem, info) == (if int64(first_operand(regs, info) as u64) < int64(second_operand(regs, info) as u64) { 1int } else { 0 }),
{
    lemma_powers();
    lemma_second_operand_bound(regs, info);
}

proof fn lemma_writes_sltu(instr: RiscvInstr, regs: Seq<u64>, pc: u64, mem: Seq<u8>, info: RVInstrInfo)
    requires
        regs.len() == 32,
        writes_register(info),
        instr == RiscvInstr::SLTU || instr == RiscvInstr::SLTIU,
    ensures
        written(instr, regs, pc, mem, info) == (if first_operand(regs, info) < second_operand(regs, info) { 1int } else { 0 }),
{
    lemma_powers();
    lemma_second_operand_bound(regs, info);
}

proof fn lemma_writes_sll(instr: RiscvInstr, regs: Seq<u64>, pc: u64, mem: Seq<u8>, info: RVInstrInfo)
    requires
        regs.len() == 32,
        writes_register(info),
        instr == RiscvInstr::SLL || instr == RiscvInstr::SLLI,
    ensures
        written(instr, regs, pc, mem, info) == (first_operand(regs, info) * pow2((second_operand(regs, info) % 64) as nat)) % m64(),
{
    lemma_powers();
    lemma_second_operand_bound(regs, info);
}

proof fn lemma_writes_srl(instr: RiscvInstr, regs: Seq<u64>, pc: u64, mem: Seq<u8>, info: RVInstrInfo)
    requires
        regs.len() == 32,
        writes_register(info),
        instr == RiscvInstr::SRL || instr == RiscvInstr::SRLI,
    ensures
        written(instr, regs, pc, mem, info) == first_operand(regs, info) / (pow2((second_operand(regs, info) % 64) as nat) as int),
{
    lemma_powers();
    lemma_second_operand_bound(regs, info);
    let a = first_operand(regs, info);
    let b = second_operand(regs, info);
    lemma_div_pow2_bound(a, (b % 64) as nat);
}

proof fn lemma_writes_sra(instr: RiscvInstr, regs: Seq<u64>, pc: u64, mem: Seq<u8>, info: RVInstrInfo)
    requires
        regs.len() == 32,
        writes_register(info),
        instr == RiscvInstr::SRA || instr == RiscvInstr::SRAI,
    ensures
        written(instr, regs, pc, mem, info) == (int64(first_operand(regs, info) as u64) / (pow2((second_operand(regs, info) % 64) as nat) as int)) % m64(),
{
    lemma_powers();
    lemma_second_operand_bound(regs, info);
}

proof fn lemma_writes_mul(instr: RiscvInstr, regs: Seq<u64>, pc: u64, mem: Seq<u8>, info: RVInstrInfo)
    requires
        regs.len() == 32,
        writes_register(info),
        instr == RiscvInstr::MUL,
    ensures
        written(instr, regs, pc, mem, info) == (first_operand(regs, info) * second_operand(regs, info)) % m64(),
{
    lemma_powers();
    lemma_second_operand_bound(regs, info);
}

proof fn lemma_writes_mulh(instr: RiscvInstr, regs: Seq<u64>, pc: u64, mem: Seq<u8>, info: RVInstrInfo)
    requires
        regs.len() == 32,
        writes_register(info),
        instr == RiscvInstr::MULH,
    ensures
        written(instr, regs, pc, mem, info) == (int64(first_operand(regs, info) as u64) * int64(second_operand(regs, info) as u64) / m64()) % m64(),
{
    lemma_powers();
    lemma_second_operand_bound(regs, info);
}

proof fn lemma_writes_mulhsu(instr: RiscvInstr, regs: Seq<u64>, pc: u64, mem: Seq<u8>, info: RVInstrInfo)
    requires
        regs.len() == 32,
        writes_register(info),
        instr == RiscvInstr::MULHSU,
    ensures
        written(instr, regs, pc, mem, info) == (int64(first_operand(regs, info) as u64) * second_operand(regs, info) / m64()) % m64(),
{
    lemma_powers();
    lemma_second_operand_bound(regs, info);
}

proof fn lemma_writes_mulhu(instr: RiscvInstr, regs: Seq<u64>, pc: u64, mem: Seq<u8>, info: RVInstrInfo)
    requires
        regs.len() == 32,
        writes_register(info),
        instr == RiscvInstr::MULHU,
    ensures
        written(instr, regs, pc, mem, info) == first_operand(regs, info) * second_operand(regs, info) / m64(),
{
    lemma_powers();
    lemma_second_operand_bound(regs, info);
    let a = first_operand(regs, info);
    let b = second_operand(regs, info);
    assert(0 <= a * b / 0x1_0000_0000_0000_0000 < 0x1_0000_0000_0000_0000) by (nonlinear_arith)
        requires
            0 <= a < 0x1_0000_0000_0000_0000,
            0 <= b < 0x1_0000_0000_0000_0000,
    ;
}

proof fn lemma_writes_div(instr: RiscvInstr, regs: Seq<u64>, pc: u64, mem: Seq<u8>, info: RVInstrInfo)
    requires
        regs.len() == 32,
        writes_register(info),
        instr == RiscvInstr::DIV,
    ensures
        written(instr, regs, pc, mem, info) == (if second_operand(regs, info) == 0 { m64() - 1 } else { tdiv(int64(first_operand(regs, info) as u64), int64(second_operand(regs, info) as u64)) % m64() }),
{
    lemma_powers();
    lemma_second_operand_bound(regs, info);
}

proof fn lemma_writes_divu(instr: RiscvInstr, regs: Seq<u64>, pc: u64, mem: Seq<u8>, info: RVInstrInfo)
    requires
        regs.len() == 32,
        writes_register(info),
        instr == RiscvInstr::DIVU,
    ensures
        written(instr, regs, pc, mem, info) == (if second_operand(regs, info) == 0 { m64() - 1 } else { first_operand(regs, info) / second_operand(regs, info) }),
{
    lemma_powers();
    lemma_second_operand_bound(regs, info);
}

proof fn lemma_writes_rem(instr: RiscvInstr, regs: Seq<u64>, pc: u64, mem: Seq<u8>, info: RVInstrInfo)
    requires
        regs.len() == 32,
        writes_register(info),
        instr == RiscvInstr::REM,
    ensures
        written(instr, regs, pc, mem, info) == (if second_operand(regs, info) == 0 { first_operand(regs, info) } else { trem(int64(first_operand(regs, info) as u64), int64(second_operand(regs, info) as u64)) % m64() }),
{
    lemma_powers();
    lemma_second_operand_bound(regs, info);
}

proof fn lemma_writes_remu(instr: RiscvInstr, regs: Seq<u64>, pc: u64, mem: Seq<u8>, info: RVInstrInfo)
    requires
        regs.len() == 32,
        writes_register(info),
        instr == RiscvInstr::REMU,
    ensures
        written(instr, regs, pc, mem, info) == (if second_operand(regs, info) == 0 { first_operand(regs, info) } else { first_operand(regs, info) % second_operand(regs, info) }),
{
    lemma_powers();
    lemma_second_operand_bound(regs, info);
}

proof fn lemma_writes_addw(instr: RiscvInstr, regs: Seq<u64>, pc: u64, mem: Seq<u8>, info: RVInstrInfo)
    requires
        regs.len() == 32,
        writes_register(info),
        instr == RiscvInstr::ADDW || instr == RiscvInstr::ADDIW,
    ensures
        written(instr, regs, pc, mem, info) == sext32((first_operand(regs, info) + second_operand(regs, info)) % m32()),
{
    lemma_powers();
    lemma_second_operand_bound(regs, info);
    let a = first_operand(regs, info);
    let b = second_operand(regs, info);
    lemma_add_mod_noop(a, b, m32());
}

proof fn lemma_writes_subw(instr: RiscvInstr, regs: Seq<u64>, pc: u64, mem: Seq<u8>, info: RVInstrInfo)
    requires
        regs.len() == 32,
        writes_register(info),
        instr == RiscvInstr::SUBW,
    ensures
        written(instr, regs, pc, mem, info) == sext32((first_operand(regs, info) - second_operand(regs, info)) % m32()),
{
    lemma_powers();
    lemma_second_operand_bound(regs, info);
    let a = first_operand(regs, info);
    let b = second_operand(regs, info);
    lemma_sub_mod_noop(a, b, m32());
}

proof fn lemma_writes_sllw(instr: RiscvInstr, regs: Seq<u64>, pc: u64, mem: Seq<u8>, info: RVInstrInfo)
    requires
        regs.len() == 32,
        writes_register(info),
        instr == RiscvInstr::SLLW || instr == RiscvInstr::SLLIW,
    ensures
        written(instr, regs, pc, mem, info) == sext32(((first_operand(regs, info) % m32()) * pow2((second_operand(regs, info) % 32) as nat)) % m32()),
{
    lemma_powers();
    lemma_second_operand_bound(regs, info);
    let a = first_operand(regs, info);
    let b = second_operand(regs, info);
    lemma_mod_mod(b, 32, 0x800_0000);
}

proof fn lemma_writes_srlw(instr: RiscvInstr, regs: Seq<u64>, pc: u64, mem: Seq<u8>, info: RVInstrInfo)
    requires
        regs.len() == 32,
        writes_register(info),
        instr == RiscvInstr::SRLW || instr == RiscvInstr::SRLIW,
    ensures
        written(instr, regs, pc, mem, info) == sext32((first_operand(regs, info) % m32()) / (pow2((second_operand(regs, info) % 32) as nat) as int)),
{
    lemma_powers();
    lemma_second_operand_bound(regs, info);
    let a = first_operand(regs, info);
    let b = second_operand(regs, info);
    lemma_mod_mod(b, 32, 0x800_0000);
    lemma_div_pow2_bound(a % m32(), (b % 32) as nat);
}

proof fn lemma_writes_sraw(instr: RiscvInstr, regs: Seq<u64>, pc: u64, mem: Seq<u8>, info: RVInstrInfo)
    requires
        regs.len() == 32,
        writes_register(info),
        instr == RiscvInstr::SRAW || instr == RiscvInstr::SRAIW,
    ensures
        written(instr, regs, pc, mem, info) == sext32((int32(first_operand(regs, info) % m32()) / (pow2((second_operand(regs, info) % 32) as nat) as int)) % m32()),
{
    lemma_powers();
    lemma_second_operand_bound(regs, info);
    let a = first_operand(regs, info);
    let b = second_operand(regs, info);
    lemma_mod_mod(b, 32, 0x800_0000);
}

/// The value that each register operation writes, as RISC-V defines it
/// for 64-bit registers, with `rs1` as the first operand and `rs2` or the
/// sign-extended immediate as the second: sums, differences and products
/// wrap at `2^64`; the high multiplies give the upper half of the 128-bit
/// product; a division by zero gives all ones and its remainder the
/// dividend; shifts take the low six bits of the second operand as their
/// amount; the `W` operations work on the low 32 bits (shift amounts from
/// the low five bits) and sign-extend the 32-bit result.
pub proof fn law_register_operations(instr: RiscvInstr, regs: Seq<u64>, pc: u64, mem: Seq<u8>, info: RVInstrInfo)
    requires
        regs.len() == 32,
        writes_register(info),
    ensures
        instr == RiscvInstr::ADD || instr == RiscvInstr::ADDI ==> written(instr, regs, pc, mem, info) == (first_operand(regs, info) + second_operand(regs, info)) % m64(),
        instr == RiscvInstr::SUB ==> written(instr, regs, pc, mem, info) == (first_operand(regs, info) - second_operand(regs, info)) % m64(),
        instr == RiscvInstr::AND || instr == RiscvInstr::ANDI ==> written(instr, regs, pc, mem, info) == ((first_operand(regs, info) as u64) & (second_operand(regs, info) as u64)) as int,
        instr == RiscvInstr::OR || instr == RiscvInstr::ORI ==> written(instr, regs, pc, mem, info) == ((first_operand(regs, info) as u64) | (second_operand(regs, info) as u64)) as int,
        instr == RiscvInstr::XOR || instr == RiscvInstr::XORI ==> written(instr, regs, pc, mem, info) == ((first_operand(regs, info) as u64) ^ (second_operand(regs, info) as u64)) as int,
        instr == RiscvInstr::SLT || instr == RiscvInstr::SLTI ==> written(instr, regs, pc, mem, info) == (if int64(first_operand(regs, info) as u64) < int64(second_operand(regs, info) as u64) { 1int } else { 0 }),
        instr == RiscvInstr::SLTU || instr == RiscvInstr::SLTIU ==> written(instr, regs, pc, mem, info) == (if first_operand(regs, info) < second_operand(regs, info) { 1int } else { 0 }),
        instr == RiscvInstr::SLL || instr == RiscvInstr::SLLI ==> written(instr, regs, pc, mem, info) == (first_operand(regs, info) * pow2((second_operand(regs, info) % 64) as nat)) % m64(),
        instr == RiscvInstr::SRL || instr == RiscvInstr::SRLI ==> written(instr, regs, pc, mem, info) == first_operand(regs, info) / (pow2((second_operand(regs, info) % 64) as nat) as int),
        instr == RiscvInstr::SRA || instr == RiscvInstr::SRAI ==> written(instr, regs, pc, mem, info) == (int64(first_operand(regs, info) as u64) / (pow2((second_operand(regs, info) % 64) as nat) as int)) % m64(),
        instr == RiscvInstr::MUL ==> written(instr, regs, pc, mem, info) == (first_operand(regs, info) * second_operand(regs, info)) % m64(),
        instr == RiscvInstr::MULH ==> written(instr, regs, pc, mem, info) == (int64(first_operand(regs, info) as u64) * int64(second_operand(regs, info) as u64) / m64()) % m64(),
        instr == RiscvInstr::MULHSU ==> written(instr, regs, pc, mem, info) == (int64(first_operand(regs, info) as u64) * second_operand(regs, info) / m64()) % m64(),
        instr == RiscvInstr::MULHU ==> written(instr, regs, pc, mem, info) == first_operand(regs, info) * second_operand(regs, info) / m64(),
        instr == RiscvInstr::DIV ==> written(instr, regs, pc, mem, info) == (if second_operand(regs, info) == 0 { m64() - 1 } else { tdiv(int64(first_operand(regs, info) as u64), int64(second_operand(regs, info) as u64)) % m64() }),
        instr == RiscvInstr::DIVU ==> written(instr, regs, pc, mem, info) == (if second_operand(regs, info) == 0 { m64() - 1 } else { first_operand(regs, info) / second_operand(regs, info) }),
        instr == RiscvInstr::REM ==> written(instr, regs, pc, mem, info) == (if second_operand(regs, info) == 0 { first_operand(regs, info) } else { trem(int64(first_operand(regs, info) as u64), int64(second_operand(regs, info) as u64)) % m64() }),
        instr == RiscvInstr::REMU ==> written(instr, regs, pc, mem, info) == (if second_operand(regs, info) == 0 { first_operand(regs, info) } else { first_operand(regs, info) % second_operand(regs, info) }),
        instr == RiscvInstr::ADDW || instr == RiscvInstr::ADDIW ==> written(instr, regs, pc, mem, info) == sext32((first_operand(regs, info) + second_operand(regs, info)) % m32()),
        instr == RiscvInstr::SUBW ==> written(instr, regs, pc, mem, info) == sext32((first_operand(regs, info) - second_operand(regs, info)) % m32()),
        instr == RiscvInstr::SLLW || instr == RiscvInstr::SLLIW ==> written(instr, regs, pc, mem, info) == sext32(((first_operand(regs, info) % m32()) * pow2((second_operand(regs, info) % 32) as nat)) % m32()),
        instr == RiscvInstr::SRLW || instr == RiscvInstr::SRLIW ==> written(instr, regs, pc, mem, info) == sext32((first_operand(regs, info) % m32()) / (pow2((second_operand(regs, info) % 32) as nat) as int)),
        instr == RiscvInstr::SRAW || instr == RiscvInstr::SRAIW ==> written(instr, regs, pc, mem, info) == sext32((int32(first_operand(regs, info) % m32()) / (pow2((second_operand(regs, info) % 32) as nat) as int)) % m32()),
{
    if instr == RiscvInstr::ADD || instr == RiscvInstr::ADDI {
        lemma_writes_add(instr, regs, pc, mem, info);
    }
    if instr == RiscvInstr::SUB {
        lemma_writes_sub(instr, regs, pc, mem, info);
    }
    if instr == RiscvInstr::AND || instr == RiscvInstr::ANDI {
        lemma_writes_and(instr, regs, pc, mem, info);
    }
    if instr == RiscvInstr::OR || instr == RiscvInstr::ORI {
        lemma_writes_or(instr, regs, pc, mem, info);
    }
    if instr == RiscvInstr::XOR || instr == RiscvInstr::XORI {
        lemma_writes_xor(instr, regs, pc, mem, info);
    }
    if instr == RiscvInstr::SLT || instr == RiscvInstr::SLTI {
        lemma_writes_slt(instr, regs, pc, mem, info);
    }
    if instr == RiscvInstr::SLTU || instr == RiscvInstr::SLTIU {
        lemma_writes_sltu(instr, regs, pc, mem, info);
    }
    if instr == RiscvInstr::SLL || instr == RiscvInstr::SLLI {
        lemma_writes_sll(instr, regs, pc, mem, info);
    }
    if instr == RiscvInstr::SRL || instr == RiscvInstr::SRLI {
        lemma_writes_srl(instr, regs, pc, mem, info);
    }
    if instr == RiscvInstr::SRA || instr == RiscvInstr::SRAI {
        lemma_writes_sra(instr, regs, pc, mem, info);
    }
    if instr == RiscvInstr::MUL {
        lemma_writes_mul(instr, regs, pc, mem, info);
    }
    if instr == RiscvInstr::MULH {
        lemma_writes_mulh(instr, regs, pc, mem, info);
    }
    if instr == RiscvInstr::MULHSU {
        lemma_writes_mulhsu(instr, regs, pc, mem, info);
    }
    if instr == RiscvInstr::MULHU {
        lemma_writes_mulhu(instr, regs, pc, mem, info);
    }
    if instr == RiscvInstr::DIV {
        lemma_writes_div(instr, regs, pc, mem, info);
    }
    if instr == RiscvInstr::DIVU {
        lemma_writes_divu(instr, regs, pc, mem, info);
    }
    if instr == RiscvInstr::REM {
        lemma_writes_rem(instr, regs, pc, mem, info);
    }
    if instr == RiscvInstr::REMU {
        lemma_writes_remu(instr, regs, pc, mem, info);
    }
    if instr == RiscvInstr::ADDW || instr == RiscvInstr::ADDIW {
        lemma_writes_addw(instr, regs, pc, mem, info);
    }
    if instr == RiscvInstr::SUBW {
        lemma_writes_subw(instr, regs, pc, mem, info);
    }
    if instr == RiscvInstr::SLLW || instr == RiscvInstr::SLLIW {
        lemma_writes_sllw(instr, regs, pc, mem, info);
    }
    if instr == RiscvInstr::SRLW || instr == RiscvInstr::SRLIW {
        lemma_writes_srlw(instr, regs, pc, mem, info);
    }
    if instr == RiscvInstr::SRAW || instr == RiscvInstr::SRAIW {
        lemma_writes_sraw(instr, regs, pc, mem, info);
    }
}

/// The address that a branch at `pc` with immediate `imm` goes to: `pc`
/// plus the immediate's low thirteen bits sign-extended, wrapping.
pub open spec fn branch_target(pc: u64, imm: u64) -> int {
    (pc + sext(imm as int, 13)) % m64()
}

/// The address of the next instruction after `pc`.
pub open spec fn next_pc(pc: u64) -> int {
    (pc + 4) % m64()
}

/// Where a branch `instr` at `pc` with operands `rs1`, `rs2` and immediate
/// `imm` goes.
pub open spec fn branch_goes(instr: RiscvInstr, regs: Seq<u64>, pc: u64, mem: Seq<u8>, rs1: u8, rs2: u8, imm: u64) -> int {
    execute_spec(regs, pc, mem, class_spec(instr), RVInstrInfo::B { rs1, rs2, imm }).1 as int
}

proof fn lemma_branch_beq(instr: RiscvInstr, regs: Seq<u64>, pc: u64, mem: Seq<u8>, rs1: u8, rs2: u8, imm: u64)
    requires
        regs.len() == 32,
        rs1 < 32,
        rs2 < 32,
        instr == RiscvInstr::BEQ,
    ensures
        branch_goes(instr, regs, pc, mem, rs1, rs2, imm) == (if regs[rs1 as int] == regs[rs2 as int] {
            branch_target(pc, imm)
        } else {
            next_pc(pc)
        }),
{
    lemma_powers();
    assert(0 <= (imm as int) % 0x2000 < 0x2000);
}

proof fn lemma_branch_bne(instr: RiscvInstr, regs: Seq<u64>, pc: u64, mem: Seq<u8>, rs1: u8, rs2: u8, imm: u64)
    requires
        regs.len() == 32,
        rs1 < 32,
        rs2 < 32,
        instr == RiscvInstr::BNE,
    ensures
        branch_goes(instr, regs, pc, mem, rs1, rs2, imm) == (if regs[rs1 as int] != regs[rs2 as int] {
            branch_target(pc, imm)
        } else {
            next_pc(pc)
        }),
{
    lemma_powers();
    assert(0 <= (imm as int) % 0x2000 < 0x2000);
}

proof fn lemma_branch_blt(instr: RiscvInstr, regs: Seq<u64>, pc: u64, mem: Seq<u8>, rs1: u8, rs2: u8, imm: u64)
    requires
        regs.len() == 32,
        rs1 < 32,
        rs2 < 32,
        instr == RiscvInstr::BLT,
    ensures
        branch_goes(instr, regs, pc, mem, rs1, rs2, imm) == (if int64(regs[rs1 as int]) < int64(regs[rs2 as int]) {
            branch_target(pc, imm)
        } else {
            next_pc(pc)
        }),
{
    lemma_powers();
    assert(0 <= (imm as int) % 0x2000 < 0x2000);
}

proof fn lemma_branch_bge(instr: RiscvInstr, regs: Seq<u64>, pc: u64, mem: Seq<u8>, rs1: u8, rs2: u8, imm: u64)
    requires
        regs.len() == 32,
        rs1 < 32,
        rs2 < 32,
        instr == RiscvInstr::BGE,
    ensures
        branch_goes(instr, regs, pc, mem, rs1, rs2, imm) == (if int64(regs[rs1 as int]) >= int64(regs[rs2 as int]) {
            branch_target(pc, imm)
        } else {
            next_pc(pc)
        }),
{
    lemma_powers();
    assert(0 <= (imm as int) % 0x2000 < 0x2000);
}

proof fn lemma_branch_bltu(instr: RiscvInstr, regs: Seq<u64>, pc: u64, mem: Seq<u8>, rs1: u8, rs2: u8, imm: u64)
    requires
        regs.len() == 32,
        rs1 < 32,
        rs2 < 32,
        instr == RiscvInstr::BLTU,
    ensures
        branch_goes(instr, regs, pc, mem, rs1, rs2, imm) == (if regs[rs1 as int] < regs[rs2 as int] {
            branch_target(pc, imm)
        } else {
            next_pc(pc)
        }),
{
    lemma_powers();
    assert(0 <= (imm as int) % 0x2000 < 0x2000);
}

proof fn lemma_branch_bgeu(instr: RiscvInstr, regs: Seq<u64>, pc: u64, mem: Seq<u8>, rs1: u8, rs2: u8, imm: u64)
    requires
        regs.len() == 32,
        rs1 < 32,
        rs2 < 32,
        instr == RiscvInstr::BGEU,
    ensures
        branch_goes(instr, regs, pc, mem, rs1, rs2, imm) == (if regs[rs1 as int] >= regs[rs2 as int] {
            branch_target(pc, imm)
        } else {
            next_pc(pc)
        }),
{
    lemma_powers();
    assert(0 <= (imm as int) % 0x2000 < 0x2000);
}

/// Each branch goes to `pc` plus its sign-extended immediate when its
/// condition holds, and to the next instruction otherwise: BEQ on equal
/// registers, BNE on different ones, BLT and BGE on the signed order, BLTU
/// and BGEU on the unsigned order.
pub proof fn law_branches(instr: RiscvInstr, regs: Seq<u64>, pc: u64, mem: Seq<u8>, rs1: u8, rs2: u8, imm: u64)
    requires
        regs.len() == 32,
        rs1 < 32,
        rs2 < 32,
    ensures
        instr == RiscvInstr::BEQ ==> branch_goes(instr, regs, pc, mem, rs1, rs2, imm) == (if regs[rs1 as int] == regs[rs2 as int] { branch_target(pc, imm) } else { next_pc(pc) }),
        instr == RiscvInstr::BNE ==> branch_goes(instr, regs, pc, mem, rs1, rs2, imm) == (if regs[rs1 as int] != regs[rs2 as int] { branch_target(pc, imm) } else { next_pc(pc) }),
        instr == RiscvInstr::BLT ==> branch_goes(instr, regs, pc, mem, rs1, rs2, imm) == (if int64(regs[rs1 as int]) < int64(regs[rs2 as int]) { branch_target(pc, imm) } else { next_pc(pc) }),
        instr == RiscvInstr::BGE ==> branch_goes(instr, regs, pc, mem, rs1, rs2, imm) == (if int64(regs[rs1 as int]) >= int64(regs[rs2 as int]) { branch_target(pc, imm) } else { next_pc(pc) }),
        instr == RiscvInstr::BLTU ==> branch_goes(instr, regs, pc, mem, rs1, rs2, imm) == (if regs[rs1 as int] < regs[rs2 as int] { branch_target(pc, imm) } else { next_pc(pc) }),
        instr == RiscvInstr::BGEU ==> branch_goes(instr, regs, pc, mem, rs1, rs2, imm) == (if regs[rs1 as int] >= regs[rs2 as int] { branch_target(pc, imm) } else { next_pc(pc) }),
{
    if instr == RiscvInstr::BEQ {
        lemma_branch_beq(instr, regs, pc, mem, rs1, rs2, imm);
    }
    if instr == RiscvInstr::BNE {
        lemma_branch_bne(instr, regs, pc, mem, rs1, rs2, imm);
    }
    if instr == RiscvInstr::BLT {
        lemma_branch_blt(instr, regs, pc, mem, rs1, rs2, imm);
    }
    if instr == RiscvInstr::BGE {
        lemma_branch_bge(instr, regs, pc, mem, rs1, rs2, imm);
    }
    if instr == RiscvInstr::BLTU {
        lemma_branch_bltu(instr, regs, pc, mem, rs1, rs2, imm);
    }
    if instr == RiscvInstr::BGEU {
        lemma_branch_bgeu(instr, regs, pc, mem, rs1, rs2, imm);
    }
}

/// The offset in RAM of the address `rs1` plus the sign-extended twelve-bit
/// immediate, wrapping.
pub open spec fn mem_offset(regs: Seq<u64>, rs1: u8, imm: u64) -> int {
    ((regs[rs1 as int] + sext(imm as int, 12)) % m64()) - BASE_ADDR
}

/// The value that a load `instr` leaves in `rd`.
pub open spec fn loaded(instr: RiscvInstr, regs: Seq<u64>, pc: u64, mem: Seq<u8>, rs1: u8, rd: u8, imm: u64) -> int {
    execute_spec(regs, pc, mem, class_spec(instr), RVInstrInfo::I { rs1, rd, imm }).0[rd as int] as int
}

/// The memory after a store `instr`.
pub open spec fn stored(instr: RiscvInstr, regs: Seq<u64>, pc: u64, mem: Seq<u8>, rs1: u8, rs2: u8, imm: u64) -> Seq<u8> {
    execute_spec(regs, pc, mem, class_spec(instr), RVInstrInfo::S { rs1, rs2, imm }).2
}

proof fn lemma_offset_agrees(regs: Seq<u64>, rs1: u8, imm: u64)
    requires
        regs.len() == 32,
        rs1 < 32,
    ensures
        mem_offset(regs, rs1, imm) == crate::isa::riscv32::executor::mem_addr(regs, RVInstrInfo::I { rs1, rd: 0, imm }) - BASE_ADDR,
        forall|rs2: u8| mem_offset(regs, rs1, imm) == #[trigger] crate::isa::riscv32::executor::mem_addr(regs, RVInstrInfo::S { rs1, rs2, imm }) - BASE_ADDR,
{
    lemma_powers();
    assert(0 <= (imm as int) % 0x1000 < 0x1000);
}

proof fn lemma_load_lb(instr: RiscvInstr, regs: Seq<u64>, pc: u64, mem: Seq<u8>, rs1: u8, rd: u8, imm: u64)
    requires
        regs.len() == 32,
        rs1 < 32,
        0 < rd < 32,
        instr == RiscvInstr::LB,
    ensures
        loaded(instr, regs, pc, mem, rs1, rd, imm) == sext(le(mem, mem_offset(regs, rs1, imm), 1) as int, 8),
{
    lemma_powers();
    lemma_offset_agrees(regs, rs1, imm);
    crate::bytes::lemma_le_bound(mem, mem_offset(regs, rs1, imm), 1);
    lemma2_to64_rest();
}

proof fn lemma_load_lbu(instr: RiscvInstr, regs: Seq<u64>, pc: u64, mem: Seq<u8>, rs1: u8, rd: u8, imm: u64)
    requires
        regs.len() == 32,
        rs1 < 32,
        0 < rd < 32,
        instr == RiscvInstr::LBU,
    ensures
        loaded(instr, regs, pc, mem, rs1, rd, imm) == le(mem, mem_offset(regs, rs1, imm), 1) as int,
{
    lemma_powers();
    lemma_offset_agrees(regs, rs1, imm);
    crate::bytes::lemma_le_bound(mem, mem_offset(regs, rs1, imm), 1);
    lemma2_to64_rest();
}

proof fn lemma_load_lh(instr: RiscvInstr, regs: Seq<u64>, pc: u64, mem: Seq<u8>, rs1: u8, rd: u8, imm: u64)
    requires
        regs.len() == 32,
        rs1 < 32,
        0 < rd < 32,
        instr == RiscvInstr::LH,
    ensures
        loaded(instr, regs, pc, mem, rs1, rd, imm) == sext(le(mem, mem_offset(regs, rs1, imm), 2) as int, 16),
{
    lemma_powers();
    lemma_offset_agrees(regs, rs1, imm);
    crate::bytes::lemma_le_bound(mem, mem_offset(regs, rs1, imm), 2);
    lemma2_to64_rest();
}

proof fn lemma_load_lhu(instr: RiscvInstr, regs: Seq<u64>, pc: u64, mem: Seq<u8>, rs1: u8, rd: u8, imm: u64)
    requires
        regs.len() == 32,
        rs1 < 32,
        0 < rd < 32,
        instr == RiscvInstr::LHU,
    ensures
        loaded(instr, regs, pc, mem, rs1, rd, imm) == le(mem, mem_offset(regs, rs1, imm), 2) as int,
{
    lemma_powers();
    lemma_offset_agrees(regs, rs1, imm);
    crate::bytes::lemma_le_bound(mem, mem_offset(regs, rs1, imm), 2);
    lemma2_to64_rest();
}

proof fn lemma_load_lw(instr: RiscvInstr, regs: Seq<u64>, pc: u64, mem: Seq<u8>, rs1: u8, rd: u8, imm: u64)
    requires
        regs.len() == 32,
        rs1 < 32,
        0 < rd < 32,
        instr == RiscvInstr::LW,
    ensures
        loaded(instr, regs, pc, mem, rs1, rd, imm) == sext(le(mem, mem_offset(regs, rs1, imm), 4) as int, 32),
{
    lemma_powers();
    lemma_offset_agrees(regs, rs1, imm);
    crate::bytes::lemma_le_bound(mem, mem_offset(regs, rs1, imm), 4);
    lemma2_to64_rest();
}

proof fn lemma_load_lwu(instr: RiscvInstr, regs: Seq<u64>, pc: u64, mem: Seq<u8>, rs1: u8, rd: u8, imm: u64)
    requires
        regs.len() == 32,
        rs1 < 32,
        0 < rd < 32,
        instr == RiscvInstr::LWU,
    ensures
        loaded(instr, regs, pc, mem, rs1, rd, imm) == le(mem, mem_offset(regs, rs1, imm), 4) as int,
{
    lemma_powers();
    lemma_offset_agrees(regs, rs1, imm);
    crate::bytes::lemma_le_bound(mem, mem_offset(regs, rs1, imm), 4);
    lemma2_to64_rest();
}

proof fn lemma_load_ld(instr: RiscvInstr, regs: Seq<u64>, pc: u64, mem: Seq<u8>, rs1: u8, rd: u8, imm: u64)
    requires
        regs.len() == 32,
        rs1 < 32,
        0 < rd < 32,
        instr == RiscvInstr::LD,
    ensures
        loaded(instr, regs, pc, mem, rs1, rd, imm) == le(mem, mem_offset(regs, rs1, imm), 8) as int,
{
    lemma_powers();
    lemma_offset_agrees(regs, rs1, imm);
    crate::bytes::lemma_le_bound(mem, mem_offset(regs, rs1, imm), 8);
    lemma2_to64_rest();
}

/// Each load reads, at `rs1` plus its sign-extended immediate, the number
/// of bytes it names, little endian: LB, LH and LW sign-extend the value,
/// LBU, LHU and LWU zero-extend it, and LD reads the whole register.
pub proof fn law_loads(instr: RiscvInstr, regs: Seq<u64>, pc: u64, mem: Seq<u8>, rs1: u8, rd: u8, imm: u64)
    requires
        regs.len() == 32,
        rs1 < 32,
        0 < rd < 32,
    ensures
        instr == RiscvInstr::LB ==> loaded(instr, regs, pc, mem, rs1, rd, imm) == sext(le(mem, mem_offset(regs, rs1, imm), 1) as int, 8),
        instr == RiscvInstr::LBU ==> loaded(instr, regs, pc, mem, rs1, rd, imm) == le(mem, mem_offset(regs, rs1, imm), 1) as int,
        instr == RiscvInstr::LH ==> loaded(instr, regs, pc, mem, rs1, rd, imm) == sext(le(mem, mem_offset(regs, rs1, imm), 2) as int, 16),
        instr == RiscvInstr::LHU ==> loaded(instr, regs, pc, mem, rs1, rd, imm) == le(mem, mem_offset(regs, rs1, imm), 2) as int,
        instr == RiscvInstr::LW ==> loaded(instr, regs, pc, mem, rs1, rd, imm) == sext(le(mem, mem_offset(regs, rs1, imm), 4) as int, 32),
        instr == RiscvInstr::LWU ==> loaded(instr, regs, pc, mem, rs1, rd, imm) == le(mem, mem_offset(regs, rs1, imm), 4) as int,
        instr == RiscvInstr::LD ==> loaded(instr, regs, pc, mem, rs1, rd, imm) == le(mem, mem_offset(regs, rs1, imm), 8) as int,
{
    if instr == RiscvInstr::LB {
        lemma_load_lb(instr, regs, pc, mem, rs1, rd, imm);
    }
    if instr == RiscvInstr::LBU {
        lemma_load_lbu(instr, regs, pc, mem, rs1, rd, imm);
    }
    if instr == RiscvInstr::LH {
        lemma_load_lh(instr, regs, pc, mem, rs1, rd, imm);
    }
    if instr == RiscvInstr::LHU {
        lemma_load_lhu(instr, regs, pc, mem, rs1, rd, imm);
    }
    if instr == RiscvInstr::LW {
        lemma_load_lw(instr, regs, pc, mem, rs1, rd, imm);
    }
    if instr == RiscvInstr::LWU {
        lemma_load_lwu(instr, regs, pc, mem, rs1, rd, imm);
    }
    if instr == RiscvInstr::LD {
        lemma_load_ld(instr, regs, pc, mem, rs1, rd, imm);
    }
}

proof fn lemma_store_sb(instr: RiscvInstr, regs: Seq<u64>, pc: u64, mem: Seq<u8>, rs1: u8, rs2: u8, imm: u64)
    requires
        regs.len() == 32,
        rs1 < 32,
        rs2 < 32,
        instr == RiscvInstr::SB,
    ensures
        stored(instr, regs, pc, mem, rs1, rs2, imm) == store_le(mem, mem_offset(regs, rs1, imm), 1, regs[rs2 as int] as int % 0x100),
{
    lemma_powers();
    lemma_offset_agrees(regs, rs1, imm);
    lemma2_to64_rest();
    assert(crate::isa::riscv32::executor::mem_addr(regs, RVInstrInfo::S { rs1, rs2, imm }) - BASE_ADDR == mem_offset(regs, rs1, imm));
}

proof fn lemma_store_sh(instr: RiscvInstr, regs: Seq<u64>, pc: u64, mem: Seq<u8>, rs1: u8, rs2: u8, imm: u64)
    requires
        regs.len() == 32,
        rs1 < 32,
        rs2 < 32,
        instr == RiscvInstr::SH,
    ensures
        stored(instr, regs, pc, mem, rs1, rs2, imm) == store_le(mem, mem_offset(regs, rs1, imm), 2, regs[rs2 as int] as int % 0x1_0000),
{
    lemma_powers();
    lemma_offset_agrees(regs, rs1, imm);
    lemma2_to64_rest();
    assert(crate::isa::riscv32::executor::mem_addr(regs, RVInstrInfo::S { rs1, rs2, imm }) - BASE_ADDR == mem_offset(regs, rs1, imm));
}

proof fn lemma_store_sw(instr: RiscvInstr, regs: Seq<u64>, pc: u64, mem: Seq<u8>, rs1: u8, rs2: u8, imm: u64)
    requires
        regs.len() == 32,
        rs1 < 32,
        rs2 < 32,
        instr == RiscvInstr::SW,
    ensures
        stored(instr, regs, pc, mem, rs1, rs2, imm) == store_le(mem, mem_offset(regs, rs1, imm), 4, regs[rs2 as int] as int % 0x1_0000_0000),
{
    lemma_powers();
    lemma_offset_agrees(regs, rs1, imm);
    lemma2_to64_rest();
    assert(crate::isa::riscv32::executor::mem_addr(regs, RVInstrInfo::S { rs1, rs2, imm }) - BASE_ADDR == mem_offset(regs, rs1, imm));
}

proof fn lemma_store_sd(instr: RiscvInstr, regs: Seq<u64>, pc: u64, mem: Seq<u8>, rs1: u8, rs2: u8, imm: u64)
    requires
        regs.len() == 32,
        rs1 < 32,
        rs2 < 32,
        instr == RiscvInstr::SD,
    ensures
        stored(instr, regs, pc, mem, rs1, rs2, imm) == store_le(mem, mem_offset(regs, rs1, imm), 8, regs[rs2 as int] as int % 0x1_0000_0000_0000_0000),
{
    lemma_powers();
    lemma_offset_agrees(regs, rs1, imm);
    lemma2_to64_rest();
    assert(crate::isa::riscv32::executor::mem_addr(regs, RVInstrInfo::S { rs1, rs2, imm }) - BASE_ADDR == mem_offset(regs, rs1, imm));
}

/// Each store writes, at `rs1` plus its sign-extended immediate, the low
/// bytes of `rs2` that it names, little endian: SB one, SH two, SW four and
/// SD eight.
pub proof fn law_stores(instr: RiscvInstr, regs: Seq<u64>, pc: u64, mem: Seq<u8>, rs1: u8, rs2: u8, imm: u64)
    requires
        regs.len() == 32,
        rs1 < 32,
        rs2 < 32,
    ensures
        instr == RiscvInstr::SB ==> stored(instr, regs, pc, mem, rs1, rs2, imm) == store_le(mem, mem_offset(regs, rs1, imm), 1, regs[rs2 as int] as int % 0x100),
        instr == RiscvInstr::SH ==> stored(instr, regs, pc, mem, rs1, rs2, imm) == store_le(mem, mem_offset(regs, rs1, imm), 2, regs[rs2 as int] as int % 0x1_0000),
        instr == RiscvInstr::SW ==> stored(instr, regs, pc, mem, rs1, rs2, imm) == store_le(mem, mem_offset(regs, rs1, imm), 4, regs[rs2 as int] as int % 0x1_0000_0000),
        instr == RiscvInstr::SD ==> stored(instr, regs, pc, mem, rs1, rs2, imm) == store_le(mem, mem_offset(regs, rs1, imm), 8, regs[rs2 as int] as int % 0x1_0000_0000_0000_0000),
{
    if instr == RiscvInstr::SB {
        lemma_store_sb(instr, regs, pc, mem, rs1, rs2, imm);
    }
    if instr == RiscvInstr::SH {
        lemma_store_sh(instr, regs, pc, mem, rs1, rs2, imm);
    }
    if instr == RiscvInstr::SW {
        lemma_store_sw(instr, regs, pc, mem, rs1, rs2, imm);
    }
    if instr == RiscvInstr::SD {
        lemma_store_sd(instr, regs, pc, mem, rs1, rs2, imm);
    }
}

/// The registers and program counter after `instr` with operands `info`.
pub open spec fn after(instr: RiscvInstr, regs: Seq<u64>, pc: u64, mem: Seq<u8>, info: RVInstrInfo) -> (Seq<u64>, u64) {
    let r = execute_spec(regs, pc, mem, class_spec(instr), info);
    (r.0, r.1)
}

proof fn lemma_jal(regs: Seq<u64>, pc: u64, mem: Seq<u8>, rd: u8, imm: u64)
    requires
        regs.len() == 32,
        0 < rd < 32,
    ensures
        after(RiscvInstr::JAL, regs, pc, mem, RVInstrInfo::J { rd, imm }).0[rd as int] == next_pc(pc),
        after(RiscvInstr::JAL, regs, pc, mem, RVInstrInfo::J { rd, imm }).1 == (pc + sext(imm as int, 21)) % m64(),
{
    lemma_powers();
    assert(0 <= (imm as int) % 0x20_0000 < 0x20_0000);
}

proof fn lemma_jalr(regs: Seq<u64>, pc: u64, mem: Seq<u8>, rs1: u8, rd: u8, imm: u64)
    requires
        regs.len() == 32,
        rs1 < 32,
        0 < rd < 32,
        pc + 4 < m64(),
    ensures
        after(RiscvInstr::JALR, regs, pc, mem, RVInstrInfo::I { rs1, rd, imm }).0[rd as int] == pc + 4,
        ({
            let t = (regs[rs1 as int] + sext(imm as int, 12)) % m64();
            after(RiscvInstr::JALR, regs, pc, mem, RVInstrInfo::I { rs1, rd, imm }).1 == t - t % 2
        }),
{
    lemma_powers();
    assert(0 <= (imm as int) % 0x1000 < 0x1000);
    let t = crate::isa::riscv32::executor::wadd(regs[rs1 as int], crate::bits::sign_extend_spec(imm, 12) as u64);
    assert(t & !1u64 == t - t % 2) by (bit_vector);
}

proof fn lemma_upper(regs: Seq<u64>, pc: u64, mem: Seq<u8>, rd: u8, imm: u64)
    requires
        regs.len() == 32,
        0 < rd < 32,
    ensures
        after(RiscvInstr::LUI, regs, pc, mem, RVInstrInfo::U { rd, imm }).0[rd as int] == sext(imm as int, 32),
        after(RiscvInstr::AUIPC, regs, pc, mem, RVInstrInfo::U { rd, imm }).0[rd as int] == (pc + sext(imm as int, 32))
            % m64(),
{
    lemma_powers();
    assert(0 <= (imm as int) % 0x1_0000_0000 < 0x1_0000_0000);
}

/// The jumps and upper immediates: JAL writes the next instruction's
/// address into `rd` and goes to `pc` plus its sign-extended 21-bit
/// immediate; JALR writes `pc + 4` and goes to `rs1` plus its sign-extended
/// 12-bit immediate with the low bit cleared; LUI writes its 32-bit
/// immediate sign-extended, and AUIPC `pc` plus that immediate.
pub proof fn law_jumps_and_upper(regs: Seq<u64>, pc: u64, mem: Seq<u8>, rs1: u8, rd: u8, imm: u64)
    requires
        regs.len() == 32,
        rs1 < 32,
        0 < rd < 32,
    ensures
        after(RiscvInstr::JAL, regs, pc, mem, RVInstrInfo::J { rd, imm }).0[rd as int] == next_pc(pc),
        after(RiscvInstr::JAL, regs, pc, mem, RVInstrInfo::J { rd, imm }).1 == (pc + sext(imm as int, 21)) % m64(),
        pc + 4 < m64() ==> after(RiscvInstr::JALR, regs, pc, mem, RVInstrInfo::I { rs1, rd, imm }).0[rd as int] == pc + 4,
        ({
            let t = (regs[rs1 as int] + sext(imm as int, 12)) % m64();
            pc + 4 < m64() ==> after(RiscvInstr::JALR, regs, pc, mem, RVInstrInfo::I { rs1, rd, imm }).1 == t - t % 2
        }),
        after(RiscvInstr::LUI, regs, pc, mem, RVInstrInfo::U { rd, imm }).0[rd as int] == sext(imm as int, 32),
        after(RiscvInstr::AUIPC, regs, pc, mem, RVInstrInfo::U { rd, imm }).0[rd as int] == (pc + sext(imm as int, 32))
            % m64(),
{
    lemma_jal(regs, pc, mem, rd, imm);
    if pc + 4 < m64() {
        lemma_jalr(regs, pc, mem, rs1, rd, imm);
    }
    lemma_upper(regs, pc, mem, rd, imm);
}

proof fn lemma_lookup_opcode_at(descs: Seq<RV32Desc>, k: int)
    requires
        0 <= k < descs.len(),
        forall|j: int| k < j < descs.len() ==> #[trigger] descs[j].opcode != descs[k].opcode,
    ensures
        lookup_opcode(descs, descs[k].opcode as int) == Some(partial_of(descs[k])),
    decreases descs.len(),
{
    if k < descs.len() - 1 {
        let t = descs.drop_last();
        assert(descs[descs.len() - 1].opcode != descs[k].opcode);
        assert forall|j: int| k < j < t.len() implies #[trigger] t[j].opcode != t[k].opcode by {
            assert(t[j] == descs[j] && t[k] == descs[k]);
        }
        lemma_lookup_opcode_at(t, k);
    }
}

proof fn lemma_lookup_f3_at(descs: Seq<RV32Desc>, k: int)
    requires
        0 <= k < descs.len(),
        uses_f3(descs[k]),
        forall|j: int|
            k < j < descs.len() ==> !(uses_f3(#[trigger] descs[j]) && descs[j].opcode == descs[k].opcode && descs[j].funct3
                == descs[k].funct3),
    ensures
        lookup_f3(descs, descs[k].opcode as int, descs[k].funct3 as int) == Some((descs[k].instr, descs[k].format)),
    decreases descs.len(),
{
    if k < descs.len() - 1 {
        let t = descs.drop_last();
        let n = descs.len() - 1;
        assert(!(uses_f3(descs[n]) && descs[n].opcode == descs[k].opcode && descs[n].funct3 == descs[k].funct3));
        assert forall|j: int|
            k < j < t.len() implies !(uses_f3(#[trigger] t[j]) && t[j].opcode == t[k].opcode && t[j].funct3
                == t[k].funct3) by {
            assert(t[j] == descs[j] && t[k] == descs[k]);
        }
        lemma_lookup_f3_at(t, k);
    }
}

proof fn lemma_lookup_f7_at(descs: Seq<RV32Desc>, k: int)
    requires
        0 <= k < descs.len(),
        descs[k].format == InstrFormat::R,
        forall|j: int|
            k < j < descs.len() ==> !((#[trigger] descs[j]).format == InstrFormat::R && descs[j].opcode == descs[k].opcode
                && descs[j].funct3 == descs[k].funct3 && descs[j].funct7 == descs[k].funct7),
    ensures
        lookup_f7(descs, descs[k].opcode as int, descs[k].funct3 as int, descs[k].funct7 as int) == Some(
            (descs[k].instr, descs[k].format),
        ),
    decreases descs.len(),
{
    if k < descs.len() - 1 {
        let t = descs.drop_last();
        let n = descs.len() - 1;
        assert(!(descs[n].format == InstrFormat::R && descs[n].opcode == descs[k].opcode && descs[n].funct3
            == descs[k].funct3 && descs[n].funct7 == descs[k].funct7));
        assert forall|j: int|
            k < j < t.len() implies !((#[trigger] t[j]).format == InstrFormat::R && t[j].opcode == t[k].opcode
                && t[j].funct3 == t[k].funct3 && t[j].funct7 == t[k].funct7) by {
            assert(t[j] == descs[j] && t[k] == descs[k]);
        }
        lemma_lookup_f7_at(t, k);
    }
}

proof fn lemma_decode_add(w: u32)
    requires
        w % 0x80 == 51 && (w / 0x1000) % 8 == 0 && w / 0x200_0000 == 0,
    ensures
        decode_spec(table_rv32i_spec(), w) == Ok::<(RiscvInstr, RVInstrInfo), Exception>((RiscvInstr::ADD, decode_info_spec(w, InstrFormat::R))),
{
    let t = table_rv32i_spec();
    assert(t.len() == 60);
    assert(t[0].opcode == 51 && t[0].instr == RiscvInstr::ADD && t[0].format == InstrFormat::R);
    assert(t[44].opcode == 51 && t[44].format == InstrFormat::R);
    assert forall|j: int| 44 < j < t.len() implies #[trigger] t[j].opcode != 51 by {}
    lemma_lookup_opcode_at(t, 44);
    assert(t[0].funct3 == 0 && t[0].funct7 == 0);
    assert forall|j: int|
        0 < j < t.len() implies !((#[trigger] t[j]).format == InstrFormat::R && t[j].opcode == t[0].opcode
            && t[j].funct3 == t[0].funct3 && t[j].funct7 == t[0].funct7) by {}
    lemma_lookup_f7_at(t, 0);
}

proof fn lemma_decode_sub(w: u32)
    requires
        w % 0x80 == 51 && (w / 0x1000) % 8 == 0 && w / 0x200_0000 == 32,
    ensures
        decode_spec(table_rv32i_spec(), w) == Ok::<(RiscvInstr, RVInstrInfo), Exception>((RiscvInstr::SUB, decode_info_spec(w, InstrFormat::R))),
{
    let t = table_rv32i_spec();
    assert(t.len() == 60);
    assert(t[2].opcode == 51 && t[2].instr == RiscvInstr::SUB && t[2].format == InstrFormat::R);
    assert(t[44].opcode == 51 && t[44].format == InstrFormat::R);
    assert forall|j: int| 44 < j < t.len() implies #[trigger] t[j].opcode != 51 by {}
    lemma_lookup_opcode_at(t, 44);
    assert(t[2].funct3 == 0 && t[2].funct7 == 32);
    assert forall|j: int|
        2 < j < t.len() implies !((#[trigger] t[j]).format == InstrFormat::R && t[j].opcode == t[2].opcode
            && t[j].funct3 == t[2].funct3 && t[j].funct7 == t[2].funct7) by {}
    lemma_lookup_f7_at(t, 2);
}

proof fn lemma_decode_sll(w: u32)
    requires
        w % 0x80 == 51 && (w / 0x1000) % 8 == 1 && w / 0x200_0000 == 0,
    ensures
        decode_spec(table_rv32i_spec(), w) == Ok::<(RiscvInstr, RVInstrInfo), Exception>((RiscvInstr::SLL, decode_info_spec(w, InstrFormat::R))),
{
    let t = table_rv32i_spec();
    assert(t.len() == 60);
    assert(t[3].opcode == 51 && t[3].instr == RiscvInstr::SLL && t[3].format == InstrFormat::R);
    assert(t[44].opcode == 51 && t[44].format == InstrFormat::R);
    assert forall|j: int| 44 < j < t.len() implies #[trigger] t[j].opcode != 51 by {}
    lemma_lookup_opcode_at(t, 44);
    assert(t[3].funct3 == 1 && t[3].funct7 == 0);
    assert forall|j: int|
        3 < j < t.len() implies !((#[trigger] t[j]).format == InstrFormat::R && t[j].opcode == t[3].opcode
            && t[j].funct3 == t[3].funct3 && t[j].funct7 == t[3].funct7) by {}
    lemma_lookup_f7_at(t, 3);
}

proof fn lemma_decode_slt(w: u32)
    requires
        w % 0x80 == 51 && (w / 0x1000) % 8 == 2 && w / 0x200_0000 == 0,
    ensures
        decode_spec(table_rv32i_spec(), w) == Ok::<(RiscvInstr, RVInstrInfo), Exception>((RiscvInstr::SLT, decode_info_spec(w, InstrFormat::R))),
{
    let t = table_rv32i_spec();
    assert(t.len() == 60);
    assert(t[6].opcode == 51 && t[6].instr == RiscvInstr::SLT && t[6].format == InstrFormat::R);
    assert(t[44].opcode == 51 && t[44].format == InstrFormat::R);
    assert forall|j: int| 44 < j < t.len() implies #[trigger] t[j].opcode != 51 by {}
    lemma_lookup_opcode_at(t, 44);
    assert(t[6].funct3 == 2 && t[6].funct7 == 0);
    assert forall|j: int|
        6 < j < t.len() implies !((#[trigger] t[j]).format == InstrFormat::R && t[j].opcode == t[6].opcode
            && t[j].funct3 == t[6].funct3 && t[j].funct7 == t[6].funct7) by {}
    lemma_lookup_f7_at(t, 6);
}

proof fn lemma_decode_sltu(w: u32)
    requires
        w % 0x80 == 51 && (w / 0x1000) % 8 == 3 && w / 0x200_0000 == 0,
    ensures
        decode_spec(table_rv32i_spec(), w) == Ok::<(RiscvInstr, RVInstrInfo), Exception>((RiscvInstr::SLTU, decode_info_spec(w, InstrFormat::R))),
{
    let t = table_rv32i_spec();
    assert(t.len() == 60);
    assert(t[9].opcode == 51 && t[9].instr == RiscvInstr::SLTU && t[9].format == InstrFormat::R);
    assert(t[44].opcode == 51 && t[44].format == InstrFormat::R);
    assert forall|j: int| 44 < j < t.len() implies #[trigger] t[j].opcode != 51 by {}
    lemma_lookup_opcode_at(t, 44);
    assert(t[9].funct3 == 3 && t[9].funct7 == 0);
    assert forall|j: int|
        9 < j < t.len() implies !((#[trigger] t[j]).format == InstrFormat::R && t[j].opcode == t[9].opcode
            && t[j].funct3 == t[9].funct3 && t[j].funct7 == t[9].funct7) by {}
    lemma_lookup_f7_at(t, 9);
}

proof fn lemma_decode_xor(w: u32)
    requires
        w % 0x80 == 51 && (w / 0x1000) % 8 == 4 && w / 0x200_0000 == 0,
    ensures
        decode_spec(table_rv32i_spec(), w) == Ok::<(RiscvInstr, RVInstrInfo), Exception>((RiscvInstr::XOR, decode_info_spec(w, InstrFormat::R))),
{
    let t = table_rv32i_spec();
    assert(t.len() == 60);
    assert(t[14].opcode == 51 && t[14].instr == RiscvInstr::XOR && t[14].format == InstrFormat::R);
    assert(t[44].opcode == 51 && t[44].format == InstrFormat::R);
    assert forall|j: int| 44 < j < t.len() implies #[trigger] t[j].opcode != 51 by {}
    lemma_lookup_opcode_at(t, 44);
    assert(t[14].funct3 == 4 && t[14].funct7 == 0);
    assert forall|j: int|
        14 < j < t.len() implies !((#[trigger] t[j]).format == InstrFormat::R && t[j].opcode == t[14].opcode
            && t[j].funct3 == t[14].funct3 && t[j].funct7 == t[14].funct7) by {}
    lemma_lookup_f7_at(t, 14);
}

proof fn lemma_decode_srl(w: u32)
    requires
        w % 0x80 == 51 && (w / 0x1000) % 8 == 5 && w / 0x200_0000 == 0,
    ensures
        decode_spec(table_rv32i_spec(), w) == Ok::<(RiscvInstr, RVInstrInfo), Exception>((RiscvInstr::SRL, decode_info_spec(w, InstrFormat::R))),
{
    let t = table_rv32i_spec();
    assert(t.len() == 60);
    assert(t[4].opcode == 51 && t[4].instr == RiscvInstr::SRL && t[4].format == InstrFormat::R);
    assert(t[44].opcode == 51 && t[44].format == InstrFormat::R);
    assert forall|j: int| 44 < j < t.len() implies #[trigger] t[j].opcode != 51 by {}
    lemma_lookup_opcode_at(t, 44);
    assert(t[4].funct3 == 5 && t[4].funct7 == 0);
    assert forall|j: int|
        4 < j < t.len() implies !((#[trigger] t[j]).format == InstrFormat::R && t[j].opcode == t[4].opcode
            && t[j].funct3 == t[4].funct3 && t[j].funct7 == t[4].funct7) by {}
    lemma_lookup_f7_at(t, 4);
}

proof fn lemma_decode_sra(w: u32)
    requires
        w % 0x80 == 51 && (w / 0x1000) % 8 == 5 && w / 0x200_0000 == 32,
    ensures
        decode_spec(table_rv32i_spec(), w) == Ok::<(RiscvInstr, RVInstrInfo), Exception>((RiscvInstr::SRA, decode_info_spec(w, InstrFormat::R))),
{
    let t = table_rv32i_spec();
    assert(t.len() == 60);
    assert(t[5].opcode == 51 && t[5].instr == RiscvInstr::SRA && t[5].format == InstrFormat::R);
    assert(t[44].opcode == 51 && t[44].format == InstrFormat::R);
    assert forall|j: int| 44 < j < t.len() implies #[trigger] t[j].opcode != 51 by {}
    lemma_lookup_opcode_at(t, 44);
    assert(t[5].funct3 == 5 && t[5].funct7 == 32);
    assert forall|j: int|
        5 < j < t.len() implies !((#[trigger] t[j]).format == InstrFormat::R && t[j].opcode == t[5].opcode
            && t[j].funct3 == t[5].funct3 && t[j].funct7 == t[5].funct7) by {}
    lemma_lookup_f7_at(t, 5);
}

proof fn lemma_decode_or(w: u32)
    requires
        w % 0x80 == 51 && (w / 0x1000) % 8 == 6 && w / 0x200_0000 == 0,
    ensures
        decode_spec(table_rv32i_spec(), w) == Ok::<(RiscvInstr, RVInstrInfo), Exception>((RiscvInstr::OR, decode_info_spec(w, InstrFormat::R))),
{
    let t = table_rv32i_spec();
    assert(t.len() == 60);
    assert(t[12].opcode == 51 && t[12].instr == RiscvInstr::OR && t[12].format == InstrFormat::R);
    assert(t[44].opcode == 51 && t[44].format == InstrFormat::R);
    assert forall|j: int| 44 < j < t.len() implies #[trigger] t[j].opcode != 51 by {}
    lemma_lookup_opcode_at(t, 44);
    assert(t[12].funct3 == 6 && t[12].funct7 == 0);
    assert forall|j: int|
        12 < j < t.len() implies !((#[trigger] t[j]).format == InstrFormat::R && t[j].opcode == t[12].opcode
            && t[j].funct3 == t[12].funct3 && t[j].funct7 == t[12].funct7) by {}
    lemma_lookup_f7_at(t, 12);
}

proof fn lemma_decode_and(w: u32)
    requires
        w % 0x80 == 51 && (w / 0x1000) % 8 == 7 && w / 0x200_0000 == 0,
    ensures
        decode_spec(table_rv32i_spec(), w) == Ok::<(RiscvInstr, RVInstrInfo), Exception>((RiscvInstr::AND, decode_info_spec(w, InstrFormat::R))),
{
    let t = table_rv32i_spec();
    assert(t.len() == 60);
    assert(t[10].opcode == 51 && t[10].instr == RiscvInstr::AND && t[10].format == InstrFormat::R);
    assert(t[44].opcode == 51 && t[44].format == InstrFormat::R);
    assert forall|j: int| 44 < j < t.len() implies #[trigger] t[j].opcode != 51 by {}
    lemma_lookup_opcode_at(t, 44);
    assert(t[10].funct3 == 7 && t[10].funct7 == 0);
    assert forall|j: int|
        10 < j < t.len() implies !((#[trigger] t[j]).format == InstrFormat::R && t[j].opcode == t[10].opcode
            && t[j].funct3 == t[10].funct3 && t[j].funct7 == t[10].funct7) by {}
    lemma_lookup_f7_at(t, 10);
}

proof fn lemma_decode_mul(w: u32)
    requires
        w % 0x80 == 51 && (w / 0x1000) % 8 == 0 && w / 0x200_0000 == 1,
    ensures
        decode_spec(table_rv32i_spec(), w) == Ok::<(RiscvInstr, RVInstrInfo), Exception>((RiscvInstr::MUL, decode_info_spec(w, InstrFormat::R))),
{
    let t = table_rv32i_spec();
    assert(t.len() == 60);
    assert(t[39].opcode == 51 && t[39].instr == RiscvInstr::MUL && t[39].format == InstrFormat::R);
    assert(t[44].opcode == 51 && t[44].format == InstrFormat::R);
    assert forall|j: int| 44 < j < t.len() implies #[trigger] t[j].opcode != 51 by {}
    lemma_lookup_opcode_at(t, 44);
    assert(t[39].funct3 == 0 && t[39].funct7 == 1);
    assert forall|j: int|
        39 < j < t.len() implies !((#[trigger] t[j]).format == InstrFormat::R && t[j].opcode == t[39].opcode
            && t[j].funct3 == t[39].funct3 && t[j].funct7 == t[39].funct7) by {}
    lemma_lookup_f7_at(t, 39);
}

proof fn lemma_decode_mulh(w: u32)
    requires
        w % 0x80 == 51 && (w / 0x1000) % 8 == 1 && w / 0x200_0000 == 1,
    ensures
        decode_spec(table_rv32i_spec(), w) == Ok::<(RiscvInstr, RVInstrInfo), Exception>((RiscvInstr::MULH, decode_info_spec(w, InstrFormat::R))),
{
    let t = table_rv32i_spec();
    assert(t.len() == 60);
    assert(t[40].opcode == 51 && t[40].instr == RiscvInstr::MULH && t[40].format == InstrFormat::R);
    assert(t[44].opcode == 51 && t[44].format == InstrFormat::R);
    assert forall|j: int| 44 < j < t.len() implies #[trigger] t[j].opcode != 51 by {}
    lemma_lookup_opcode_at(t, 44);
    assert(t[40].funct3 == 1 && t[40].funct7 == 1);
    assert forall|j: int|
        40 < j < t.len() implies !((#[trigger] t[j]).format == InstrFormat::R && t[j].opcode == t[40].opcode
            && t[j].funct3 == t[40].funct3 && t[j].funct7 == t[40].funct7) by {}
    lemma_lookup_f7_at(t, 40);
}

proof fn lemma_decode_mulhsu(w: u32)
    requires
        w % 0x80 == 51 && (w / 0x1000) % 8 == 2 && w / 0x200_0000 == 1,
    ensures
        decode_spec(table_rv32i_spec(), w) == Ok::<(RiscvInstr, RVInstrInfo), Exception>((RiscvInstr::MULHSU, decode_info_spec(w, InstrFormat::R))),
{
    let t = table_rv32i_spec();
    assert(t.len() == 60);
    assert(t[41].opcode == 51 && t[41].instr == RiscvInstr::MULHSU && t[41].format == InstrFormat::R);
    assert(t[44].opcode == 51 && t[44].format == InstrFormat::R);
    assert forall|j: int| 44 < j < t.len() implies #[trigger] t[j].opcode != 51 by {}
    lemma_lookup_opcode_at(t, 44);
    assert(t[41].funct3 == 2 && t[41].funct7 == 1);
    assert forall|j: int|
        41 < j < t.len() implies !((#[trigger] t[j]).format == InstrFormat::R && t[j].opcode == t[41].opcode
            && t[j].funct3 == t[41].funct3 && t[j].funct7 == t[41].funct7) by {}
    lemma_lookup_f7_at(t, 41);
}

proof fn lemma_decode_mulhu(w: u32)
    requires
        w % 0x80 == 51 && (w / 0x1000) % 8 == 3 && w / 0x200_0000 == 1,
    ensures
        decode_spec(table_rv32i_spec(), w) == Ok::<(RiscvInstr, RVInstrInfo), Exception>((RiscvInstr::MULHU, decode_info_spec(w, InstrFormat::R))),
{
    let t = table_rv32i_spec();
    assert(t.len() == 60);
    assert(t[42].opcode == 51 && t[42].instr == RiscvInstr::MULHU && t[42].format == InstrFormat::R);
    assert(t[44].opcode == 51 && t[44].format == InstrFormat::R);
    assert forall|j: int| 44 < j < t.len() implies #[trigger] t[j].opcode != 51 by {}
    lemma_lookup_opcode_at(t, 44);
    assert(t[42].funct3 == 3 && t[42].funct7 == 1);
    assert forall|j: int|
        42 < j < t.len() implies !((#[trigger] t[j]).format == InstrFormat::R && t[j].opcode == t[42].opcode
            && t[j].funct3 == t[42].funct3 && t[j].funct7 == t[42].funct7) by {}
    lemma_lookup_f7_at(t, 42);
}

proof fn lemma_decode_div(w: u32)
    requires
        w % 0x80 == 51 && (w / 0x1000) % 8 == 4 && w / 0x200_0000 == 1,
    ensures
        decode_spec(table_rv32i_spec(), w) == Ok::<(RiscvInstr, RVInstrInfo), Exception>((RiscvInstr::DIV, decode_info_spec(w, InstrFormat::R))),
{
    let t = table_rv32i_spec();
    assert(t.len() == 60);
    assert(t[37].opcode == 51 && t[37].instr == RiscvInstr::DIV && t[37].format == InstrFormat::R);
    assert(t[44].opcode == 51 && t[44].format == InstrFormat::R);
    assert forall|j: int| 44 < j < t.len() implies #[trigger] t[j].opcode != 51 by {}
    lemma_lookup_opcode_at(t, 44);
    assert(t[37].funct3 == 4 && t[37].funct7 == 1);
    assert forall|j: int|
        37 < j < t.len() implies !((#[trigger] t[j]).format == InstrFormat::R && t[j].opcode == t[37].opcode
            && t[j].funct3 == t[37].funct3 && t[j].funct7 == t[37].funct7) by {}
    lemma_lookup_f7_at(t, 37);
}

proof fn lemma_decode_divu(w: u32)
    requires
        w % 0x80 == 51 && (w / 0x1000) % 8 == 5 && w / 0x200_0000 == 1,
    ensures
        decode_spec(table_rv32i_spec(), w) == Ok::<(RiscvInstr, RVInstrInfo), Exception>((RiscvInstr::DIVU, decode_info_spec(w, InstrFormat::R))),
{
    let t = table_rv32i_spec();
    assert(t.len() == 60);
    assert(t[38].opcode == 51 && t[38].instr == RiscvInstr::DIVU && t[38].format == InstrFormat::R);
    assert(t[44].opcode == 51 && t[44].format == InstrFormat::R);
    assert forall|j: int| 44 < j < t.len() implies #[trigger] t[j].opcode != 51 by {}
    lemma_lookup_opcode_at(t, 44);
    assert(t[38].funct3 == 5 && t[38].funct7 == 1);
    assert forall|j: int|
        38 < j < t.len() implies !((#[trigger] t[j]).format == InstrFormat::R && t[j].opcode == t[38].opcode
            && t[j].funct3 == t[38].funct3 && t[j].funct7 == t[38].funct7) by {}
    lemma_lookup_f7_at(t, 38);
}

proof fn lemma_decode_rem(w: u32)
    requires
        w % 0x80 == 51 && (w / 0x1000) % 8 == 6 && w / 0x200_0000 == 1,
    ensures
        decode_spec(table_rv32i_spec(), w) == Ok::<(RiscvInstr, RVInstrInfo), Exception>((RiscvInstr::REM, decode_info_spec(w, InstrFormat::R))),
{
    let t = table_rv32i_spec();
    assert(t.len() == 60);
    assert(t[43].opcode == 51 && t[43].instr == RiscvInstr::REM && t[43].format == InstrFormat::R);
    assert(t[44].opcode == 51 && t[44].format == InstrFormat::R);
    assert forall|j: int| 44 < j < t.len() implies #[trigger] t[j].opcode != 51 by {}
    lemma_lookup_opcode_at(t, 44);
    assert(t[43].funct3 == 6 && t[43].funct7 == 1);
    assert forall|j: int|
        43 < j < t.len() implies !((#[trigger] t[j]).format == InstrFormat::R && t[j].opcode == t[43].opcode
            && t[j].funct3 == t[43].funct3 && t[j].funct7 == t[43].funct7) by {}
    lemma_lookup_f7_at(t, 43);
}

proof fn lemma_decode_remu(w: u32)
    requires
        w % 0x80 == 51 && (w / 0x1000) % 8 == 7 && w / 0x200_0000 == 1,
    ensures
        decode_spec(table_rv32i_spec(), w) == Ok::<(RiscvInstr, RVInstrInfo), Exception>((RiscvInstr::REMU, decode_info_spec(w, InstrFormat::R))),
{
    let t = table_rv32i_spec();
    assert(t.len() == 60);
    assert(t[44].opcode == 51 && t[44].instr == RiscvInstr::REMU && t[44].format == InstrFormat::R);
    assert(t[44].opcode == 51 && t[44].format == InstrFormat::R);
    assert forall|j: int| 44 < j < t.len() implies #[trigger] t[j].opcode != 51 by {}
    lemma_lookup_opcode_at(t, 44);
    assert(t[44].funct3 == 7 && t[44].funct7 == 1);
    assert forall|j: int|
        44 < j < t.len() implies !((#[trigger] t[j]).format == InstrFormat::R && t[j].opcode == t[44].opcode
            && t[j].funct3 == t[44].funct3 && t[j].funct7 == t[44].funct7) by {}
    lemma_lookup_f7_at(t, 44);
}

proof fn lemma_decode_addw(w: u32)
    requires
        w % 0x80 == 59 && (w / 0x1000) % 8 == 0 && w / 0x200_0000 == 0,
    ensures
        decode_spec(table_rv32i_spec(), w) == Ok::<(RiscvInstr, RVInstrInfo), Exception>((RiscvInstr::ADDW, decode_info_spec(w, InstrFormat::R))),
{
    let t = table_rv32i_spec();
    assert(t.len() == 60);
    assert(t[46].opcode == 59 && t[46].instr == RiscvInstr::ADDW && t[46].format == InstrFormat::R);
    assert(t[59].opcode == 59 && t[59].format == InstrFormat::R);
    assert forall|j: int| 59 < j < t.len() implies #[trigger] t[j].opcode != 59 by {}
    lemma_lookup_opcode_at(t, 59);
    assert(t[46].funct3 == 0 && t[46].funct7 == 0);
    assert forall|j: int|
        46 < j < t.len() implies !((#[trigger] t[j]).format == InstrFormat::R && t[j].opcode == t[46].opcode
            && t[j].funct3 == t[46].funct3 && t[j].funct7 == t[46].funct7) by {}
    lemma_lookup_f7_at(t, 46);
}

proof fn lemma_decode_subw(w: u32)
    requires
        w % 0x80 == 59 && (w / 0x1000) % 8 == 0 && w / 0x200_0000 == 32,
    ensures
        decode_spec(table_rv32i_spec(), w) == Ok::<(RiscvInstr, RVInstrInfo), Exception>((RiscvInstr::SUBW, decode_info_spec(w, InstrFormat::R))),
{
    let t = table_rv32i_spec();
    assert(t.len() == 60);
    assert(t[59].opcode == 59 && t[59].instr == RiscvInstr::SUBW && t[59].format == InstrFormat::R);
    assert(t[59].opcode == 59 && t[59].format == InstrFormat::R);
    assert forall|j: int| 59 < j < t.len() implies #[trigger] t[j].opcode != 59 by {}
    lemma_lookup_opcode_at(t, 59);
    assert(t[59].funct3 == 0 && t[59].funct7 == 32);
    assert forall|j: int|
        59 < j < t.len() implies !((#[trigger] t[j]).format == InstrFormat::R && t[j].opcode == t[59].opcode
            && t[j].funct3 == t[59].funct3 && t[j].funct7 == t[59].funct7) by {}
    lemma_lookup_f7_at(t, 59);
}

proof fn lemma_decode_sllw(w: u32)
    requires
        w % 0x80 == 59 && (w / 0x1000) % 8 == 1 && w / 0x200_0000 == 0,
    ensures
        decode_spec(table_rv32i_spec(), w) == Ok::<(RiscvInstr, RVInstrInfo), Exception>((RiscvInstr::SLLW, decode_info_spec(w, InstrFormat::R))),
{
    let t = table_rv32i_spec();
    assert(t.len() == 60);
    assert(t[52].opcode == 59 && t[52].instr == RiscvInstr::SLLW && t[52].format == InstrFormat::R);
    assert(t[59].opcode == 59 && t[59].format == InstrFormat::R);
    assert forall|j: int| 59 < j < t.len() implies #[trigger] t[j].opcode != 59 by {}
    lemma_lookup_opcode_at(t, 59);
    assert(t[52].funct3 == 1 && t[52].funct7 == 0);
    assert forall|j: int|
        52 < j < t.len() implies !((#[trigger] t[j]).format == InstrFormat::R && t[j].opcode == t[52].opcode
            && t[j].funct3 == t[52].funct3 && t[j].funct7 == t[52].funct7) by {}
    lemma_lookup_f7_at(t, 52);
}

proof fn lemma_decode_srlw(w: u32)
    requires
        w % 0x80 == 59 && (w / 0x1000) % 8 == 5 && w / 0x200_0000 == 0,
    ensures
        decode_spec(table_rv32i_spec(), w) == Ok::<(RiscvInstr, RVInstrInfo), Exception>((RiscvInstr::SRLW, decode_info_spec(w, InstrFormat::R))),
{
    let t = table_rv32i_spec();
    assert(t.len() == 60);
    assert(t[58].opcode == 59 && t[58].instr == RiscvInstr::SRLW && t[58].format == InstrFormat::R);
    assert(t[59].opcode == 59 && t[59].format == InstrFormat::R);
    assert forall|j: int| 59 < j < t.len() implies #[trigger] t[j].opcode != 59 by {}
    lemma_lookup_opcode_at(t, 59);
    assert(t[58].funct3 == 5 && t[58].funct7 == 0);
    assert forall|j: int|
        58 < j < t.len() implies !((#[trigger] t[j]).format == InstrFormat::R && t[j].opcode == t[58].opcode
            && t[j].funct3 == t[58].funct3 && t[j].funct7 == t[58].funct7) by {}
    lemma_lookup_f7_at(t, 58);
}

proof fn lemma_decode_sraw(w: u32)
    requires
        w % 0x80 == 59 && (w / 0x1000) % 8 == 5 && w / 0x200_0000 == 32,
    ensures
        decode_spec(table_rv32i_spec(), w) == Ok::<(RiscvInstr, RVInstrInfo), Exception>((RiscvInstr::SRAW, decode_info_spec(w, InstrFormat::R))),
{
    let t = table_rv32i_spec();
    assert(t.len() == 60);
    assert(t[55].opcode == 59 && t[55].instr == RiscvInstr::SRAW && t[55].format == InstrFormat::R);
    assert(t[59].opcode == 59 && t[59].format == InstrFormat::R);
    assert forall|j: int| 59 < j < t.len() implies #[trigger] t[j].opcode != 59 by {}
    lemma_lookup_opcode_at(t, 59);
    assert(t[55].funct3 == 5 && t[55].funct7 == 32);
    assert forall|j: int|
        55 < j < t.len() implies !((#[trigger] t[j]).format == InstrFormat::R && t[j].opcode == t[55].opcode
            && t[j].funct3 == t[55].funct3 && t[j].funct7 == t[55].funct7) by {}
    lemma_lookup_f7_at(t, 55);
}

proof fn lemma_decode_addi(w: u32)
    requires
        w % 0x80 == 19 && (w / 0x1000) % 8 == 0,
    ensures
        decode_spec(table_rv32i_spec(), w) == Ok::<(RiscvInstr, RVInstrInfo), Exception>((RiscvInstr::ADDI, decode_info_spec(w, InstrFormat::I))),
{
    let t = table_rv32i_spec();
    assert(t.len() == 60);
    assert(t[1].opcode == 19 && t[1].instr == RiscvInstr::ADDI && t[1].format == InstrFormat::I);
    assert(t[56].opcode == 19 && t[56].format == InstrFormat::I);
    assert forall|j: int| 56 < j < t.len() implies #[trigger] t[j].opcode != 19 by {}
    lemma_lookup_opcode_at(t, 56);
    assert(t[1].funct3 == 0);
    assert forall|j: int|
        1 < j < t.len() implies !(uses_f3(#[trigger] t[j]) && t[j].opcode == t[1].opcode && t[j].funct3
            == t[1].funct3) by {}
    lemma_lookup_f3_at(t, 1);
}

proof fn lemma_decode_slti(w: u32)
    requires
        w % 0x80 == 19 && (w / 0x1000) % 8 == 2,
    ensures
        decode_spec(table_rv32i_spec(), w) == Ok::<(RiscvInstr, RVInstrInfo), Exception>((RiscvInstr::SLTI, decode_info_spec(w, InstrFormat::I))),
{
    let t = table_rv32i_spec();
    assert(t.len() == 60);
    assert(t[7].opcode == 19 && t[7].instr == RiscvInstr::SLTI && t[7].format == InstrFormat::I);
    assert(t[56].opcode == 19 && t[56].format == InstrFormat::I);
    assert forall|j: int| 56 < j < t.len() implies #[trigger] t[j].opcode != 19 by {}
    lemma_lookup_opcode_at(t, 56);
    assert(t[7].funct3 == 2);
    assert forall|j: int|
        7 < j < t.len() implies !(uses_f3(#[trigger] t[j]) && t[j].opcode == t[7].opcode && t[j].funct3
            == t[7].funct3) by {}
    lemma_lookup_f3_at(t, 7);
}

proof fn lemma_decode_sltiu(w: u32)
    requires
        w % 0x80 == 19 && (w / 0x1000) % 8 == 3,
    ensures
        decode_spec(table_rv32i_spec(), w) == Ok::<(RiscvInstr, RVInstrInfo), Exception>((RiscvInstr::SLTIU, decode_info_spec(w, InstrFormat::I))),
{
    let t = table_rv32i_spec();
    assert(t.len() == 60);
    assert(t[8].opcode == 19 && t[8].instr == RiscvInstr::SLTIU && t[8].format == InstrFormat::I);
    assert(t[56].opcode == 19 && t[56].format == InstrFormat::I);
    assert forall|j: int| 56 < j < t.len() implies #[trigger] t[j].opcode != 19 by {}
    lemma_lookup_opcode_at(t, 56);
    assert(t[8].funct3 == 3);
    assert forall|j: int|
        8 < j < t.len() implies !(uses_f3(#[trigger] t[j]) && t[j].opcode == t[8].opcode && t[j].funct3
            == t[8].funct3) by {}
    lemma_lookup_f3_at(t, 8);
}

proof fn lemma_decode_xori(w: u32)
    requires
        w % 0x80 == 19 && (w / 0x1000) % 8 == 4,
    ensures
        decode_spec(table_rv32i_spec(), w) == Ok::<(RiscvInstr, RVInstrInfo), Exception>((RiscvInstr::XORI, decode_info_spec(w, InstrFormat::I))),
{
    let t = table_rv32i_spec();
    assert(t.len() == 60);
    assert(t[15].opcode == 19 && t[15].instr == RiscvInstr::XORI && t[15].format == InstrFormat::I);
    assert(t[56].opcode == 19 && t[56].format == InstrFormat::I);
    assert forall|j: int| 56 < j < t.len() implies #[trigger] t[j].opcode != 19 by {}
    lemma_lookup_opcode_at(t, 56);
    assert(t[15].funct3 == 4);
    assert forall|j: int|
        15 < j < t.len() implies !(uses_f3(#[trigger] t[j]) && t[j].opcode == t[15].opcode && t[j].funct3
            == t[15].funct3) by {}
    lemma_lookup_f3_at(t, 15);
}

proof fn lemma_decode_ori(w: u32)
    requires
        w % 0x80 == 19 && (w / 0x1000) % 8 == 6,
    ensures
        decode_spec(table_rv32i_spec(), w) == Ok::<(RiscvInstr, RVInstrInfo), Exception>((RiscvInstr::ORI, decode_info_spec(w, InstrFormat::I))),
{
    let t = table_rv32i_spec();
    assert(t.len() == 60);
    assert(t[13].opcode == 19 && t[13].instr == RiscvInstr::ORI && t[13].format == InstrFormat::I);
    assert(t[56].opcode == 19 && t[56].format == InstrFormat::I);
    assert forall|j: int| 56 < j < t.len() implies #[trigger] t[j].opcode != 19 by {}
    lemma_lookup_opcode_at(t, 56);
    assert(t[13].funct3 == 6);
    assert forall|j: int|
        13 < j < t.len() implies !(uses_f3(#[trigger] t[j]) && t[j].opcode == t[13].opcode && t[j].funct3
            == t[13].funct3) by {}
    lemma_lookup_f3_at(t, 13);
}

proof fn lemma_decode_andi(w: u32)
    requires
        w % 0x80 == 19 && (w / 0x1000) % 8 == 7,
    ensures
        decode_spec(table_rv32i_spec(), w) == Ok::<(RiscvInstr, RVInstrInfo), Exception>((RiscvInstr::ANDI, decode_info_spec(w, InstrFormat::I))),
{
    let t = table_rv32i_spec();
    assert(t.len() == 60);
    assert(t[11].opcode == 19 && t[11].instr == RiscvInstr::ANDI && t[11].format == InstrFormat::I);
    assert(t[56].opcode == 19 && t[56].format == InstrFormat::I);
    assert forall|j: int| 56 < j < t.len() implies #[trigger] t[j].opcode != 19 by {}
    lemma_lookup_opcode_at(t, 56);
    assert(t[11].funct3 == 7);
    assert forall|j: int|
        11 < j < t.len() implies !(uses_f3(#[trigger] t[j]) && t[j].opcode == t[11].opcode && t[j].funct3
            == t[11].funct3) by {}
    lemma_lookup_f3_at(t, 11);
}

proof fn lemma_decode_slli(w: u32)
    requires
        w % 0x80 == 19 && (w / 0x1000) % 8 == 1 && w / 0x200_0000 == 0,
    ensures
        decode_spec(table_rv32i_spec(), w) == Ok::<(RiscvInstr, RVInstrInfo), Exception>((RiscvInstr::SLLI, decode_info_spec(w, InstrFormat::I))),
{
    let t = table_rv32i_spec();
    assert(t.len() == 60);
    assert(t[50].opcode == 19 && t[50].instr == RiscvInstr::SLLI && t[50].format == InstrFormat::I);
    assert(t[56].opcode == 19 && t[56].format == InstrFormat::I);
    assert forall|j: int| 56 < j < t.len() implies #[trigger] t[j].opcode != 19 by {}
    lemma_lookup_opcode_at(t, 56);
    assert(t[50].funct3 == 1);
    assert forall|j: int|
        50 < j < t.len() implies !(uses_f3(#[trigger] t[j]) && t[j].opcode == t[50].opcode && t[j].funct3
            == t[50].funct3) by {}
    lemma_lookup_f3_at(t, 50);
}

proof fn lemma_decode_srli(w: u32)
    requires
        w % 0x80 == 19 && (w / 0x1000) % 8 == 5 && w / 0x200_0000 == 0,
    ensures
        decode_spec(table_rv32i_spec(), w) == Ok::<(RiscvInstr, RVInstrInfo), Exception>((RiscvInstr::SRLI, decode_info_spec(w, InstrFormat::I))),
{
    let t = table_rv32i_spec();
    assert(t.len() == 60);
    assert(t[56].opcode == 19 && t[56].instr == RiscvInstr::SRLI && t[56].format == InstrFormat::I);
    assert(t[56].opcode == 19 && t[56].format == InstrFormat::I);
    assert forall|j: int| 56 < j < t.len() implies #[trigger] t[j].opcode != 19 by {}
    lemma_lookup_opcode_at(t, 56);
    assert(t[56].funct3 == 5);
    assert forall|j: int|
        56 < j < t.len() implies !(uses_f3(#[trigger] t[j]) && t[j].opcode == t[56].opcode && t[j].funct3
            == t[56].funct3) by {}
    lemma_lookup_f3_at(t, 56);
}

proof fn lemma_decode_addiw(w: u32)
    requires
        w % 0x80 == 27 && (w / 0x1000) % 8 == 0,
    ensures
        decode_spec(table_rv32i_spec(), w) == Ok::<(RiscvInstr, RVInstrInfo), Exception>((RiscvInstr::ADDIW, decode_info_spec(w, InstrFormat::I))),
{
    let t = table_rv32i_spec();
    assert(t.len() == 60);
    assert(t[45].opcode == 27 && t[45].instr == RiscvInstr::ADDIW && t[45].format == InstrFormat::I);
    assert(t[57].opcode == 27 && t[57].format == InstrFormat::I);
    assert forall|j: int| 57 < j < t.len() implies #[trigger] t[j].opcode != 27 by {}
    lemma_lookup_opcode_at(t, 57);
    assert(t[45].funct3 == 0);
    assert forall|j: int|
        45 < j < t.len() implies !(uses_f3(#[trigger] t[j]) && t[j].opcode == t[45].opcode && t[j].funct3
            == t[45].funct3) by {}
    lemma_lookup_f3_at(t, 45);
}

proof fn lemma_decode_slliw(w: u32)
    requires
        w % 0x80 == 27 && (w / 0x1000) % 8 == 1 && w / 0x200_0000 == 0,
    ensures
        decode_spec(table_rv32i_spec(), w) == Ok::<(RiscvInstr, RVInstrInfo), Exception>((RiscvInstr::SLLIW, decode_info_spec(w, InstrFormat::I))),
{
    let t = table_rv32i_spec();
    assert(t.len() == 60);
    assert(t[51].opcode == 27 && t[51].instr == RiscvInstr::SLLIW && t[51].format == InstrFormat::I);
    assert(t[57].opcode == 27 && t[57].format == InstrFormat::I);
    assert forall|j: int| 57 < j < t.len() implies #[trigger] t[j].opcode != 27 by {}
    lemma_lookup_opcode_at(t, 57);
    assert(t[51].funct3 == 1);
    assert forall|j: int|
        51 < j < t.len() implies !(uses_f3(#[trigger] t[j]) && t[j].opcode == t[51].opcode && t[j].funct3
            == t[51].funct3) by {}
    lemma_lookup_f3_at(t, 51);
}

proof fn lemma_decode_srliw(w: u32)
    requires
        w % 0x80 == 27 && (w / 0x1000) % 8 == 5 && w / 0x200_0000 == 0,
    ensures
        decode_spec(table_rv32i_spec(), w) == Ok::<(RiscvInstr, RVInstrInfo), Exception>((RiscvInstr::SRLIW, decode_info_spec(w, InstrFormat::I))),
{
    let t = table_rv32i_spec();
    assert(t.len() == 60);
    assert(t[57].opcode == 27 && t[57].instr == RiscvInstr::SRLIW && t[57].format == InstrFormat::I);
    assert(t[57].opcode == 27 && t[57].format == InstrFormat::I);
    assert forall|j: int| 57 < j < t.len() implies #[trigger] t[j].opcode != 27 by {}
    lemma_lookup_opcode_at(t, 57);
    assert(t[57].funct3 == 5);
    assert forall|j: int|
        57 < j < t.len() implies !(uses_f3(#[trigger] t[j]) && t[j].opcode == t[57].opcode && t[j].funct3
            == t[57].funct3) by {}
    lemma_lookup_f3_at(t, 57);
}

proof fn lemma_decode_lb(w: u32)
    requires
        w % 0x80 == 3 && (w / 0x1000) % 8 == 0,
    ensures
        decode_spec(table_rv32i_spec(), w) == Ok::<(RiscvInstr, RVInstrInfo), Exception>((RiscvInstr::LB, decode_info_spec(w, InstrFormat::I))),
{
    let t = table_rv32i_spec();
    assert(t.len() == 60);
    assert(t[22].opcode == 3 && t[22].instr == RiscvInstr::LB && t[22].format == InstrFormat::I);
    assert(t[48].opcode == 3 && t[48].format == InstrFormat::I);
    assert forall|j: int| 48 < j < t.len() implies #[trigger] t[j].opcode != 3 by {}
    lemma_lookup_opcode_at(t, 48);
    assert(t[22].funct3 == 0);
    assert forall|j: int|
        22 < j < t.len() implies !(uses_f3(#[trigger] t[j]) && t[j].opcode == t[22].opcode && t[j].funct3
            == t[22].funct3) by {}
    lemma_lookup_f3_at(t, 22);
}

proof fn lemma_decode_lh(w: u32)
    requires
        w % 0x80 == 3 && (w / 0x1000) % 8 == 1,
    ensures
        decode_spec(table_rv32i_spec(), w) == Ok::<(RiscvInstr, RVInstrInfo), Exception>((RiscvInstr::LH, decode_info_spec(w, InstrFormat::I))),
{
    let t = table_rv32i_spec();
    assert(t.len() == 60);
    assert(t[24].opcode == 3 && t[24].instr == RiscvInstr::LH && t[24].format == InstrFormat::I);
    assert(t[48].opcode == 3 && t[48].format == InstrFormat::I);
    assert forall|j: int| 48 < j < t.len() implies #[trigger] t[j].opcode != 3 by {}
    lemma_lookup_opcode_at(t, 48);
    assert(t[24].funct3 == 1);
    assert forall|j: int|
        24 < j < t.len() implies !(uses_f3(#[trigger] t[j]) && t[j].opcode == t[24].opcode && t[j].funct3
            == t[24].funct3) by {}
    lemma_lookup_f3_at(t, 24);
}

proof fn lemma_decode_lw(w: u32)
    requires
        w % 0x80 == 3 && (w / 0x1000) % 8 == 2,
    ensures
        decode_spec(table_rv32i_spec(), w) == Ok::<(RiscvInstr, RVInstrInfo), Exception>((RiscvInstr::LW, decode_info_spec(w, InstrFormat::I))),
{
    let t = table_rv32i_spec();
    assert(t.len() == 60);
    assert(t[26].opcode == 3 && t[26].instr == RiscvInstr::LW && t[26].format == InstrFormat::I);
    assert(t[48].opcode == 3 && t[48].format == InstrFormat::I);
    assert forall|j: int| 48 < j < t.len() implies #[trigger] t[j].opcode != 3 by {}
    lemma_lookup_opcode_at(t, 48);
    assert(t[26].funct3 == 2);
    assert forall|j: int|
        26 < j < t.len() implies !(uses_f3(#[trigger] t[j]) && t[j].opcode == t[26].opcode && t[j].funct3
            == t[26].funct3) by {}
    lemma_lookup_f3_at(t, 26);
}

proof fn lemma_decode_ld(w: u32)
    requires
        w % 0x80 == 3 && (w / 0x1000) % 8 == 3,
    ensures
        decode_spec(table_rv32i_spec(), w) == Ok::<(RiscvInstr, RVInstrInfo), Exception>((RiscvInstr::LD, decode_info_spec(w, InstrFormat::I))),
{
    let t = table_rv32i_spec();
    assert(t.len() == 60);
    assert(t[47].opcode == 3 && t[47].instr == RiscvInstr::LD && t[47].format == InstrFormat::I);
    assert(t[48].opcode == 3 && t[48].format == InstrFormat::I);
    assert forall|j: int| 48 < j < t.len() implies #[trigger] t[j].opcode != 3 by {}
    lemma_lookup_opcode_at(t, 48);
    assert(t[47].funct3 == 3);
    assert forall|j: int|
        47 < j < t.len() implies !(uses_f3(#[trigger] t[j]) && t[j].opcode == t[47].opcode && t[j].funct3
            == t[47].funct3) by {}
    lemma_lookup_f3_at(t, 47);
}

proof fn lemma_decode_lbu(w: u32)
    requires
        w % 0x80 == 3 && (w / 0x1000) % 8 == 4,
    ensures
        decode_spec(table_rv32i_spec(), w) == Ok::<(RiscvInstr, RVInstrInfo), Exception>((RiscvInstr::LBU, decode_info_spec(w, InstrFormat::I))),
{
    let t = table_rv32i_spec();
    assert(t.len() == 60);
    assert(t[23].opcode == 3 && t[23].instr == RiscvInstr::LBU && t[23].format == InstrFormat::I);
    assert(t[48].opcode == 3 && t[48].format == InstrFormat::I);
    assert forall|j: int| 48 < j < t.len() implies #[trigger] t[j].opcode != 3 by {}
    lemma_lookup_opcode_at(t, 48);
    assert(t[23].funct3 == 4);
    assert forall|j: int|
        23 < j < t.len() implies !(uses_f3(#[trigger] t[j]) && t[j].opcode == t[23].opcode && t[j].funct3
            == t[23].funct3) by {}
    lemma_lookup_f3_at(t, 23);
}

proof fn lemma_decode_lhu(w: u32)
    requires
        w % 0x80 == 3 && (w / 0x1000) % 8 == 5,
    ensures
        decode_spec(table_rv32i_spec(), w) == Ok::<(RiscvInstr, RVInstrInfo), Exception>((RiscvInstr::LHU, decode_info_spec(w, InstrFormat::I))),
{
    let t = table_rv32i_spec();
    assert(t.len() == 60);
    assert(t[25].opcode == 3 && t[25].instr == RiscvInstr::LHU && t[25].format == InstrFormat::I);
    assert(t[48].opcode == 3 && t[48].format == InstrFormat::I);
    assert forall|j: int| 48 < j < t.len() implies #[trigger] t[j].opcode != 3 by {}
    lemma_lookup_opcode_at(t, 48);
    assert(t[25].funct3 == 5);
    assert forall|j: int|
        25 < j < t.len() implies !(uses_f3(#[trigger] t[j]) && t[j].opcode == t[25].opcode && t[j].funct3
            == t[25].funct3) by {}
    lemma_lookup_f3_at(t, 25);
}

proof fn lemma_decode_lwu(w: u32)
    requires
        w % 0x80 == 3 && (w / 0x1000) % 8 == 6,
    ensures
        decode_spec(table_rv32i_spec(), w) == Ok::<(RiscvInstr, RVInstrInfo), Exception>((RiscvInstr::LWU, decode_info_spec(w, InstrFormat::I))),
{
    let t = table_rv32i_spec();
    assert(t.len() == 60);
    assert(t[48].opcode == 3 && t[48].instr == RiscvInstr::LWU && t[48].format == InstrFormat::I);
    assert(t[48].opcode == 3 && t[48].format == InstrFormat::I);
    assert forall|j: int| 48 < j < t.len() implies #[trigger] t[j].opcode != 3 by {}
    lemma_lookup_opcode_at(t, 48);
    assert(t[48].funct3 == 6);
    assert forall|j: int|
        48 < j < t.len() implies !(uses_f3(#[trigger] t[j]) && t[j].opcode == t[48].opcode && t[j].funct3
            == t[48].funct3) by {}
    lemma_lookup_f3_at(t, 48);
}

proof fn lemma_decode_sb(w: u32)
    requires
        w % 0x80 == 35 && (w / 0x1000) % 8 == 0,
    ensures
        decode_spec(table_rv32i_spec(), w) == Ok::<(RiscvInstr, RVInstrInfo), Exception>((RiscvInstr::SB, decode_info_spec(w, InstrFormat::S))),
{
    let t = table_rv32i_spec();
    assert(t.len() == 60);
    assert(t[27].opcode == 35 && t[27].instr == RiscvInstr::SB && t[27].format == InstrFormat::S);
    assert(t[49].opcode == 35 && t[49].format == InstrFormat::S);
    assert forall|j: int| 49 < j < t.len() implies #[trigger] t[j].opcode != 35 by {}
    lemma_lookup_opcode_at(t, 49);
    assert(t[27].funct3 == 0);
    assert forall|j: int|
        27 < j < t.len() implies !(uses_f3(#[trigger] t[j]) && t[j].opcode == t[27].opcode && t[j].funct3
            == t[27].funct3) by {}
    lemma_lookup_f3_at(t, 27);
}

proof fn lemma_decode_sh(w: u32)
    requires
        w % 0x80 == 35 && (w / 0x1000) % 8 == 1,
    ensures
        decode_spec(table_rv32i_spec(), w) == Ok::<(RiscvInstr, RVInstrInfo), Exception>((RiscvInstr::SH, decode_info_spec(w, InstrFormat::S))),
{
    let t = table_rv32i_spec();
    assert(t.len() == 60);
    assert(t[28].opcode == 35 && t[28].instr == RiscvInstr::SH && t[28].format == InstrFormat::S);
    assert(t[49].opcode == 35 && t[49].format == InstrFormat::S);
    assert forall|j: int| 49 < j < t.len() implies #[trigger] t[j].opcode != 35 by {}
    lemma_lookup_opcode_at(t, 49);
    assert(t[28].funct3 == 1);
    assert forall|j: int|
        28 < j < t.len() implies !(uses_f3(#[trigger] t[j]) && t[j].opcode == t[28].opcode && t[j].funct3
            == t[28].funct3) by {}
    lemma_lookup_f3_at(t, 28);
}

proof fn lemma_decode_sw(w: u32)
    requires
        w % 0x80 == 35 && (w / 0x1000) % 8 == 2,
    ensures
        decode_spec(table_rv32i_spec(), w) == Ok::<(RiscvInstr, RVInstrInfo), Exception>((RiscvInstr::SW, decode_info_spec(w, InstrFormat::S))),
{
    let t = table_rv32i_spec();
    assert(t.len() == 60);
    assert(t[29].opcode == 35 && t[29].instr == RiscvInstr::SW && t[29].format == InstrFormat::S);
    assert(t[49].opcode == 35 && t[49].format == InstrFormat::S);
    assert forall|j: int| 49 < j < t.len() implies #[trigger] t[j].opcode != 35 by {}
    lemma_lookup_opcode_at(t, 49);
    assert(t[29].funct3 == 2);
    assert forall|j: int|
        29 < j < t.len() implies !(uses_f3(#[trigger] t[j]) && t[j].opcode == t[29].opcode && t[j].funct3
            == t[29].funct3) by {}
    lemma_lookup_f3_at(t, 29);
}

proof fn lemma_decode_sd(w: u32)
    requires
        w % 0x80 == 35 && (w / 0x1000) % 8 == 3,
    ensures
        decode_spec(table_rv32i_spec(), w) == Ok::<(RiscvInstr, RVInstrInfo), Exception>((RiscvInstr::SD, decode_info_spec(w, InstrFormat::S))),
{
    let t = table_rv32i_spec();
    assert(t.len() == 60);
    assert(t[49].opcode == 35 && t[49].instr == RiscvInstr::SD && t[49].format == InstrFormat::S);
    assert(t[49].opcode == 35 && t[49].format == InstrFormat::S);
    assert forall|j: int| 49 < j < t.len() implies #[trigger] t[j].opcode != 35 by {}
    lemma_lookup_opcode_at(t, 49);
    assert(t[49].funct3 == 3);
    assert forall|j: int|
        49 < j < t.len() implies !(uses_f3(#[trigger] t[j]) && t[j].opcode == t[49].opcode && t[j].funct3
            == t[49].funct3) by {}
    lemma_lookup_f3_at(t, 49);
}

proof fn lemma_decode_beq(w: u32)
    requires
        w % 0x80 == 99 && (w / 0x1000) % 8 == 0,
    ensures
        decode_spec(table_rv32i_spec(), w) == Ok::<(RiscvInstr, RVInstrInfo), Exception>((RiscvInstr::BEQ, decode_info_spec(w, InstrFormat::B))),
{
    let t = table_rv32i_spec();
    assert(t.len() == 60);
    assert(t[16].opcode == 99 && t[16].instr == RiscvInstr::BEQ && t[16].format == InstrFormat::B);
    assert(t[21].opcode == 99 && t[21].format == InstrFormat::B);
    assert forall|j: int| 21 < j < t.len() implies #[trigger] t[j].opcode != 99 by {}
    lemma_lookup_opcode_at(t, 21);
    assert(t[16].funct3 == 0);
    assert forall|j: int|
        16 < j < t.len() implies !(uses_f3(#[trigger] t[j]) && t[j].opcode == t[16].opcode && t[j].funct3
            == t[16].funct3) by {}
    lemma_lookup_f3_at(t, 16);
}

proof fn lemma_decode_bne(w: u32)
    requires
        w % 0x80 == 99 && (w / 0x1000) % 8 == 1,
    ensures
        decode_spec(table_rv32i_spec(), w) == Ok::<(RiscvInstr, RVInstrInfo), Exception>((RiscvInstr::BNE, decode_info_spec(w, InstrFormat::B))),
{
    let t = table_rv32i_spec();
    assert(t.len() == 60);
    assert(t[17].opcode == 99 && t[17].instr == RiscvInstr::BNE && t[17].format == InstrFormat::B);
    assert(t[21].opcode == 99 && t[21].format == InstrFormat::B);
    assert forall|j: int| 21 < j < t.len() implies #[trigger] t[j].opcode != 99 by {}
    lemma_lookup_opcode_at(t, 21);
    assert(t[17].funct3 == 1);
    assert forall|j: int|
        17 < j < t.len() implies !(uses_f3(#[trigger] t[j]) && t[j].opcode == t[17].opcode && t[j].funct3
            == t[17].funct3) by {}
    lemma_lookup_f3_at(t, 17);
}

proof fn lemma_decode_blt(w: u32)
    requires
        w % 0x80 == 99 && (w / 0x1000) % 8 == 4,
    ensures
        decode_spec(table_rv32i_spec(), w) == Ok::<(RiscvInstr, RVInstrInfo), Exception>((RiscvInstr::BLT, decode_info_spec(w, InstrFormat::B))),
{
    let t = table_rv32i_spec();
    assert(t.len() == 60);
    assert(t[20].opcode == 99 && t[20].instr == RiscvInstr::BLT && t[20].format == InstrFormat::B);
    assert(t[21].opcode == 99 && t[21].format == InstrFormat::B);
    assert forall|j: int| 21 < j < t.len() implies #[trigger] t[j].opcode != 99 by {}
    lemma_lookup_opcode_at(t, 21);
    assert(t[20].funct3 == 4);
    assert forall|j: int|
        20 < j < t.len() implies !(uses_f3(#[trigger] t[j]) && t[j].opcode == t[20].opcode && t[j].funct3
            == t[20].funct3) by {}
    lemma_lookup_f3_at(t, 20);
}

proof fn lemma_decode_bge(w: u32)
    requires
        w % 0x80 == 99 && (w / 0x1000) % 8 == 5,
    ensures
        decode_spec(table_rv32i_spec(), w) == Ok::<(RiscvInstr, RVInstrInfo), Exception>((RiscvInstr::BGE, decode_info_spec(w, InstrFormat::B))),
{
    let t = table_rv32i_spec();
    assert(t.len() == 60);
    assert(t[18].opcode == 99 && t[18].instr == RiscvInstr::BGE && t[18].format == InstrFormat::B);
    assert(t[21].opcode == 99 && t[21].format == InstrFormat::B);
    assert forall|j: int| 21 < j < t.len() implies #[trigger] t[j].opcode != 99 by {}
    lemma_lookup_opcode_at(t, 21);
    assert(t[18].funct3 == 5);
    assert forall|j: int|
        18 < j < t.len() implies !(uses_f3(#[trigger] t[j]) && t[j].opcode == t[18].opcode && t[j].funct3
            == t[18].funct3) by {}
    lemma_lookup_f3_at(t, 18);
}

proof fn lemma_decode_bltu(w: u32)
    requires
        w % 0x80 == 99 && (w / 0x1000) % 8 == 6,
    ensures
        decode_spec(table_rv32i_spec(), w) == Ok::<(RiscvInstr, RVInstrInfo), Exception>((RiscvInstr::BLTU, decode_info_spec(w, InstrFormat::B))),
{
    let t = table_rv32i_spec();
    assert(t.len() == 60);
    assert(t[21].opcode == 99 && t[21].instr == RiscvInstr::BLTU && t[21].format == InstrFormat::B);
    assert(t[21].opcode == 99 && t[21].format == InstrFormat::B);
    assert forall|j: int| 21 < j < t.len() implies #[trigger] t[j].opcode != 99 by {}
    lemma_lookup_opcode_at(t, 21);
    assert(t[21].funct3 == 6);
    assert forall|j: int|
        21 < j < t.len() implies !(uses_f3(#[trigger] t[j]) && t[j].opcode == t[21].opcode && t[j].funct3
            == t[21].funct3) by {}
    lemma_lookup_f3_at(t, 21);
}

proof fn lemma_decode_bgeu(w: u32)
    requires
        w % 0x80 == 99 && (w / 0x1000) % 8 == 7,
    ensures
        decode_spec(table_rv32i_spec(), w) == Ok::<(RiscvInstr, RVInstrInfo), Exception>((RiscvInstr::BGEU, decode_info_spec(w, InstrFormat::B))),
{
    let t = table_rv32i_spec();
    assert(t.len() == 60);
    assert(t[19].opcode == 99 && t[19].instr == RiscvInstr::BGEU && t[19].format == InstrFormat::B);
    assert(t[21].opcode == 99 && t[21].format == InstrFormat::B);
    assert forall|j: int| 21 < j < t.len() implies #[trigger] t[j].opcode != 99 by {}
    lemma_lookup_opcode_at(t, 21);
    assert(t[19].funct3 == 7);
    assert forall|j: int|
        19 < j < t.len() implies !(uses_f3(#[trigger] t[j]) && t[j].opcode == t[19].opcode && t[j].funct3
            == t[19].funct3) by {}
    lemma_lookup_f3_at(t, 19);
}

proof fn lemma_decode_jalr(w: u32)
    requires
        w % 0x80 == 103 && (w / 0x1000) % 8 == 0,
    ensures
        decode_spec(table_rv32i_spec(), w) == Ok::<(RiscvInstr, RVInstrInfo), Exception>((RiscvInstr::JALR, decode_info_spec(w, InstrFormat::I))),
{
    let t = table_rv32i_spec();
    assert(t.len() == 60);
    assert(t[31].opcode == 103 && t[31].instr == RiscvInstr::JALR && t[31].format == InstrFormat::I);
    assert(t[31].opcode == 103 && t[31].format == InstrFormat::I);
    assert forall|j: int| 31 < j < t.len() implies #[trigger] t[j].opcode != 103 by {}
    lemma_lookup_opcode_at(t, 31);
    assert(t[31].funct3 == 0);
    assert forall|j: int|
        31 < j < t.len() implies !(uses_f3(#[trigger] t[j]) && t[j].opcode == t[31].opcode && t[j].funct3
            == t[31].funct3) by {}
    lemma_lookup_f3_at(t, 31);
}

proof fn lemma_decode_fence(w: u32)
    requires
        w % 0x80 == 15 && (w / 0x1000) % 8 == 0,
    ensures
        decode_spec(table_rv32i_spec(), w) == Ok::<(RiscvInstr, RVInstrInfo), Exception>((RiscvInstr::FENCE, decode_info_spec(w, InstrFormat::I))),
{
    let t = table_rv32i_spec();
    assert(t.len() == 60);
    assert(t[36].opcode == 15 && t[36].instr == RiscvInstr::FENCE && t[36].format == InstrFormat::I);
    assert(t[36].opcode == 15 && t[36].format == InstrFormat::I);
    assert forall|j: int| 36 < j < t.len() implies #[trigger] t[j].opcode != 15 by {}
    lemma_lookup_opcode_at(t, 36);
    assert(t[36].funct3 == 0);
    assert forall|j: int|
        36 < j < t.len() implies !(uses_f3(#[trigger] t[j]) && t[j].opcode == t[36].opcode && t[j].funct3
            == t[36].funct3) by {}
    lemma_lookup_f3_at(t, 36);
}

proof fn lemma_decode_ecall(w: u32)
    requires
        w % 0x80 == 115 && (w / 0x1000) % 8 == 0 && w / 0x10_0000 == 0,
    ensures
        decode_spec(table_rv32i_spec(), w) == Ok::<(RiscvInstr, RVInstrInfo), Exception>((RiscvInstr::ECALL, decode_info_spec(w, InstrFormat::I))),
{
    let t = table_rv32i_spec();
    assert(t.len() == 60);
    assert(t[35].opcode == 115 && t[35].instr == RiscvInstr::ECALL && t[35].format == InstrFormat::I);
    assert(t[35].opcode == 115 && t[35].format == InstrFormat::I);
    assert forall|j: int| 35 < j < t.len() implies #[trigger] t[j].opcode != 115 by {}
    lemma_lookup_opcode_at(t, 35);
    assert(t[35].funct3 == 0);
    assert forall|j: int|
        35 < j < t.len() implies !(uses_f3(#[trigger] t[j]) && t[j].opcode == t[35].opcode && t[j].funct3
            == t[35].funct3) by {}
    lemma_lookup_f3_at(t, 35);
}

proof fn lemma_decode_jal(w: u32)
    requires
        w % 0x80 == 111,
    ensures
        decode_spec(table_rv32i_spec(), w) == Ok::<(RiscvInstr, RVInstrInfo), Exception>((RiscvInstr::JAL, decode_info_spec(w, InstrFormat::J))),
{
    let t = table_rv32i_spec();
    assert(t.len() == 60);
    assert(t[30].opcode == 111 && t[30].instr == RiscvInstr::JAL && t[30].format == InstrFormat::J);
    assert(t[30].opcode == 111 && t[30].format == InstrFormat::J);
    assert forall|j: int| 30 < j < t.len() implies #[trigger] t[j].opcode != 111 by {}
    lemma_lookup_opcode_at(t, 30);
}

proof fn lemma_decode_lui(w: u32)
    requires
        w % 0x80 == 55,
    ensures
        decode_spec(table_rv32i_spec(), w) == Ok::<(RiscvInstr, RVInstrInfo), Exception>((RiscvInstr::LUI, decode_info_spec(w, InstrFormat::U))),
{
    let t = table_rv32i_spec();
    assert(t.len() == 60);
    assert(t[33].opcode == 55 && t[33].instr == RiscvInstr::LUI && t[33].format == InstrFormat::U);
    assert(t[33].opcode == 55 && t[33].format == InstrFormat::U);
    assert forall|j: int| 33 < j < t.len() implies #[trigger] t[j].opcode != 55 by {}
    lemma_lookup_opcode_at(t, 33);
}

proof fn lemma_decode_auipc(w: u32)
    requires
        w % 0x80 == 23,
    ensures
        decode_spec(table_rv32i_spec(), w) == Ok::<(RiscvInstr, RVInstrInfo), Exception>((RiscvInstr::AUIPC, decode_info_spec(w, InstrFormat::U))),
{
    let t = table_rv32i_spec();
    assert(t.len() == 60);
    assert(t[32].opcode == 23 && t[32].instr == RiscvInstr::AUIPC && t[32].format == InstrFormat::U);
    assert(t[32].opcode == 23 && t[32].format == InstrFormat::U);
    assert forall|j: int| 32 < j < t.len() implies #[trigger] t[j].opcode != 23 by {}
    lemma_lookup_opcode_at(t, 32);
}

/// The base table decodes each word by the RISC-V encoding key of its
/// instruction: the opcode, then `funct3`, then for register operations
/// `funct7`; the operands are read in the instruction's format. The shift
/// immediates with a zero `funct7` field are their logical forms (`SLLI`,
/// `SRLI`, `SLLIW`, `SRLIW`), and the system opcode with a zero immediate
/// is `ECALL`.
pub proof fn law_base_table_decoding(w: u32)
    ensures
        w % 0x80 == 51 && (w / 0x1000) % 8 == 0 && w / 0x200_0000 == 0 ==> decode_spec(table_rv32i_spec(), w) == Ok::<(RiscvInstr, RVInstrInfo), Exception>((RiscvInstr::ADD, decode_info_spec(w, InstrFormat::R))),
        w % 0x80 == 51 && (w / 0x1000) % 8 == 0 && w / 0x200_0000 == 32 ==> decode_spec(table_rv32i_spec(), w) == Ok::<(RiscvInstr, RVInstrInfo), Exception>((RiscvInstr::SUB, decode_info_spec(w, InstrFormat::R))),
        w % 0x80 == 51 && (w / 0x1000) % 8 == 1 && w / 0x200_0000 == 0 ==> decode_spec(table_rv32i_spec(), w) == Ok::<(RiscvInstr, RVInstrInfo), Exception>((RiscvInstr::SLL, decode_info_spec(w, InstrFormat::R))),
        w % 0x80 == 51 && (w / 0x1000) % 8 == 2 && w / 0x200_0000 == 0 ==> decode_spec(table_rv32i_spec(), w) == Ok::<(RiscvInstr, RVInstrInfo), Exception>((RiscvInstr::SLT, decode_info_spec(w, InstrFormat::R))),
        w % 0x80 == 51 && (w / 0x1000) % 8 == 3 && w / 0x200_0000 == 0 ==> decode_spec(table_rv32i_spec(), w) == Ok::<(RiscvInstr, RVInstrInfo), Exception>((RiscvInstr::SLTU, decode_info_spec(w, InstrFormat::R))),
        w % 0x80 == 51 && (w / 0x1000) % 8 == 4 && w / 0x200_0000 == 0 ==> decode_spec(table_rv32i_spec(), w) == Ok::<(RiscvInstr, RVInstrInfo), Exception>((RiscvInstr::XOR, decode_info_spec(w, InstrFormat::R))),
        w % 0x80 == 51 && (w / 0x1000) % 8 == 5 && w / 0x200_0000 == 0 ==> decode_spec(table_rv32i_spec(), w) == Ok::<(RiscvInstr, RVInstrInfo), Exception>((RiscvInstr::SRL, decode_info_spec(w, InstrFormat::R))),
        w % 0x80 == 51 && (w / 0x1000) % 8 == 5 && w / 0x200_0000 == 32 ==> decode_spec(table_rv32i_spec(), w) == Ok::<(RiscvInstr, RVInstrInfo), Exception>((RiscvInstr::SRA, decode_info_spec(w, InstrFormat::R))),
        w % 0x80 == 51 && (w / 0x1000) % 8 == 6 && w / 0x200_0000 == 0 ==> decode_spec(table_rv32i_spec(), w) == Ok::<(RiscvInstr, RVInstrInfo), Exception>((RiscvInstr::OR, decode_info_spec(w, InstrFormat::R))),
        w % 0x80 == 51 && (w / 0x1000) % 8 == 7 && w / 0x200_0000 == 0 ==> decode_spec(table_rv32i_spec(), w) == Ok::<(RiscvInstr, RVInstrInfo), Exception>((RiscvInstr::AND, decode_info_spec(w, InstrFormat::R))),
        w % 0x80 == 51 && (w / 0x1000) % 8 == 0 && w / 0x200_0000 == 1 ==> decode_spec(table_rv32i_spec(), w) == Ok::<(RiscvInstr, RVInstrInfo), Exception>((RiscvInstr::MUL, decode_info_spec(w, InstrFormat::R))),
        w % 0x80 == 51 && (w / 0x1000) % 8 == 1 && w / 0x200_0000 == 1 ==> decode_spec(table_rv32i_spec(), w) == Ok::<(RiscvInstr, RVInstrInfo), Exception>((RiscvInstr::MULH, decode_info_spec(w, InstrFormat::R))),
        w % 0x80 == 51 && (w / 0x1000) % 8 == 2 && w / 0x200_0000 == 1 ==> decode_spec(table_rv32i_spec(), w) == Ok::<(RiscvInstr, RVInstrInfo), Exception>((RiscvInstr::MULHSU, decode_info_spec(w, InstrFormat::R))),
        w % 0x80 == 51 && (w / 0x1000) % 8 == 3 && w / 0x200_0000 == 1 ==> decode_spec(table_rv32i_spec(), w) == Ok::<(RiscvInstr, RVInstrInfo), Exception>((RiscvInstr::MULHU, decode_info_spec(w, InstrFormat::R))),
        w % 0x80 == 51 && (w / 0x1000) % 8 == 4 && w / 0x200_0000 == 1 ==> decode_spec(table_rv32i_spec(), w) == Ok::<(RiscvInstr, RVInstrInfo), Exception>((RiscvInstr::DIV, decode_info_spec(w, InstrFormat::R))),
        w % 0x80 == 51 && (w / 0x1000) % 8 == 5 && w / 0x200_0000 == 1 ==> decode_spec(table_rv32i_spec(), w) == Ok::<(RiscvInstr, RVInstrInfo), Exception>((RiscvInstr::DIVU, decode_info_spec(w, InstrFormat::R))),
        w % 0x80 == 51 && (w / 0x1000) % 8 == 6 && w / 0x200_0000 == 1 ==> decode_spec(table_rv32i_spec(), w) == Ok::<(RiscvInstr, RVInstrInfo), Exception>((RiscvInstr::REM, decode_info_spec(w, InstrFormat::R))),
        w % 0x80 == 51 && (w / 0x1000) % 8 == 7 && w / 0x200_0000 == 1 ==> decode_spec(table_rv32i_spec(), w) == Ok::<(RiscvInstr, RVInstrInfo), Exception>((RiscvInstr::REMU, decode_info_spec(w, InstrFormat::R))),
        w % 0x80 == 59 && (w / 0x1000) % 8 == 0 && w / 0x200_0000 == 0 ==> decode_spec(table_rv32i_spec(), w) == Ok::<(RiscvInstr, RVInstrInfo), Exception>((RiscvInstr::ADDW, decode_info_spec(w, InstrFormat::R))),
        w % 0x80 == 59 && (w / 0x1000) % 8 == 0 && w / 0x200_0000 == 32 ==> decode_spec(table_rv32i_spec(), w) == Ok::<(RiscvInstr, RVInstrInfo), Exception>((RiscvInstr::SUBW, decode_info_spec(w, InstrFormat::R))),
        w % 0x80 == 59 && (w / 0x1000) % 8 == 1 && w / 0x200_0000 == 0 ==> decode_spec(table_rv32i_spec(), w) == Ok::<(RiscvInstr, RVInstrInfo), Exception>((RiscvInstr::SLLW, decode_info_spec(w, InstrFormat::R))),
        w % 0x80 == 59 && (w / 0x1000) % 8 == 5 && w / 0x200_0000 == 0 ==> decode_spec(table_rv32i_spec(), w) == Ok::<(RiscvInstr, RVInstrInfo), Exception>((RiscvInstr::SRLW, decode_info_spec(w, InstrFormat::R))),
        w % 0x80 == 59 && (w / 0x1000) % 8 == 5 && w / 0x200_0000 == 32 ==> decode_spec(table_rv32i_spec(), w) == Ok::<(RiscvInstr, RVInstrInfo), Exception>((RiscvInstr::SRAW, decode_info_spec(w, InstrFormat::R))),
        w % 0x80 == 19 && (w / 0x1000) % 8 == 0 ==> decode_spec(table_rv32i_spec(), w) == Ok::<(RiscvInstr, RVInstrInfo), Exception>((RiscvInstr::ADDI, decode_info_spec(w, InstrFormat::I))),
        w % 0x80 == 19 && (w / 0x1000) % 8 == 2 ==> decode_spec(table_rv32i_spec(), w) == Ok::<(RiscvInstr, RVInstrInfo), Exception>((RiscvInstr::SLTI, decode_info_spec(w, InstrFormat::I))),
        w % 0x80 == 19 && (w / 0x1000) % 8 == 3 ==> decode_spec(table_rv32i_spec(), w) == Ok::<(RiscvInstr, RVInstrInfo), Exception>((RiscvInstr::SLTIU, decode_info_spec(w, InstrFormat::I))),
        w % 0x80 == 19 && (w / 0x1000) % 8 == 4 ==> decode_spec(table_rv32i_spec(), w) == Ok::<(RiscvInstr, RVInstrInfo), Exception>((RiscvInstr::XORI, decode_info_spec(w, InstrFormat::I))),
        w % 0x80 == 19 && (w / 0x1000) % 8 == 6 ==> decode_spec(table_rv32i_spec(), w) == Ok::<(RiscvInstr, RVInstrInfo), Exception>((RiscvInstr::ORI, decode_info_spec(w, InstrFormat::I))),
        w % 0x80 == 19 && (w / 0x1000) % 8 == 7 ==> decode_spec(table_rv32i_spec(), w) == Ok::<(RiscvInstr, RVInstrInfo), Exception>((RiscvInstr::ANDI, decode_info_spec(w, InstrFormat::I))),
        w % 0x80 == 19 && (w / 0x1000) % 8 == 1 && w / 0x200_0000 == 0 ==> decode_spec(table_rv32i_spec(), w) == Ok::<(RiscvInstr, RVInstrInfo), Exception>((RiscvInstr::SLLI, decode_info_spec(w, InstrFormat::I))),
        w % 0x80 == 19 && (w / 0x1000) % 8 == 5 && w / 0x200_0000 == 0 ==> decode_spec(table_rv32i_spec(), w) == Ok::<(RiscvInstr, RVInstrInfo), Exception>((RiscvInstr::SRLI, decode_info_spec(w, InstrFormat::I))),
        w % 0x80 == 27 && (w / 0x1000) % 8 == 0 ==> decode_spec(table_rv32i_spec(), w) == Ok::<(RiscvInstr, RVInstrInfo), Exception>((RiscvInstr::ADDIW, decode_info_spec(w, InstrFormat::I))),
        w % 0x80 == 27 && (w / 0x1000) % 8 == 1 && w / 0x200_0000 == 0 ==> decode_spec(table_rv32i_spec(), w) == Ok::<(RiscvInstr, RVInstrInfo), Exception>((RiscvInstr::SLLIW, decode_info_spec(w, InstrFormat::I))),
        w % 0x80 == 27 && (w / 0x1000) % 8 == 5 && w / 0x200_0000 == 0 ==> decode_spec(table_rv32i_spec(), w) == Ok::<(RiscvInstr, RVInstrInfo), Exception>((RiscvInstr::SRLIW, decode_info_spec(w, InstrFormat::I))),
        w % 0x80 == 3 && (w / 0x1000) % 8 == 0 ==> decode_spec(table_rv32i_spec(), w) == Ok::<(RiscvInstr, RVInstrInfo), Exception>((RiscvInstr::LB, decode_info_spec(w, InstrFormat::I))),
        w % 0x80 == 3 && (w / 0x1000) % 8 == 1 ==> decode_spec(table_rv32i_spec(), w) == Ok::<(RiscvInstr, RVInstrInfo), Exception>((RiscvInstr::LH, decode_info_spec(w, InstrFormat::I))),
        w % 0x80 == 3 && (w / 0x1000) % 8 == 2 ==> decode_spec(table_rv32i_spec(), w) == Ok::<(RiscvInstr, RVInstrInfo), Exception>((RiscvInstr::LW, decode_info_spec(w, InstrFormat::I))),
        w % 0x80 == 3 && (w / 0x1000) % 8 == 3 ==> decode_spec(table_rv32i_spec(), w) == Ok::<(RiscvInstr, RVInstrInfo), Exception>((RiscvInstr::LD, decode_info_spec(w, InstrFormat::I))),
        w % 0x80 == 3 && (w / 0x1000) % 8 == 4 ==> decode_spec(table_rv32i_spec(), w) == Ok::<(RiscvInstr, RVInstrInfo), Exception>((RiscvInstr::LBU, decode_info_spec(w, InstrFormat::I))),
        w % 0x80 == 3 && (w / 0x1000) % 8 == 5 ==> decode_spec(table_rv32i_spec(), w) == Ok::<(RiscvInstr, RVInstrInfo), Exception>((RiscvInstr::LHU, decode_info_spec(w, InstrFormat::I))),
        w % 0x80 == 3 && (w / 0x1000) % 8 == 6 ==> decode_spec(table_rv32i_spec(), w) == Ok::<(RiscvInstr, RVInstrInfo), Exception>((RiscvInstr::LWU, decode_info_spec(w, InstrFormat::I))),
        w % 0x80 == 35 && (w / 0x1000) % 8 == 0 ==> decode_spec(table_rv32i_spec(), w) == Ok::<(RiscvInstr, RVInstrInfo), Exception>((RiscvInstr::SB, decode_info_spec(w, InstrFormat::S))),
        w % 0x80 == 35 && (w / 0x1000) % 8 == 1 ==> decode_spec(table_rv32i_spec(), w) == Ok::<(RiscvInstr, RVInstrInfo), Exception>((RiscvInstr::SH, decode_info_spec(w, InstrFormat::S))),
        w % 0x80 == 35 && (w / 0x1000) % 8 == 2 ==> decode_spec(table_rv32i_spec(), w) == Ok::<(RiscvInstr, RVInstrInfo), Exception>((RiscvInstr::SW, decode_info_spec(w, InstrFormat::S))),
        w % 0x80 == 35 && (w / 0x1000) % 8 == 3 ==> decode_spec(table_rv32i_spec(), w) == Ok::<(RiscvInstr, RVInstrInfo), Exception>((RiscvInstr::SD, decode_info_spec(w, InstrFormat::S))),
        w % 0x80 == 99 && (w / 0x1000) % 8 == 0 ==> decode_spec(table_rv32i_spec(), w) == Ok::<(RiscvInstr, RVInstrInfo), Exception>((RiscvInstr::BEQ, decode_info_spec(w, InstrFormat::B))),
        w % 0x80 == 99 && (w / 0x1000) % 8 == 1 ==> decode_spec(table_rv32i_spec(), w) == Ok::<(RiscvInstr, RVInstrInfo), Exception>((RiscvInstr::BNE, decode_info_spec(w, InstrFormat::B))),
        w % 0x80 == 99 && (w / 0x1000) % 8 == 4 ==> decode_spec(table_rv32i_spec(), w) == Ok::<(RiscvInstr, RVInstrInfo), Exception>((RiscvInstr::BLT, decode_info_spec(w, InstrFormat::B))),
        w % 0x80 == 99 && (w / 0x1000) % 8 == 5 ==> decode_spec(table_rv32i_spec(), w) == Ok::<(RiscvInstr, RVInstrInfo), Exception>((RiscvInstr::BGE, decode_info_spec(w, InstrFormat::B))),
        w % 0x80 == 99 && (w / 0x1000) % 8 == 6 ==> decode_spec(table_rv32i_spec(), w) == Ok::<(RiscvInstr, RVInstrInfo), Exception>((RiscvInstr::BLTU, decode_info_spec(w, InstrFormat::B))),
        w % 0x80 == 99 && (w / 0x1000) % 8 == 7 ==> decode_spec(table_rv32i_spec(), w) == Ok::<(RiscvInstr, RVInstrInfo), Exception>((RiscvInstr::BGEU, decode_info_spec(w, InstrFormat::B))),
        w % 0x80 == 103 && (w / 0x1000) % 8 == 0 ==> decode_spec(table_rv32i_spec(), w) == Ok::<(RiscvInstr, RVInstrInfo), Exception>((RiscvInstr::JALR, decode_info_spec(w, InstrFormat::I))),
        w % 0x80 == 15 && (w / 0x1000) % 8 == 0 ==> decode_spec(table_rv32i_spec(), w) == Ok::<(RiscvInstr, RVInstrInfo), Exception>((RiscvInstr::FENCE, decode_info_spec(w, InstrFormat::I))),
        w % 0x80 == 115 && (w / 0x1000) % 8 == 0 && w / 0x10_0000 == 0 ==> decode_spec(table_rv32i_spec(), w) == Ok::<(RiscvInstr, RVInstrInfo), Exception>((RiscvInstr::ECALL, decode_info_spec(w, InstrFormat::I))),
        w % 0x80 == 111 ==> decode_spec(table_rv32i_spec(), w) == Ok::<(RiscvInstr, RVInstrInfo), Exception>((RiscvInstr::JAL, decode_info_spec(w, InstrFormat::J))),
        w % 0x80 == 55 ==> decode_spec(table_rv32i_spec(), w) == Ok::<(RiscvInstr, RVInstrInfo), Exception>((RiscvInstr::LUI, decode_info_spec(w, InstrFormat::U))),
        w % 0x80 == 23 ==> decode_spec(table_rv32i_spec(), w) == Ok::<(RiscvInstr, RVInstrInfo), Exception>((RiscvInstr::AUIPC, decode_info_spec(w, InstrFormat::U))),
{
    if w % 0x80 == 51 && (w / 0x1000) % 8 == 0 && w / 0x200_0000 == 0 {
        lemma_decode_add(w);
    }
    if w % 0x80 == 51 && (w / 0x1000) % 8 == 0 && w / 0x200_0000 == 32 {
        lemma_decode_sub(w);
    }
    if w % 0x80 == 51 && (w / 0x1000) % 8 == 1 && w / 0x200_0000 == 0 {
        lemma_decode_sll(w);
    }
    if w % 0x80 == 51 && (w / 0x1000) % 8 == 2 && w / 0x200_0000 == 0 {
        lemma_decode_slt(w);
    }
    if w % 0x80 == 51 && (w / 0x1000) % 8 == 3 && w / 0x200_0000 == 0 {
        lemma_decode_sltu(w);
    }
    if w % 0x80 == 51 && (w / 0x1000) % 8 == 4 && w / 0x200_0000 == 0 {
        lemma_decode_xor(w);
    }
    if w % 0x80 == 51 && (w / 0x1000) % 8 == 5 && w / 0x200_0000 == 0 {
        lemma_decode_srl(w);
    }
    if w % 0x80 == 51 && (w / 0x1000) % 8 == 5 && w / 0x200_0000 == 32 {
        lemma_decode_sra(w);
    }
    if w % 0x80 == 51 && (w / 0x1000) % 8 == 6 && w / 0x200_0000 == 0 {
        lemma_decode_or(w);
    }
    if w % 0x80 == 51 && (w / 0x1000) % 8 == 7 && w / 0x200_0000 == 0 {
        lemma_decode_and(w);
    }
    if w % 0x80 == 51 && (w / 0x1000) % 8 == 0 && w / 0x200_0000 == 1 {
        lemma_decode_mul(w);
    }
    if w % 0x80 == 51 && (w / 0x1000) % 8 == 1 && w / 0x200_0000 == 1 {
        lemma_decode_mulh(w);
    }
    if w % 0x80 == 51 && (w / 0x1000) % 8 == 2 && w / 0x200_0000 == 1 {
        lemma_decode_mulhsu(w);
    }
    if w % 0x80 == 51 && (w / 0x1000) % 8 == 3 && w / 0x200_0000 == 1 {
        lemma_decode_mulhu(w);
    }
    if w % 0x80 == 51 && (w / 0x1000) % 8 == 4 && w / 0x200_0000 == 1 {
        lemma_decode_div(w);
    }
    if w % 0x80 == 51 && (w / 0x1000) % 8 == 5 && w / 0x200_0000 == 1 {
        lemma_decode_divu(w);
    }
    if w % 0x80 == 51 && (w / 0x1000) % 8 == 6 && w / 0x200_0000 == 1 {
        lemma_decode_rem(w);
    }
    if w % 0x80 == 51 && (w / 0x1000) % 8 == 7 && w / 0x200_0000 == 1 {
        lemma_decode_remu(w);
    }
    if w % 0x80 == 59 && (w / 0x1000) % 8 == 0 && w / 0x200_0000 == 0 {
        lemma_decode_addw(w);
    }
    if w % 0x80 == 59 && (w / 0x1000) % 8 == 0 && w / 0x200_0000 == 32 {
        lemma_decode_subw(w);
    }
    if w % 0x80 == 59 && (w / 0x1000) % 8 == 1 && w / 0x200_0000 == 0 {
        lemma_decode_sllw(w);
    }
    if w % 0x80 == 59 && (w / 0x1000) % 8 == 5 && w / 0x200_0000 == 0 {
        lemma_decode_srlw(w);
    }
    if w % 0x80 == 59 && (w / 0x1000) % 8 == 5 && w / 0x200_0000 == 32 {
        lemma_decode_sraw(w);
    }
    if w % 0x80 == 19 && (w / 0x1000) % 8 == 0 {
        lemma_decode_addi(w);
    }
    if w % 0x80 == 19 && (w / 0x1000) % 8 == 2 {
        lemma_decode_slti(w);
    }
    if w % 0x80 == 19 && (w / 0x1000) % 8 == 3 {
        lemma_decode_sltiu(w);
    }
    if w % 0x80 == 19 && (w / 0x1000) % 8 == 4 {
        lemma_decode_xori(w);
    }
    if w % 0x80 == 19 && (w / 0x1000) % 8 == 6 {
        lemma_decode_ori(w);
    }
    if w % 0x80 == 19 && (w / 0x1000) % 8 == 7 {
        lemma_decode_andi(w);
    }
    if w % 0x80 == 19 && (w / 0x1000) % 8 == 1 && w / 0x200_0000 == 0 {
        lemma_decode_slli(w);
    }
    if w % 0x80 == 19 && (w / 0x1000) % 8 == 5 && w / 0x200_0000 == 0 {
        lemma_decode_srli(w);
    }
    if w % 0x80 == 27 && (w / 0x1000) % 8 == 0 {
        lemma_decode_addiw(w);
    }
    if w % 0x80 == 27 && (w / 0x1000) % 8 == 1 && w / 0x200_0000 == 0 {
        lemma_decode_slliw(w);
    }
    if w % 0x80 == 27 && (w / 0x1000) % 8 == 5 && w / 0x200_0000 == 0 {
        lemma_decode_srliw(w);
    }
    if w % 0x80 == 3 && (w / 0x1000) % 8 == 0 {
        lemma_decode_lb(w);
    }
    if w % 0x80 == 3 && (w / 0x1000) % 8 == 1 {
        lemma_decode_lh(w);
    }
    if w % 0x80 == 3 && (w / 0x1000) % 8 == 2 {
        lemma_decode_lw(w);
    }
    if w % 0x80 == 3 && (w / 0x1000) % 8 == 3 {
        lemma_decode_ld(w);
    }
    if w % 0x80 == 3 && (w / 0x1000) % 8 == 4 {
        lemma_decode_lbu(w);
    }
    if w % 0x80 == 3 && (w / 0x1000) % 8 == 5 {
        lemma_decode_lhu(w);
    }
    if w % 0x80 == 3 && (w / 0x1000) % 8 == 6 {
        lemma_decode_lwu(w);
    }
    if w % 0x80 == 35 && (w / 0x1000) % 8 == 0 {
        lemma_decode_sb(w);
    }
    if w % 0x80 == 35 && (w / 0x1000) % 8 == 1 {
        lemma_decode_sh(w);
    }
    if w % 0x80 == 35 && (w / 0x1000) % 8 == 2 {
        lemma_decode_sw(w);
    }
    if w % 0x80 == 35 && (w / 0x1000) % 8 == 3 {
        lemma_decode_sd(w);
    }
    if w % 0x80 == 99 && (w / 0x1000) % 8 == 0 {
        lemma_decode_beq(w);
    }
    if w % 0x80 == 99 && (w / 0x1000) % 8 == 1 {
        lemma_decode_bne(w);
    }
    if w % 0x80 == 99 && (w / 0x1000) % 8 == 4 {
        lemma_decode_blt(w);
    }
    if w % 0x80 == 99 && (w / 0x1000) % 8 == 5 {
        lemma_decode_bge(w);
    }
    if w % 0x80 == 99 && (w / 0x1000) % 8 == 6 {
        lemma_decode_bltu(w);
    }
    if w % 0x80 == 99 && (w / 0x1000) % 8 == 7 {
        lemma_decode_bgeu(w);
    }
    if w % 0x80 == 103 && (w / 0x1000) % 8 == 0 {
        lemma_decode_jalr(w);
    }
    if w % 0x80 == 15 && (w / 0x1000) % 8 == 0 {
        lemma_decode_fence(w);
    }
    if w % 0x80 == 115 && (w / 0x1000) % 8 == 0 && w / 0x10_0000 == 0 {
        lemma_decode_ecall(w);
    }
    if w % 0x80 == 111 {
        lemma_decode_jal(w);
    }
    if w % 0x80 == 55 {
        lemma_decode_lui(w);
    }
    if w % 0x80 == 23 {
        lemma_decode_auipc(w);
    }
}

/// Every instruction's mnemonic is its own name in capitals, as the
/// assembly listing prints it (`BLTU` for `BLTU`, `SRAIW` for `SRAIW`).
pub proof fn law_mnemonics(i: RiscvInstr)
    ensures
        i == RiscvInstr::ADD ==> i.name_spec() == "ADD"@,
        i == RiscvInstr::ADDI ==> i.name_spec() == "ADDI"@,
        i == RiscvInstr::SUB ==> i.name_spec() == "SUB"@,
        i == RiscvInstr::SLL ==> i.name_spec() == "SLL"@,
        i == RiscvInstr::SRL ==> i.name_spec() == "SRL"@,
        i == RiscvInstr::SRA ==> i.name_spec() == "SRA"@,
        i == RiscvInstr::SLT ==> i.name_spec() == "SLT"@,
        i == RiscvInstr::SLTI ==> i.name_spec() == "SLTI"@,
        i == RiscvInstr::SLTIU ==> i.name_spec() == "SLTIU"@,
        i == RiscvInstr::SLTU ==> i.name_spec() == "SLTU"@,
        i == RiscvInstr::AND ==> i.name_spec() == "AND"@,
        i == RiscvInstr::ANDI ==> i.name_spec() == "ANDI"@,
        i == RiscvInstr::OR ==> i.name_spec() == "OR"@,
        i == RiscvInstr::ORI ==> i.name_spec() == "ORI"@,
        i == RiscvInstr::XOR ==> i.name_spec() == "XOR"@,
        i == RiscvInstr::XORI ==> i.name_spec() == "XORI"@,
        i == RiscvInstr::BEQ ==> i.name_spec() == "BEQ"@,
        i == RiscvInstr::BNE ==> i.name_spec() == "BNE"@,
        i == RiscvInstr::BGE ==> i.name_spec() == "BGE"@,
        i == RiscvInstr::BGEU ==> i.name_spec() == "BGEU"@,
        i == RiscvInstr::BLT ==> i.name_spec() == "BLT"@,
        i == RiscvInstr::BLTU ==> i.name_spec() == "BLTU"@,
        i == RiscvInstr::LB ==> i.name_spec() == "LB"@,
        i == RiscvInstr::LBU ==> i.name_spec() == "LBU"@,
        i == RiscvInstr::LH ==> i.name_spec() == "LH"@,
        i == RiscvInstr::LHU ==> i.name_spec() == "LHU"@,
        i == RiscvInstr::LW ==> i.name_spec() == "LW"@,
        i == RiscvInstr::SB ==> i.name_spec() == "SB"@,
        i == RiscvInstr::SH ==> i.name_spec() == "SH"@,
        i == RiscvInstr::SW ==> i.name_spec() == "SW"@,
        i == RiscvInstr::JAL ==> i.name_spec() == "JAL"@,
        i == RiscvInstr::JALR ==> i.name_spec() == "JALR"@,
        i == RiscvInstr::AUIPC ==> i.name_spec() == "AUIPC"@,
        i == RiscvInstr::LUI ==> i.name_spec() == "LUI"@,
        i == RiscvInstr::EBREAK ==> i.name_spec() == "EBREAK"@,
        i == RiscvInstr::ECALL ==> i.name_spec() == "ECALL"@,
        i == RiscvInstr::FENCE ==> i.name_spec() == "FENCE"@,
        i == RiscvInstr::DIV ==> i.name_spec() == "DIV"@,
        i == RiscvInstr::DIVU ==> i.name_spec() == "DIVU"@,
        i == RiscvInstr::MUL ==> i.name_spec() == "MUL"@,
        i == RiscvInstr::MULH ==> i.name_spec() == "MULH"@,
        i == RiscvInstr::MULHSU ==> i.name_spec() == "MULHSU"@,
        i == RiscvInstr::MULHU ==> i.name_spec() == "MULHU"@,
        i == RiscvInstr::REM ==> i.name_spec() == "REM"@,
        i == RiscvInstr::REMU ==> i.name_spec() == "REMU"@,
        i == RiscvInstr::ADDIW ==> i.name_spec() == "ADDIW"@,
        i == RiscvInstr::ADDW ==> i.name_spec() == "ADDW"@,
        i == RiscvInstr::LD ==> i.name_spec() == "LD"@,
        i == RiscvInstr::LWU ==> i.name_spec() == "LWU"@,
        i == RiscvInstr::SD ==> i.name_spec() == "SD"@,
        i == RiscvInstr::SLLI ==> i.name_spec() == "SLLI"@,
        i == RiscvInstr::SLLIW ==> i.name_spec() == "SLLIW"@,
        i == RiscvInstr::SLLW ==> i.name_spec() == "SLLW"@,
        i == RiscvInstr::SRAI ==> i.name_spec() == "SRAI"@,
        i == RiscvInstr::SRAIW ==> i.name_spec() == "SRAIW"@,
        i == RiscvInstr::SRAW ==> i.name_spec() == "SRAW"@,
        i == RiscvInstr::SRLI ==> i.name_spec() == "SRLI"@,
        i == RiscvInstr::SRLIW ==> i.name_spec() == "SRLIW"@,
        i == RiscvInstr::SRLW ==> i.name_spec() == "SRLW"@,
        i == RiscvInstr::SUBW ==> i.name_spec() == "SUBW"@,
{
}

/// The core fetches the instruction at `pc` as four bytes of RAM, little
/// endian.
pub proof fn law_fetch_little_endian(mem: Seq<u8>, pc: u64)
    requires
        BASE_ADDR <= pc,
        pc - BASE_ADDR + 4 <= mem.len(),
    ensures
        ({
            let o = pc - BASE_ADDR;
            crate::isa::riscv32::executor::fetch(mem, pc) == mem[o] + mem[o + 1] * 0x100 + mem[o + 2] * 0x1_0000 + mem[o
                + 3] * 0x100_0000
        }),
{
    reveal_with_fuel(le, 5);
    let o = pc - BASE_ADDR;
    assert(le(mem, o, 4) == mem[o] + mem[o + 1] * 0x100 + mem[o + 2] * 0x1_0000 + mem[o + 3] * 0x100_0000);
}

} // verus!
