//! The RV32 instruction descriptions: the operands an instruction carries,
//! its encoding format, the instructions of the base table and what each of
//! them does.

use vstd::prelude::*;

verus! {

/// The operands of a decoded instruction. Immediates keep the bit positions
/// that the encoding gives them: the branch and jump offsets keep their zero
/// low bit and the upper immediates their twelve zero bits.
#[derive(Clone, Copy, Debug, PartialEq, Eq, Structural)]
pub enum RVInstrInfo {
    R { rs1: u8, rs2: u8, rd: u8 },
    I { rs1: u8, rd: u8, imm: u64 },
    S { rs1: u8, rs2: u8, imm: u64 },
    B { rs1: u8, rs2: u8, imm: u64 },
    U { rd: u8, imm: u64 },
    J { rd: u8, imm: u64 },
}

/// The encoding formats.
#[derive(Clone, Copy, Debug, PartialEq, Eq, Structural)]
pub enum InstrFormat {
    U,
    J,
    B,
    I,
    S,
    R,
}

/// The exceptions of the RV32 core.
#[derive(Clone, Copy, Debug, PartialEq, Eq, Structural)]
pub enum Exception {
    /// The word is not the encoding of a known instruction.
    InvalidInstruction,
}

/// The instructions of the base table.
#[derive(Clone, Copy, Debug, PartialEq, Eq, Structural)]
pub enum RiscvInstr {
    ADD,
    ADDI,
    SUB,
    SLL,
    SRL,
    SRA,
    SLT,
    SLTI,
    SLTIU,
    SLTU,
    AND,
    ANDI,
    OR,
    ORI,
    XOR,
    XORI,
    BEQ,
    BNE,
    BGE,
    BGEU,
    BLT,
    BLTU,
    LB,
    LBU,
    LH,
    LHU,
    LW,
    SB,
    SH,
    SW,
    JAL,
    JALR,
    AUIPC,
    LUI,
    EBREAK,
    ECALL,
    FENCE,
    DIV,
    DIVU,
    MUL,
    MULH,
    MULHSU,
    MULHU,
    REM,
    REMU,
    ADDIW,
    ADDW,
    LD,
    LWU,
    SD,
    SLLI,
    SLLIW,
    SLLW,
    SRAI,
    SRAIW,
    SRAW,
    SRLI,
    SRLIW,
    SRLW,
    SUBW,
}

impl RiscvInstr {
    /// The mnemonic, in capitals.
    pub open spec fn name_spec(self) -> Seq<char> {
        match self {
            RiscvInstr::ADD => "ADD"@,
            RiscvInstr::ADDI => "ADDI"@,
            RiscvInstr::SUB => "SUB"@,
            RiscvInstr::SLL => "SLL"@,
            RiscvInstr::SRL => "SRL"@,
            RiscvInstr::SRA => "SRA"@,
            RiscvInstr::SLT => "SLT"@,
            RiscvInstr::SLTI => "SLTI"@,
            RiscvInstr::SLTIU => "SLTIU"@,
            RiscvInstr::SLTU => "SLTU"@,
            RiscvInstr::AND => "AND"@,
            RiscvInstr::ANDI => "ANDI"@,
            RiscvInstr::OR => "OR"@,
            RiscvInstr::ORI => "ORI"@,
            RiscvInstr::XOR => "XOR"@,
            RiscvInstr::XORI => "XORI"@,
            RiscvInstr::BEQ => "BEQ"@,
            RiscvInstr::BNE => "BNE"@,
            RiscvInstr::BGE => "BGE"@,
            RiscvInstr::BGEU => "BGEU"@,
            RiscvInstr::BLT => "BLT"@,
            RiscvInstr::BLTU => "BLTU"@,
            RiscvInstr::LB => "LB"@,
            RiscvInstr::LBU => "LBU"@,
            RiscvInstr::LH => "LH"@,
            RiscvInstr::LHU => "LHU"@,
            RiscvInstr::LW => "LW"@,
            RiscvInstr::SB => "SB"@,
            RiscvInstr::SH => "SH"@,
            RiscvInstr::SW => "SW"@,
            RiscvInstr::JAL => "JAL"@,
            RiscvInstr::JALR => "JALR"@,
            RiscvInstr::AUIPC => "AUIPC"@,
            RiscvInstr::LUI => "LUI"@,
            RiscvInstr::EBREAK => "EBREAK"@,
            RiscvInstr::ECALL => "ECALL"@,
            RiscvInstr::FENCE => "FENCE"@,
            RiscvInstr::DIV => "DIV"@,
            RiscvInstr::DIVU => "DIVU"@,
            RiscvInstr::MUL => "MUL"@,
            RiscvInstr::MULH => "MULH"@,
            RiscvInstr::MULHSU => "MULHSU"@,
            RiscvInstr::MULHU => "MULHU"@,
            RiscvInstr::REM => "REM"@,
            RiscvInstr::REMU => "REMU"@,
            RiscvInstr::ADDIW => "ADDIW"@,
            RiscvInstr::ADDW => "ADDW"@,
            RiscvInstr::LD => "LD"@,
            RiscvInstr::LWU => "LWU"@,
            RiscvInstr::SD => "SD"@,
            RiscvInstr::SLLI => "SLLI"@,
            RiscvInstr::SLLIW => "SLLIW"@,
            RiscvInstr::SLLW => "SLLW"@,
            RiscvInstr::SRAI => "SRAI"@,
            RiscvInstr::SRAIW => "SRAIW"@,
            RiscvInstr::SRAW => "SRAW"@,
            RiscvInstr::SRLI => "SRLI"@,
            RiscvInstr::SRLIW => "SRLIW"@,
            RiscvInstr::SRLW => "SRLW"@,
            RiscvInstr::SUBW => "SUBW"@,
        }
    }

    /// The mnemonic, in capitals.
    pub fn name(&self) -> (r: &'static str)
        ensures
            r@ == self.name_spec(),
    {
        match self {
            RiscvInstr::ADD => "ADD",
            RiscvInstr::ADDI => "ADDI",
            RiscvInstr::SUB => "SUB",
            RiscvInstr::SLL => "SLL",
            RiscvInstr::SRL => "SRL",
            RiscvInstr::SRA => "SRA",
            RiscvInstr::SLT => "SLT",
            RiscvInstr::SLTI => "SLTI",
            RiscvInstr::SLTIU => "SLTIU",
            RiscvInstr::SLTU => "SLTU",
            RiscvInstr::AND => "AND",
            RiscvInstr::ANDI => "ANDI",
            RiscvInstr::OR => "OR",
            RiscvInstr::ORI => "ORI",
            RiscvInstr::XOR => "XOR",
            RiscvInstr::XORI => "XORI",
            RiscvInstr::BEQ => "BEQ",
            RiscvInstr::BNE => "BNE",
            RiscvInstr::BGE => "BGE",
            RiscvInstr::BGEU => "BGEU",
            RiscvInstr::BLT => "BLT",
            RiscvInstr::BLTU => "BLTU",
            RiscvInstr::LB => "LB",
            RiscvInstr::LBU => "LBU",
            RiscvInstr::LH => "LH",
            RiscvInstr::LHU => "LHU",
            RiscvInstr::LW => "LW",
            RiscvInstr::SB => "SB",
            RiscvInstr::SH => "SH",
            RiscvInstr::SW => "SW",
            RiscvInstr::JAL => "JAL",
            RiscvInstr::JALR => "JALR",
            RiscvInstr::AUIPC => "AUIPC",
            RiscvInstr::LUI => "LUI",
            RiscvInstr::EBREAK => "EBREAK",
            RiscvInstr::ECALL => "ECALL",
            RiscvInstr::FENCE => "FENCE",
            RiscvInstr::DIV => "DIV",
            RiscvInstr::DIVU => "DIVU",
            RiscvInstr::MUL => "MUL",
            RiscvInstr::MULH => "MULH",
            RiscvInstr::MULHSU => "MULHSU",
            RiscvInstr::MULHU => "MULHU",
            RiscvInstr::REM => "REM",
            RiscvInstr::REMU => "REMU",
            RiscvInstr::ADDIW => "ADDIW",
            RiscvInstr::ADDW => "ADDW",
            RiscvInstr::LD => "LD",
            RiscvInstr::LWU => "LWU",
            RiscvInstr::SD => "SD",
            RiscvInstr::SLLI => "SLLI",
            RiscvInstr::SLLIW => "SLLIW",
            RiscvInstr::SLLW => "SLLW",
            RiscvInstr::SRAI => "SRAI",
            RiscvInstr::SRAIW => "SRAIW",
            RiscvInstr::SRAW => "SRAW",
            RiscvInstr::SRLI => "SRLI",
            RiscvInstr::SRLIW => "SRLIW",
            RiscvInstr::SRLW => "SRLW",
            RiscvInstr::SUBW => "SUBW",
        }
    }
}

/// One row of an instruction table: the fixed fields that identify the
/// instruction and its format.
#[derive(Clone, Copy, Debug, PartialEq, Eq, Structural)]
pub struct RV32Desc {
    pub opcode: u8,
    pub funct3: u8,
    pub funct7: u8,
    pub instr: RiscvInstr,
    pub format: InstrFormat,
}

/// The base instruction table.
pub open spec fn table_rv32i_spec() -> Seq<RV32Desc> {
    seq![
        RV32Desc { opcode: 51, funct3: 0, funct7: 0, instr: RiscvInstr::ADD, format: InstrFormat::R },
        RV32Desc { opcode: 19, funct3: 0, funct7: 0, instr: RiscvInstr::ADDI, format: InstrFormat::I },
        RV32Desc { opcode: 51, funct3: 0, funct7: 32, instr: RiscvInstr::SUB, format: InstrFormat::R },
        RV32Desc { opcode: 51, funct3: 1, funct7: 0, instr: RiscvInstr::SLL, format: InstrFormat::R },
        RV32Desc { opcode: 51, funct3: 5, funct7: 0, instr: RiscvInstr::SRL, format: InstrFormat::R },
        RV32Desc { opcode: 51, funct3: 5, funct7: 32, instr: RiscvInstr::SRA, format: InstrFormat::R },
        RV32Desc { opcode: 51, funct3: 2, funct7: 0, instr: RiscvInstr::SLT, format: InstrFormat::R },
        RV32Desc { opcode: 19, funct3: 2, funct7: 0, instr: RiscvInstr::SLTI, format: InstrFormat::I },
        RV32Desc { opcode: 19, funct3: 3, funct7: 0, instr: RiscvInstr::SLTIU, format: InstrFormat::I },
        RV32Desc { opcode: 51, funct3: 3, funct7: 0, instr: RiscvInstr::SLTU, format: InstrFormat::R },
        RV32Desc { opcode: 51, funct3: 7, funct7: 0, instr: RiscvInstr::AND, format: InstrFormat::R },
        RV32Desc { opcode: 19, funct3: 7, funct7: 0, instr: RiscvInstr::ANDI, format: InstrFormat::I },
        RV32Desc { opcode: 51, funct3: 6, funct7: 0, instr: RiscvInstr::OR, format: InstrFormat::R },
        RV32Desc { opcode: 19, funct3: 6, funct7: 0, instr: RiscvInstr::ORI, format: InstrFormat::I },
        RV32Desc { opcode: 51, funct3: 4, funct7: 0, instr: RiscvInstr::XOR, format: InstrFormat::R },
        RV32Desc { opcode: 19, funct3: 4, funct7: 0, instr: RiscvInstr::XORI, format: InstrFormat::I },
        RV32Desc { opcode: 99, funct3: 0, funct7: 0, instr: RiscvInstr::BEQ, format: InstrFormat::B },
        RV32Desc { opcode: 99, funct3: 1, funct7: 0, instr: RiscvInstr::BNE, format: InstrFormat::B },
        RV32Desc { opcode: 99, funct3: 5, funct7: 0, instr: RiscvInstr::BGE, format: InstrFormat::B },
        RV32Desc { opcode: 99, funct3: 7, funct7: 0, instr: RiscvInstr::BGEU, format: InstrFormat::B },
        RV32Desc { opcode: 99, funct3: 4, funct7: 0, instr: RiscvInstr::BLT, format: InstrFormat::B },
        RV32Desc { opcode: 99, funct3: 6, funct7: 0, instr: RiscvInstr::BLTU, format: InstrFormat::B },
        RV32Desc { opcode: 3, funct3: 0, funct7: 0, instr: RiscvInstr::LB, format: InstrFormat::I },
        RV32Desc { opcode: 3, funct3: 4, funct7: 0, instr: RiscvInstr::LBU, format: InstrFormat::I },
        RV32Desc { opcode: 3, funct3: 1, funct7: 0, instr: RiscvInstr::LH, format: InstrFormat::I },
        RV32Desc { opcode: 3, funct3: 5, funct7: 0, instr: RiscvInstr::LHU, format: InstrFormat::I },
        RV32Desc { opcode: 3, funct3: 2, funct7: 0, instr: RiscvInstr::LW, format: InstrFormat::I },
        RV32Desc { opcode: 35, funct3: 0, funct7: 0, instr: RiscvInstr::SB, format: InstrFormat::S },
        RV32Desc { opcode: 35, funct3: 1, funct7: 0, instr: RiscvInstr::SH, format: InstrFormat::S },
        RV32Desc { opcode: 35, funct3: 2, funct7: 0, instr: RiscvInstr::SW, format: InstrFormat::S },
        RV32Desc { opcode: 111, funct3: 0, funct7: 0, instr: RiscvInstr::JAL, format: InstrFormat::J },
        RV32Desc { opcode: 103, funct3: 0, funct7: 0, instr: RiscvInstr::JALR, format: InstrFormat::I },
        RV32Desc { opcode: 23, funct3: 0, funct7: 0, instr: RiscvInstr::AUIPC, format: InstrFormat::U },
        RV32Desc { opcode: 55, funct3: 0, funct7: 0, instr: RiscvInstr::LUI, format: InstrFormat::U },
        RV32Desc { opcode: 115, funct3: 0, funct7: 0, instr: RiscvInstr::EBREAK, format: InstrFormat::I },
        RV32Desc { opcode: 115, funct3: 0, funct7: 0, instr: RiscvInstr::ECALL, format: InstrFormat::I },
        RV32Desc { opcode: 15, funct3: 0, funct7: 0, instr: RiscvInstr::FENCE, format: InstrFormat::I },
        RV32Desc { opcode: 51, funct3: 4, funct7: 1, instr: RiscvInstr::DIV, format: InstrFormat::R },
        RV32Desc { opcode: 51, funct3: 5, funct7: 1, instr: RiscvInstr::DIVU, format: InstrFormat::R },
        RV32Desc { opcode: 51, funct3: 0, funct7: 1, instr: RiscvInstr::MUL, format: InstrFormat::R },
        RV32Desc { opcode: 51, funct3: 1, funct7: 1, instr: RiscvInstr::MULH, format: InstrFormat::R },
        RV32Desc { opcode: 51, funct3: 2, funct7: 1, instr: RiscvInstr::MULHSU, format: InstrFormat::R },
        RV32Desc { opcode: 51, funct3: 3, funct7: 1, instr: RiscvInstr::MULHU, format: InstrFormat::R },
        RV32Desc { opcode: 51, funct3: 6, funct7: 1, instr: RiscvInstr::REM, format: InstrFormat::R },
        RV32Desc { opcode: 51, funct3: 7, funct7: 1, instr: RiscvInstr::REMU, format: InstrFormat::R },
        RV32Desc { opcode: 27, funct3: 0, funct7: 0, instr: RiscvInstr::ADDIW, format: InstrFormat::I },
        RV32Desc { opcode: 59, funct3: 0, funct7: 0, instr: RiscvInstr::ADDW, format: InstrFormat::R },
        RV32Desc { opcode: 3, funct3: 3, funct7: 0, instr: RiscvInstr::LD, format: InstrFormat::I },
        RV32Desc { opcode: 3, funct3: 6, funct7: 0, instr: RiscvInstr::LWU, format: InstrFormat::I },
        RV32Desc { opcode: 35, funct3: 3, funct7: 0, instr: RiscvInstr::SD, format: InstrFormat::S },
        RV32Desc { opcode: 19, funct3: 1, funct7: 0, instr: RiscvInstr::SLLI, format: InstrFormat::I },
        RV32Desc { opcode: 27, funct3: 1, funct7: 0, instr: RiscvInstr::SLLIW, format: InstrFormat::I },
        RV32Desc { opcode: 59, funct3: 1, funct7: 0, instr: RiscvInstr::SLLW, format: InstrFormat::R },
        RV32Desc { opcode: 19, funct3: 5, funct7: 0, instr: RiscvInstr::SRAI, format: InstrFormat::I },
        RV32Desc { opcode: 27, funct3: 5, funct7: 32, instr: RiscvInstr::SRAIW, format: InstrFormat::I },
        RV32Desc { opcode: 59, funct3: 5, funct7: 32, instr: RiscvInstr::SRAW, format: InstrFormat::R },
        RV32Desc { opcode: 19, funct3: 5, funct7: 0, instr: RiscvInstr::SRLI, format: InstrFormat::I },
        RV32Desc { opcode: 27, funct3: 5, funct7: 0, instr: RiscvInstr::SRLIW, format: InstrFormat::I },
        RV32Desc { opcode: 59, funct3: 5, funct7: 0, instr: RiscvInstr::SRLW, format: InstrFormat::R },
        RV32Desc { opcode: 59, funct3: 0, funct7: 32, instr: RiscvInstr::SUBW, format: InstrFormat::R },
    ]
}

/// The base instruction table.
pub fn table_rv32i() -> (r: Vec<RV32Desc>)
    ensures
        r@ == table_rv32i_spec(),
{
    let v: Vec<RV32Desc> = vec![
        RV32Desc { opcode: 51, funct3: 0, funct7: 0, instr: RiscvInstr::ADD, format: InstrFormat::R },
        RV32Desc { opcode: 19, funct3: 0, funct7: 0, instr: RiscvInstr::ADDI, format: InstrFormat::I },
        RV32Desc { opcode: 51, funct3: 0, funct7: 32, instr: RiscvInstr::SUB, format: InstrFormat::R },
        RV32Desc { opcode: 51, funct3: 1, funct7: 0, instr: RiscvInstr::SLL, format: InstrFormat::R },
        RV32Desc { opcode: 51, funct3: 5, funct7: 0, instr: RiscvInstr::SRL, format: InstrFormat::R },
        RV32Desc { opcode: 51, funct3: 5, funct7: 32, instr: RiscvInstr::SRA, format: InstrFormat::R },
        RV32Desc { opcode: 51, funct3: 2, funct7: 0, instr: RiscvInstr::SLT, format: InstrFormat::R },
        RV32Desc { opcode: 19, funct3: 2, funct7: 0, instr: RiscvInstr::SLTI, format: InstrFormat::I },
        RV32Desc { opcode: 19, funct3: 3, funct7: 0, instr: RiscvInstr::SLTIU, format: InstrFormat::I },
        RV32Desc { opcode: 51, funct3: 3, funct7: 0, instr: RiscvInstr::SLTU, format: InstrFormat::R },
        RV32Desc { opcode: 51, funct3: 7, funct7: 0, instr: RiscvInstr::AND, format: InstrFormat::R },
        RV32Desc { opcode: 19, funct3: 7, funct7: 0, instr: RiscvInstr::ANDI, format: InstrFormat::I },
        RV32Desc { opcode: 51, funct3: 6, funct7: 0, instr: RiscvInstr::OR, format: InstrFormat::R },
        RV32Desc { opcode: 19, funct3: 6, funct7: 0, instr: RiscvInstr::ORI, format: InstrFormat::I },
        RV32Desc { opcode: 51, funct3: 4, funct7: 0, instr: RiscvInstr::XOR, format: InstrFormat::R },
        RV32Desc { opcode: 19, funct3: 4, funct7: 0, instr: RiscvInstr::XORI, format: InstrFormat::I },
        RV32Desc { opcode: 99, funct3: 0, funct7: 0, instr: RiscvInstr::BEQ, format: InstrFormat::B },
        RV32Desc { opcode: 99, funct3: 1, funct7: 0, instr: RiscvInstr::BNE, format: InstrFormat::B },
        RV32Desc { opcode: 99, funct3: 5, funct7: 0, instr: RiscvInstr::BGE, format: InstrFormat::B },
        RV32Desc { opcode: 99, funct3: 7, funct7: 0, instr: RiscvInstr::BGEU, format: InstrFormat::B },
        RV32Desc { opcode: 99, funct3: 4, funct7: 0, instr: RiscvInstr::BLT, format: InstrFormat::B },
        RV32Desc { opcode: 99, funct3: 6, funct7: 0, instr: RiscvInstr::BLTU, format: InstrFormat::B },
        RV32Desc { opcode: 3, funct3: 0, funct7: 0, instr: RiscvInstr::LB, format: InstrFormat::I },
        RV32Desc { opcode: 3, funct3: 4, funct7: 0, instr: RiscvInstr::LBU, format: InstrFormat::I },
        RV32Desc { opcode: 3, funct3: 1, funct7: 0, instr: RiscvInstr::LH, format: InstrFormat::I },
        RV32Desc { opcode: 3, funct3: 5, funct7: 0, instr: RiscvInstr::LHU, format: InstrFormat::I },
        RV32Desc { opcode: 3, funct3: 2, funct7: 0, instr: RiscvInstr::LW, format: InstrFormat::I },
        RV32Desc { opcode: 35, funct3: 0, funct7: 0, instr: RiscvInstr::SB, format: InstrFormat::S },
        RV32Desc { opcode: 35, funct3: 1, funct7: 0, instr: RiscvInstr::SH, format: InstrFormat::S },
        RV32Desc { opcode: 35, funct3: 2, funct7: 0, instr: RiscvInstr::SW, format: InstrFormat::S },
        RV32Desc { opcode: 111, funct3: 0, funct7: 0, instr: RiscvInstr::JAL, format: InstrFormat::J },
        RV32Desc { opcode: 103, funct3: 0, funct7: 0, instr: RiscvInstr::JALR, format: InstrFormat::I },
        RV32Desc { opcode: 23, funct3: 0, funct7: 0, instr: RiscvInstr::AUIPC, format: InstrFormat::U },
        RV32Desc { opcode: 55, funct3: 0, funct7: 0, instr: RiscvInstr::LUI, format: InstrFormat::U },
        RV32Desc { opcode: 115, funct3: 0, funct7: 0, instr: RiscvInstr::EBREAK, format: InstrFormat::I },
        RV32Desc { opcode: 115, funct3: 0, funct7: 0, instr: RiscvInstr::ECALL, format: InstrFormat::I },
        RV32Desc { opcode: 15, funct3: 0, funct7: 0, instr: RiscvInstr::FENCE, format: InstrFormat::I },
        RV32Desc { opcode: 51, funct3: 4, funct7: 1, instr: RiscvInstr::DIV, format: InstrFormat::R },
        RV32Desc { opcode: 51, funct3: 5, funct7: 1, instr: RiscvInstr::DIVU, format: InstrFormat::R },
        RV32Desc { opcode: 51, funct3: 0, funct7: 1, instr: RiscvInstr::MUL, format: InstrFormat::R },
        RV32Desc { opcode: 51, funct3: 1, funct7: 1, instr: RiscvInstr::MULH, format: InstrFormat::R },
        RV32Desc { opcode: 51, funct3: 2, funct7: 1, instr: RiscvInstr::MULHSU, format: InstrFormat::R },
        RV32Desc { opcode: 51, funct3: 3, funct7: 1, instr: RiscvInstr::MULHU, format: InstrFormat::R },
        RV32Desc { opcode: 51, funct3: 6, funct7: 1, instr: RiscvInstr::REM, format: InstrFormat::R },
        RV32Desc { opcode: 51, funct3: 7, funct7: 1, instr: RiscvInstr::REMU, format: InstrFormat::R },
        RV32Desc { opcode: 27, funct3: 0, funct7: 0, instr: RiscvInstr::ADDIW, format: InstrFormat::I },
        RV32Desc { opcode: 59, funct3: 0, funct7: 0, instr: RiscvInstr::ADDW, format: InstrFormat::R },
        RV32Desc { opcode: 3, funct3: 3, funct7: 0, instr: RiscvInstr::LD, format: InstrFormat::I },
        RV32Desc { opcode: 3, funct3: 6, funct7: 0, instr: RiscvInstr::LWU, format: InstrFormat::I },
        RV32Desc { opcode: 35, funct3: 3, funct7: 0, instr: RiscvInstr::SD, format: InstrFormat::S },
        RV32Desc { opcode: 19, funct3: 1, funct7: 0, instr: RiscvInstr::SLLI, format: InstrFormat::I },
        RV32Desc { opcode: 27, funct3: 1, funct7: 0, instr: RiscvInstr::SLLIW, format: InstrFormat::I },
        RV32Desc { opcode: 59, funct3: 1, funct7: 0, instr: RiscvInstr::SLLW, format: InstrFormat::R },
        RV32Desc { opcode: 19, funct3: 5, funct7: 0, instr: RiscvInstr::SRAI, format: InstrFormat::I },
        RV32Desc { opcode: 27, funct3: 5, funct7: 32, instr: RiscvInstr::SRAIW, format: InstrFormat::I },
        RV32Desc { opcode: 59, funct3: 5, funct7: 32, instr: RiscvInstr::SRAW, format: InstrFormat::R },
        RV32Desc { opcode: 19, funct3: 5, funct7: 0, instr: RiscvInstr::SRLI, format: InstrFormat::I },
        RV32Desc { opcode: 27, funct3: 5, funct7: 0, instr: RiscvInstr::SRLIW, format: InstrFormat::I },
        RV32Desc { opcode: 59, funct3: 5, funct7: 0, instr: RiscvInstr::SRLW, format: InstrFormat::R },
        RV32Desc { opcode: 59, funct3: 0, funct7: 32, instr: RiscvInstr::SUBW, format: InstrFormat::R },
    ];
    proof {
        assert(v@ =~= table_rv32i_spec());
    }
    v
}

/// The register-register and register-immediate operations.
#[derive(Clone, Copy, Debug, PartialEq, Eq, Structural)]
pub enum AluOp {
    Add,
    Sub,
    MulLow,
    MulHighSigned,
    MulHighUnsigned,
    MulHighSignedUnsigned,
    DivSigned,
    DivUnsigned,
    RemSigned,
    RemUnsigned,
    Sll,
    Srl,
    Sra,
    Addw,
    Subw,
    Sllw,
    Srlw,
    Sraw,
    And,
    Or,
    Xor,
    SignedLess,
    UnsignedLess,
}

/// The branch conditions.
#[derive(Clone, Copy, Debug, PartialEq, Eq, Structural)]
pub enum BranchOp {
    Equal,
    NotEqual,
    SignedLess,
    SignedGreatEqual,
    UnsignedLess,
    UnsignedGreatEqual,
}

/// What an instruction does.
#[derive(Clone, Copy, Debug, PartialEq, Eq, Structural)]
pub enum InstrClass {
    /// `rd = op(rs1, rs2 or the sign-extended immediate)`.
    Arith(AluOp),
    /// A conditional branch.
    Branch(BranchOp),
    /// A load of the given number of bytes, sign-extended when the flag
    /// holds.
    Load(u8, bool),
    /// A store of the given number of bytes.
    Store(u8),
    Jal,
    Jalr,
    Auipc,
    Lui,
    /// A fence: nothing to do for an in-order core.
    Fence,
    /// An instruction that the core does not implement.
    Unimplemented,
}

/// What each instruction of the table does.
pub open spec fn class_spec(instr: RiscvInstr) -> InstrClass {
    match instr {
        RiscvInstr::ADD => InstrClass::Arith(AluOp::Add),
        RiscvInstr::ADDI => InstrClass::Arith(AluOp::Add),
        RiscvInstr::SUB => InstrClass::Arith(AluOp::Sub),
        RiscvInstr::SLL => InstrClass::Arith(AluOp::Sll),
        RiscvInstr::SRL => InstrClass::Arith(AluOp::Srl),
        RiscvInstr::SRA => InstrClass::Arith(AluOp::Sra),
        RiscvInstr::SLT => InstrClass::Arith(AluOp::SignedLess),
        RiscvInstr::SLTI => InstrClass::Arith(AluOp::SignedLess),
        RiscvInstr::SLTIU => InstrClass::Arith(AluOp::UnsignedLess),
        RiscvInstr::SLTU => InstrClass::Arith(AluOp::UnsignedLess),
        RiscvInstr::AND => InstrClass::Arith(AluOp::And),
        RiscvInstr::ANDI => InstrClass::Arith(AluOp::And),
        RiscvInstr::OR => InstrClass::Arith(AluOp::Or),
        RiscvInstr::ORI => InstrClass::Arith(AluOp::Or),
        RiscvInstr::XOR => InstrClass::Arith(AluOp::Xor),
        RiscvInstr::XORI => InstrClass::Arith(AluOp::Xor),
        RiscvInstr::BEQ => InstrClass::Branch(BranchOp::Equal),
        RiscvInstr::BNE => InstrClass::Branch(BranchOp::NotEqual),
        RiscvInstr::BGE => InstrClass::Branch(BranchOp::SignedGreatEqual),
        RiscvInstr::BGEU => InstrClass::Branch(BranchOp::UnsignedGreatEqual),
        RiscvInstr::BLT => InstrClass::Branch(BranchOp::SignedLess),
        RiscvInstr::BLTU => InstrClass::Branch(BranchOp::UnsignedLess),
        RiscvInstr::LB => InstrClass::Load(1, true),
        RiscvInstr::LBU => InstrClass::Load(1, false),
        RiscvInstr::LH => InstrClass::Load(2, true),
        RiscvInstr::LHU => InstrClass::Load(2, false),
        RiscvInstr::LW => InstrClass::Load(4, true),
        RiscvInstr::SB => InstrClass::Store(1),
        RiscvInstr::SH => InstrClass::Store(2),
        RiscvInstr::SW => InstrClass::Store(4),
        RiscvInstr::JAL => InstrClass::Jal,
        RiscvInstr::JALR => InstrClass::Jalr,
        RiscvInstr::AUIPC => InstrClass::Auipc,
        RiscvInstr::LUI => InstrClass::Lui,
        RiscvInstr::EBREAK => InstrClass::Unimplemented,
        RiscvInstr::ECALL => InstrClass::Unimplemented,
        RiscvInstr::FENCE => InstrClass::Fence,
        RiscvInstr::DIV => InstrClass::Arith(AluOp::DivSigned),
        RiscvInstr::DIVU => InstrClass::Arith(AluOp::DivUnsigned),
        RiscvInstr::MUL => InstrClass::Arith(AluOp::MulLow),
        RiscvInstr::MULH => InstrClass::Arith(AluOp::MulHighSigned),
        RiscvInstr::MULHSU => InstrClass::Arith(AluOp::MulHighSignedUnsigned),
        RiscvInstr::MULHU => InstrClass::Arith(AluOp::MulHighUnsigned),
        RiscvInstr::REM => InstrClass::Arith(AluOp::RemSigned),
        RiscvInstr::REMU => InstrClass::Arith(AluOp::RemUnsigned),
        RiscvInstr::ADDIW => InstrClass::Arith(AluOp::Addw),
        RiscvInstr::ADDW => InstrClass::Arith(AluOp::Addw),
        RiscvInstr::LD => InstrClass::Load(8, false),
        RiscvInstr::LWU => InstrClass::Load(4, false),
        RiscvInstr::SD => InstrClass::Store(8),
        RiscvInstr::SLLI => InstrClass::Arith(AluOp::Sll),
        RiscvInstr::SLLIW => InstrClass::Arith(AluOp::Sllw),
        RiscvInstr::SLLW => InstrClass::Arith(AluOp::Sllw),
        RiscvInstr::SRAI => InstrClass::Arith(AluOp::Sra),
        RiscvInstr::SRAIW => InstrClass::Arith(AluOp::Sraw),
        RiscvInstr::SRAW => InstrClass::Arith(AluOp::Sraw),
        RiscvInstr::SRLI => InstrClass::Arith(AluOp::Srl),
        RiscvInstr::SRLIW => InstrClass::Arith(AluOp::Srlw),
        RiscvInstr::SRLW => InstrClass::Arith(AluOp::Srlw),
        RiscvInstr::SUBW => InstrClass::Arith(AluOp::Subw),
    }
}

/// What `instr` does.
pub fn instr_class(instr: RiscvInstr) -> (r: InstrClass)
    ensures
        r == class_spec(instr),
{
    match instr {
        RiscvInstr::ADD => InstrClass::Arith(AluOp::Add),
        RiscvInstr::ADDI => InstrClass::Arith(AluOp::Add),
        RiscvInstr::SUB => InstrClass::Arith(AluOp::Sub),
        RiscvInstr::SLL => InstrClass::Arith(AluOp::Sll),
        RiscvInstr::SRL => InstrClass::Arith(AluOp::Srl),
        RiscvInstr::SRA => InstrClass::Arith(AluOp::Sra),
        RiscvInstr::SLT => InstrClass::Arith(AluOp::SignedLess),
        RiscvInstr::SLTI => InstrClass::Arith(AluOp::SignedLess),
        RiscvInstr::SLTIU => InstrClass::Arith(AluOp::UnsignedLess),
        RiscvInstr::SLTU => InstrClass::Arith(AluOp::UnsignedLess),
        RiscvInstr::AND => InstrClass::Arith(AluOp::And),
        RiscvInstr::ANDI => InstrClass::Arith(AluOp::And),
        RiscvInstr::OR => InstrClass::Arith(AluOp::Or),
        RiscvInstr::ORI => InstrClass::Arith(AluOp::Or),
        RiscvInstr::XOR => InstrClass::Arith(AluOp::Xor),
        RiscvInstr::XORI => InstrClass::Arith(AluOp::Xor),
        RiscvInstr::BEQ => InstrClass::Branch(BranchOp::Equal),
        RiscvInstr::BNE => InstrClass::Branch(BranchOp::NotEqual),
        RiscvInstr::BGE => InstrClass::Branch(BranchOp::SignedGreatEqual),
        RiscvInstr::BGEU => InstrClass::Branch(BranchOp::UnsignedGreatEqual),
        RiscvInstr::BLT => InstrClass::Branch(BranchOp::SignedLess),
        RiscvInstr::BLTU => InstrClass::Branch(BranchOp::UnsignedLess),
        RiscvInstr::LB => InstrClass::Load(1, true),
        RiscvInstr::LBU => InstrClass::Load(1, false),
        RiscvInstr::LH => InstrClass::Load(2, true),
        RiscvInstr::LHU => InstrClass::Load(2, false),
        RiscvInstr::LW => InstrClass::Load(4, true),
        RiscvInstr::SB => InstrClass::Store(1),
        RiscvInstr::SH => InstrClass::Store(2),
        RiscvInstr::SW => InstrClass::Store(4),
        RiscvInstr::JAL => InstrClass::Jal,
        RiscvInstr::JALR => InstrClass::Jalr,
        RiscvInstr::AUIPC => InstrClass::Auipc,
        RiscvInstr::LUI => InstrClass::Lui,
        RiscvInstr::EBREAK => InstrClass::Unimplemented,
        RiscvInstr::ECALL => InstrClass::Unimplemented,
        RiscvInstr::FENCE => InstrClass::Fence,
        RiscvInstr::DIV => InstrClass::Arith(AluOp::DivSigned),
        RiscvInstr::DIVU => InstrClass::Arith(AluOp::DivUnsigned),
        RiscvInstr::MUL => InstrClass::Arith(AluOp::MulLow),
        RiscvInstr::MULH => InstrClass::Arith(AluOp::MulHighSigned),
        RiscvInstr::MULHSU => InstrClass::Arith(AluOp::MulHighSignedUnsigned),
        RiscvInstr::MULHU => InstrClass::Arith(AluOp::MulHighUnsigned),
        RiscvInstr::REM => InstrClass::Arith(AluOp::RemSigned),
        RiscvInstr::REMU => InstrClass::Arith(AluOp::RemUnsigned),
        RiscvInstr::ADDIW => InstrClass::Arith(AluOp::Addw),
        RiscvInstr::ADDW => InstrClass::Arith(AluOp::Addw),
        RiscvInstr::LD => InstrClass::Load(8, false),
        RiscvInstr::LWU => InstrClass::Load(4, false),
        RiscvInstr::SD => InstrClass::Store(8),
        RiscvInstr::SLLI => InstrClass::Arith(AluOp::Sll),
        RiscvInstr::SLLIW => InstrClass::Arith(AluOp::Sllw),
        RiscvInstr::SLLW => InstrClass::Arith(AluOp::Sllw),
        RiscvInstr::SRAI => InstrClass::Arith(AluOp::Sra),
        RiscvInstr::SRAIW => InstrClass::Arith(AluOp::Sraw),
        RiscvInstr::SRAW => InstrClass::Arith(AluOp::Sraw),
        RiscvInstr::SRLI => InstrClass::Arith(AluOp::Srl),
        RiscvInstr::SRLIW => InstrClass::Arith(AluOp::Srlw),
        RiscvInstr::SRLW => InstrClass::Arith(AluOp::Srlw),
        RiscvInstr::SUBW => InstrClass::Arith(AluOp::Subw),
    }
}

} // verus!
