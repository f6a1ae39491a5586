//! The RV32 decoder: instruction words to instructions and their operands,
//! driven by a table of instruction descriptions.

use vstd::prelude::*;
use crate::isa::riscv32::instruction::{RVInstrInfo, InstrFormat, Exception, RiscvInstr, RV32Desc, table_rv32i, table_rv32i_spec};

verus! {

/// The operands of the word `instr` under the format `fmt`, read field by
/// field as the encoding places them.
pub open spec fn decode_info_spec(instr: u32, fmt: InstrFormat) -> RVInstrInfo {
    let rd = ((instr / 0x80) % 0x20) as u8;
    let rs1 = ((instr / 0x8000) % 0x20) as u8;
    let rs2 = ((instr / 0x10_0000) % 0x20) as u8;
    match fmt {
        InstrFormat::R => RVInstrInfo::R { rd, rs1, rs2 },
        InstrFormat::I => RVInstrInfo::I { rd, rs1, imm: ((instr / 0x10_0000) % 0x1000) as u64 },
        InstrFormat::S => RVInstrInfo::S {
            rs1,
            rs2,
            imm: ((instr / 0x200_0000) * 0x20 + (instr / 0x80) % 0x20) as u64,
        },
        InstrFormat::U => RVInstrInfo::U { rd, imm: ((instr / 0x1000) * 0x1000) as u64 },
        InstrFormat::B => RVInstrInfo::B {
            rs1,
            rs2,
            imm: ((instr / 0x8000_0000) * 0x1000 + ((instr / 0x80) % 2) * 0x800 + ((instr / 0x200_0000) % 0x40)
                * 0x20 + ((instr / 0x100) % 0x10) * 2) as u64,
        },
        InstrFormat::J => RVInstrInfo::J {
            rd,
            imm: ((instr / 0x8000_0000) * 0x10_0000 + ((instr / 0x1000) % 0x100) * 0x1000 + ((instr / 0x10_0000)
                % 2) * 0x800 + ((instr / 0x20_0000) % 0x400) * 2) as u64,
        },
    }
}

/// The operands of the word `instr` under the format `fmt`.
pub fn decode_info(instr: u32, fmt: InstrFormat) -> (r: RVInstrInfo)
    ensures
        r == decode_info_spec(instr, fmt),
{
    let rd = ((instr >> 7) & 0b11111) as u8;
    let rs1 = ((instr >> 15) & 0b11111) as u8;
    let rs2 = ((instr >> 20) & 0b11111) as u8;
    assert((instr >> 7) & 0b11111 == (instr / 0x80) % 0x20) by (bit_vector);
    assert((instr >> 15) & 0b11111 == (instr / 0x8000) % 0x20) by (bit_vector);
    assert((instr >> 20) & 0b11111 == (instr / 0x10_0000) % 0x20) by (bit_vector);
    match fmt {
        InstrFormat::R => RVInstrInfo::R { rd, rs1, rs2 },
        InstrFormat::I => {
            let imm = (instr >> 20) & 0xFFF;
            assert((instr >> 20) & 0xFFF == (instr / 0x10_0000) % 0x1000) by (bit_vector);
            RVInstrInfo::I { rd, rs1, imm: imm as u64 }
        },
        InstrFormat::S => {
            let imm = (((instr >> 25) & 0xFF) << 5) | ((instr >> 7) & 0b11111);
            assert((((instr >> 25) & 0xFF) << 5) | ((instr >> 7) & 0b11111) == (instr / 0x200_0000) * 0x20 + (instr
                / 0x80) % 0x20) by (bit_vector);
            RVInstrInfo::S { rs1, rs2, imm: imm as u64 }
        },
        InstrFormat::U => {
            let imm = (instr >> 12) << 12;
            assert((instr >> 12) << 12 == (instr / 0x1000) * 0x1000) by (bit_vector);
            RVInstrInfo::U { rd, imm: imm as u64 }
        },
        InstrFormat::B => {
            let imm = (((instr >> 31) & 1) << 12) | (((instr >> 7) & 1) << 11) | (((instr >> 25) & 0b111111) << 5) | (((
            instr >> 8) & 0b1111) << 1);
            assert((((instr >> 31) & 1) << 12) | (((instr >> 7) & 1) << 11) | (((instr >> 25) & 0b111111) << 5) | (((
            instr >> 8) & 0b1111) << 1) == (instr / 0x8000_0000) * 0x1000 + ((instr / 0x80) % 2) * 0x800 + ((instr
                / 0x200_0000) % 0x40) * 0x20 + ((instr / 0x100) % 0x10) * 2) by (bit_vector);
            RVInstrInfo::B { rs1, rs2, imm: imm as u64 }
        },
        InstrFormat::J => {
            let imm = (((instr >> 31) & 1) << 20) | (((instr >> 12) & 0xFF) << 12) | (((instr >> 20) & 1) << 11) | (((
            instr >> 21) & 0x3FF) << 1);
            assert((((instr >> 31) & 1) << 20) | (((instr >> 12) & 0xFF) << 12) | (((instr >> 20) & 1) << 11) | (((
            instr >> 21) & 0x3FF) << 1) == (instr / 0x8000_0000) * 0x10_0000 + ((instr / 0x1000) % 0x100) * 0x1000
                + ((instr / 0x10_0000) % 2) * 0x800 + ((instr / 0x20_0000) % 0x400) * 2) by (bit_vector);
            RVInstrInfo::J { rd, imm: imm as u64 }
        },
    }
}

/// What the opcode alone tells the decoder.
#[derive(Clone, Copy, Debug, PartialEq, Eq, Structural)]
pub enum PartialDecode {
    /// The opcode names one instruction.
    Complete(RiscvInstr, InstrFormat),
    /// The instruction depends on `funct3` too.
    RequireF3,
    /// The instruction depends on `funct3` and `funct7` too.
    RequireF7,
}

/// What a description records under its opcode.
pub open spec fn partial_of(d: RV32Desc) -> PartialDecode {
    match d.format {
        InstrFormat::R => PartialDecode::RequireF7,
        InstrFormat::I | InstrFormat::S | InstrFormat::B => PartialDecode::RequireF3,
        _ => PartialDecode::Complete(d.instr, d.format),
    }
}

/// Whether a description is looked up by `funct3`.
pub open spec fn uses_f3(d: RV32Desc) -> bool {
    d.format == InstrFormat::I || d.format == InstrFormat::S || d.format == InstrFormat::B
}

/// The entry for `opcode` after recording `descs` in order: the last
/// description with that opcode wins.
pub open spec fn lookup_opcode(descs: Seq<RV32Desc>, opcode: int) -> Option<PartialDecode>
    decreases descs.len(),
{
    if descs.len() == 0 {
        None
    } else if descs.last().opcode == opcode {
        Some(partial_of(descs.last()))
    } else {
        lookup_opcode(descs.drop_last(), opcode)
    }
}

/// The instruction recorded for `(opcode, funct3)`: the last description of
/// an `I`, `S` or `B` instruction with those fields.
pub open spec fn lookup_f3(descs: Seq<RV32Desc>, opcode: int, f3: int) -> Option<(RiscvInstr, InstrFormat)>
    decreases descs.len(),
{
    if descs.len() == 0 {
        None
    } else if uses_f3(descs.last()) && descs.last().opcode == opcode && descs.last().funct3 == f3 {
        Some((descs.last().instr, descs.last().format))
    } else {
        lookup_f3(descs.drop_last(), opcode, f3)
    }
}

/// The instruction recorded for `(opcode, funct3, funct7)`: the last
/// description of an `R` instruction with those fields.
pub open spec fn lookup_f7(descs: Seq<RV32Desc>, opcode: int, f3: int, f7: int) -> Option<(RiscvInstr, InstrFormat)>
    decreases descs.len(),
{
    if descs.len() == 0 {
        None
    } else if descs.last().format == InstrFormat::R && descs.last().opcode == opcode && descs.last().funct3 == f3
        && descs.last().funct7 == f7 {
        Some((descs.last().instr, descs.last().format))
    } else {
        lookup_f7(descs.drop_last(), opcode, f3, f7)
    }
}

/// What decoding the word `instr` gives under the descriptions `descs`.
pub open spec fn decode_spec(descs: Seq<RV32Desc>, instr: u32) -> Result<(RiscvInstr, RVInstrInfo), Exception> {
    let opcode = instr % 0x80;
    let f3 = (instr / 0x1000) % 8;
    let f7 = instr / 0x200_0000;
    match lookup_opcode(descs, opcode as int) {
        None => Err(Exception::InvalidInstruction),
        Some(PartialDecode::Complete(i, fmt)) => Ok((i, decode_info_spec(instr, fmt))),
        Some(PartialDecode::RequireF3) => match lookup_f3(descs, opcode as int, f3 as int) {
            None => Err(Exception::InvalidInstruction),
            Some((i, fmt)) => Ok((i, decode_info_spec(instr, fmt))),
        },
        Some(PartialDecode::RequireF7) => match lookup_f7(descs, opcode as int, f3 as int, f7 as int) {
            None => Err(Exception::InvalidInstruction),
            Some((i, fmt)) => Ok((i, decode_info_spec(instr, fmt))),
        },
    }
}

/// The number of `funct7` entries per `(opcode, funct3)` pair and of
/// `funct3` entries per opcode.
pub open spec fn f7_index(opcode: int, f3: int, f7: int) -> int {
    opcode * 1024 + f3 * 128 + f7
}

/// A decoder built from a list of instruction descriptions.
pub struct Decoder {
    decode_table: Vec<Option<PartialDecode>>,
    decode_table_f3: Vec<Option<(RiscvInstr, InstrFormat)>>,
    decode_table_f7: Vec<Option<(RiscvInstr, InstrFormat)>>,
    descs: Ghost<Seq<RV32Desc>>,
}

impl Decoder {
    /// The descriptions the decoder was built from, in order.
    pub closed spec fn descriptions(&self) -> Seq<RV32Desc> {
        self.descs@
    }

    /// The tables hold what the descriptions record.
    pub closed spec fn wf(&self) -> bool {
        &&& self.decode_table@.len() == 128
        &&& self.decode_table_f3@.len() == 1024
        &&& self.decode_table_f7@.len() == 131072
        &&& forall|op: int| 0 <= op < 128 ==> #[trigger] self.decode_table@[op] == lookup_opcode(self.descs@, op)
        &&& forall|op: int, f3: int|
            0 <= op < 128 && 0 <= f3 < 8 ==> #[trigger] self.decode_table_f3@[op * 8 + f3] == lookup_f3(
                self.descs@,
                op,
                f3,
            )
        &&& forall|op: int, f3: int, f7: int|
            0 <= op < 128 && 0 <= f3 < 8 && 0 <= f7 < 128 ==> #[trigger] self.decode_table_f7@[f7_index(op, f3, f7)]
                == lookup_f7(self.descs@, op, f3, f7)
    }

    /// A decoder for the base instruction table.
    pub fn new() -> (r: Self)
        ensures
            r.wf(),
            r.descriptions() == table_rv32i_spec(),
    {
        let table = table_rv32i();
        Decoder::from(&table)
    }

    /// A decoder for the descriptions `instrs`; when two of them claim the
    /// same fields, the later one wins.
    pub fn from(instrs: &Vec<RV32Desc>) -> (r: Self)
        ensures
            r.wf(),
            r.descriptions() == instrs@,
    {
        let mut decode_table: Vec<Option<PartialDecode>> = Vec::new();
        let mut k: usize = 0;
        while k < 128
            invariant
                k <= 128,
                decode_table@.len() == k,
                forall|j: int| 0 <= j < k ==> decode_table@[j] is None,
            decreases 128 - k,
        {
            decode_table.push(None);
            k = k + 1;
        }
        let mut decode_table_f3: Vec<Option<(RiscvInstr, InstrFormat)>> = Vec::new();
        let mut k: usize = 0;
        while k < 1024
            invariant
                k <= 1024,
                decode_table_f3@.len() == k,
                forall|j: int| 0 <= j < k ==> decode_table_f3@[j] is None,
            decreases 1024 - k,
        {
            decode_table_f3.push(None);
            k = k + 1;
        }
        let mut decode_table_f7: Vec<Option<(RiscvInstr, InstrFormat)>> = Vec::new();
        let mut k: usize = 0;
        while k < 131072
            invariant
                k <= 131072,
                decode_table_f7@.len() == k,
                forall|j: int| 0 <= j < k ==> decode_table_f7@[j] is None,
            decreases 131072 - k,
        {
            decode_table_f7.push(None);
            k = k + 1;
        }
        let mut i: usize = 0;
        while i < instrs.len()
            invariant
                i <= instrs@.len(),
                decode_table@.len() == 128,
                decode_table_f3@.len() == 1024,
                decode_table_f7@.len() == 131072,
                forall|op: int|
                    0 <= op < 128 ==> #[trigger] decode_table@[op] == lookup_opcode(instrs@.subrange(0, i as int), op),
                forall|op: int, f3: int|
                    0 <= op < 128 && 0 <= f3 < 8 ==> #[trigger] decode_table_f3@[op * 8 + f3] == lookup_f3(
                        instrs@.subrange(0, i as int),
                        op,
                        f3,
                    ),
                forall|op: int, f3: int, f7: int|
                    0 <= op < 128 && 0 <= f3 < 8 && 0 <= f7 < 128 ==> #[trigger] decode_table_f7@[f7_index(op, f3, f7)]
                        == lookup_f7(instrs@.subrange(0, i as int), op, f3, f7),
            decreases instrs@.len() - i,
        {
            let d = instrs[i];
            let ghost prev = instrs@.subrange(0, i as int);
            let ghost next = instrs@.subrange(0, i as int + 1);
            proof {
                assert(next.drop_last() =~= prev);
                assert(next.last() == d);
            }
            if d.opcode < 128 {
                let op = d.opcode as usize;
                match d.format {
                    InstrFormat::R => {
                        decode_table.set(op, Some(PartialDecode::RequireF7));
                        if d.funct3 < 8 && d.funct7 < 128 {
                            let idx = op * 1024 + d.funct3 as usize * 128 + d.funct7 as usize;
                            decode_table_f7.set(idx, Some((d.instr, d.format)));
                        }
                    },
                    InstrFormat::I | InstrFormat::S | InstrFormat::B => {
                        decode_table.set(op, Some(PartialDecode::RequireF3));
                        if d.funct3 < 8 {
                            let idx = op * 8 + d.funct3 as usize;
                            decode_table_f3.set(idx, Some((d.instr, d.format)));
                        }
                    },
                    _ => {
                        decode_table.set(op, Some(PartialDecode::Complete(d.instr, d.format)));
                    },
                }
            }
            proof {
                assert forall|op: int, f3: int|
                    0 <= op < 128 && 0 <= f3 < 8 implies #[trigger] decode_table_f3@[op * 8 + f3] == lookup_f3(
                        next,
                        op,
                        f3,
                    ) by {
                    if op * 8 + f3 == d.opcode * 8 + d.funct3 && d.funct3 < 8 {
                        assert(op == d.opcode && f3 == d.funct3);
                    }
                }
                assert forall|op: int, f3: int, f7: int|
                    0 <= op < 128 && 0 <= f3 < 8 && 0 <= f7 < 128 implies #[trigger] decode_table_f7@[f7_index(
                        op,
                        f3,
                        f7,
                    )] == lookup_f7(next, op, f3, f7) by {
                    if f7_index(op, f3, f7) == f7_index(d.opcode as int, d.funct3 as int, d.funct7 as int)
                        && d.funct3 < 8 && d.funct7 < 128 {
                        assert(op == d.opcode && f3 == d.funct3 && f7 == d.funct7);
                    }
                }
            }
            i = i + 1;
        }
        proof {
            assert(instrs@.subrange(0, instrs@.len() as int) =~= instrs@);
        }
        Decoder { decode_table, decode_table_f3, decode_table_f7, descs: Ghost(instrs@) }
    }

    /// Decodes the word `instr`: looks up its opcode, then its `funct3`
    /// and `funct7` fields where the opcode asks for them, and reads the
    /// operands in the instruction's format.
    pub fn decode(&self, instr: u32) -> (r: Result<(RiscvInstr, RVInstrInfo), Exception>)
        requires
            self.wf(),
        ensures
            r == decode_spec(self.descriptions(), instr),
    {
        let opcode = (instr & 0b1111111) as u8;
        let funct3 = ((instr >> 12) & 0b111) as u8;
        let funct7 = (instr >> 25) as u8;
        assert(instr & 0b1111111 == instr % 0x80) by (bit_vector);
        assert((instr >> 12) & 0b111 == (instr / 0x1000) % 8) by (bit_vector);
        assert(instr >> 25 == instr / 0x200_0000) by (bit_vector);
        assert(instr >> 25 < 128) by (bit_vector);
        match self.decode_table[opcode as usize] {
            None => Err(Exception::InvalidInstruction),
            Some(PartialDecode::Complete(instr_kind, fmt)) => Ok((instr_kind, decode_info(instr, fmt))),
            Some(PartialDecode::RequireF3) => {
                let idx = opcode as usize * 8 + funct3 as usize;
                match self.decode_table_f3[idx] {
                    None => Err(Exception::InvalidInstruction),
                    Some((instr_kind, fmt)) => Ok((instr_kind, decode_info(instr, fmt))),
                }
            },
            Some(PartialDecode::RequireF7) => {
                let idx = opcode as usize * 1024 + funct3 as usize * 128 + funct7 as usize;
                proof {
                    assert(idx == f7_index(opcode as int, funct3 as int, funct7 as int));
                }
                match self.decode_table_f7[idx] {
                    None => Err(Exception::InvalidInstruction),
                    Some((instr_kind, fmt)) => Ok((instr_kind, decode_info(instr, fmt))),
                }
            },
        }
    }
}


/// Whether a description's fixed fields fit their places in a word.
pub open spec fn desc_fits(d: RV32Desc) -> bool {
    d.opcode < 128 && d.funct3 < 8 && d.funct7 < 128
}

/// Whether the operands `f` are of the format `fmt` and fit their places
/// in a word: registers below 32, `I` and `S` immediates of twelve bits,
/// even `B` immediates of thirteen, `U` immediates that are multiples of
/// `2^12` below `2^32`, and even `J` immediates of twenty-one bits.
pub open spec fn operands_fit(fmt: InstrFormat, f: RVInstrInfo) -> bool {
    match (fmt, f) {
        (InstrFormat::R, RVInstrInfo::R { rs1, rs2, rd }) => rs1 < 32 && rs2 < 32 && rd < 32,
        (InstrFormat::I, RVInstrInfo::I { rs1, rd, imm }) => rs1 < 32 && rd < 32 && imm < 0x1000,
        (InstrFormat::S, RVInstrInfo::S { rs1, rs2, imm }) => rs1 < 32 && rs2 < 32 && imm < 0x1000,
        (InstrFormat::B, RVInstrInfo::B { rs1, rs2, imm }) => rs1 < 32 && rs2 < 32 && imm < 0x2000 && imm % 2 == 0,
        (InstrFormat::U, RVInstrInfo::U { rd, imm }) => rd < 32 && imm < 0x1_0000_0000 && imm % 0x1000 == 0,
        (InstrFormat::J, RVInstrInfo::J { rd, imm }) => rd < 32 && imm < 0x20_0000 && imm % 2 == 0,
        _ => false,
    }
}

/// The word that encodes the instruction of `d` with operands `f`, each
/// field in its place.
pub open spec fn encode_spec(d: RV32Desc, f: RVInstrInfo) -> int {
    let op = d.opcode as int;
    let f3 = d.funct3 as int;
    let f7 = d.funct7 as int;
    match f {
        RVInstrInfo::R { rs1, rs2, rd } => op + rd * 0x80 + f3 * 0x1000 + rs1 * 0x8000 + rs2 * 0x10_0000 + f7 * 0x200_0000,
        RVInstrInfo::I { rs1, rd, imm } => op + rd * 0x80 + f3 * 0x1000 + rs1 * 0x8000 + imm * 0x10_0000,
        RVInstrInfo::S { rs1, rs2, imm } => op + (imm % 32) * 0x80 + f3 * 0x1000 + rs1 * 0x8000 + rs2 * 0x10_0000 + (imm
            / 32) * 0x200_0000,
        RVInstrInfo::B { rs1, rs2, imm } => op + ((imm / 0x800) % 2) * 0x80 + ((imm / 2) % 16) * 0x100 + f3 * 0x1000 + rs1
            * 0x8000 + rs2 * 0x10_0000 + ((imm / 32) % 64) * 0x200_0000 + (imm / 0x1000) * 0x8000_0000,
        RVInstrInfo::U { rd, imm } => op + rd * 0x80 + imm,
        RVInstrInfo::J { rd, imm } => op + rd * 0x80 + ((imm / 0x1000) % 256) * 0x1000 + ((imm / 0x800) % 2) * 0x10_0000
            + ((imm / 2) % 1024) * 0x20_0000 + (imm / 0x10_0000) * 0x8000_0000,
    }
}

proof fn lemma_fields_r(w: u64, op: u64, f3: u64, f7: u64, rd: u64, rs1: u64, rs2: u64)
    by (bit_vector)
    requires
        op < 128,
        f3 < 8,
        f7 < 128,
        rd < 32,
        rs1 < 32,
        rs2 < 32,
        w == op + rd * 0x80 + f3 * 0x1000 + rs1 * 0x8000 + rs2 * 0x10_0000 + f7 * 0x200_0000,
    ensures
        w < 0x1_0000_0000,
        w % 0x80 == op,
        (w / 0x1000) % 8 == f3,
        w / 0x200_0000 == f7,
        (w / 0x80) % 0x20 == rd,
        (w / 0x8000) % 0x20 == rs1,
        (w / 0x10_0000) % 0x20 == rs2,
{
}

proof fn lemma_fields_i(w: u64, op: u64, f3: u64, rd: u64, rs1: u64, imm: u64)
    by (bit_vector)
    requires
        op < 128,
        f3 < 8,
        rd < 32,
        rs1 < 32,
        imm < 0x1000,
        w == op + rd * 0x80 + f3 * 0x1000 + rs1 * 0x8000 + imm * 0x10_0000,
    ensures
        w < 0x1_0000_0000,
        w % 0x80 == op,
        (w / 0x1000) % 8 == f3,
        (w / 0x80) % 0x20 == rd,
        (w / 0x8000) % 0x20 == rs1,
        (w / 0x10_0000) % 0x1000 == imm,
{
}

proof fn lemma_fields_s(w: u64, op: u64, f3: u64, rs1: u64, rs2: u64, imm: u64)
    by (bit_vector)
    requires
        op < 128,
        f3 < 8,
        rs1 < 32,
        rs2 < 32,
        imm < 0x1000,
        w == op + (imm % 32) * 0x80 + f3 * 0x1000 + rs1 * 0x8000 + rs2 * 0x10_0000 + (imm / 32) * 0x200_0000,
    ensures
        w < 0x1_0000_0000,
        w % 0x80 == op,
        (w / 0x1000) % 8 == f3,
        (w / 0x8000) % 0x20 == rs1,
        (w / 0x10_0000) % 0x20 == rs2,
        (w / 0x200_0000) * 0x20 + (w / 0x80) % 0x20 == imm,
{
}

proof fn lemma_fields_b(w: u64, op: u64, f3: u64, rs1: u64, rs2: u64, imm: u64)
    by (bit_vector)
    requires
        op < 128,
        f3 < 8,
        rs1 < 32,
        rs2 < 32,
        imm < 0x2000,
        imm % 2 == 0,
        w == op + ((imm / 0x800) % 2) * 0x80 + ((imm / 2) % 16) * 0x100 + f3 * 0x1000 + rs1 * 0x8000 + rs2 * 0x10_0000
            + ((imm / 32) % 64) * 0x200_0000 + (imm / 0x1000) * 0x8000_0000,
    ensures
        w < 0x1_0000_0000,
        w % 0x80 == op,
        (w / 0x1000) % 8 == f3,
        (w / 0x8000) % 0x20 == rs1,
        (w / 0x10_0000) % 0x20 == rs2,
        (w / 0x8000_0000) * 0x1000 + ((w / 0x80) % 2) * 0x800 + ((w / 0x200_0000) % 0x40) * 0x20 + ((w / 0x100) % 0x10)
            * 2 == imm,
{
}

proof fn lemma_fields_u(w: u64, op: u64, rd: u64, imm: u64)
    by (bit_vector)
    requires
        op < 128,
        rd < 32,
        imm < 0x1_0000_0000,
        imm % 0x1000 == 0,
        w == op + rd * 0x80 + imm,
    ensures
        w < 0x1_0000_0000,
        w % 0x80 == op,
        (w / 0x80) % 0x20 == rd,
        (w / 0x1000) * 0x1000 == imm,
{
}

proof fn lemma_fields_j(w: u64, op: u64, rd: u64, imm: u64)
    by (bit_vector)
    requires
        op < 128,
        rd < 32,
        imm < 0x20_0000,
        imm % 2 == 0,
        w == op + rd * 0x80 + ((imm / 0x1000) % 256) * 0x1000 + ((imm / 0x800) % 2) * 0x10_0000 + ((imm / 2) % 1024)
            * 0x20_0000 + (imm / 0x10_0000) * 0x8000_0000,
    ensures
        w < 0x1_0000_0000,
        w % 0x80 == op,
        (w / 0x80) % 0x20 == rd,
        (w / 0x8000_0000) * 0x10_0000 + ((w / 0x1000) % 0x100) * 0x1000 + ((w / 0x10_0000) % 2) * 0x800 + ((w
            / 0x20_0000) % 0x400) * 2 == imm,
{
}

/// How a description is looked up: by `funct3` and `funct7` (0), by
/// `funct3` (1), or by its opcode alone (2).
pub open spec fn key_class(d: RV32Desc) -> int {
    match d.format {
        InstrFormat::R => 0,
        InstrFormat::I | InstrFormat::S | InstrFormat::B => 1,
        _ => 2,
    }
}

/// Whether no two descriptions claim the same decode key: descriptions
/// that share an opcode are looked up the same way, by `funct3` (and
/// `funct7`), and differ there.
pub open spec fn keys_distinct(descs: Seq<RV32Desc>) -> bool {
    forall|i: int, j: int|
        #![trigger descs[i], descs[j]]
        0 <= i < j < descs.len() && descs[i].opcode == descs[j].opcode ==> {
            &&& key_class(descs[i]) == key_class(descs[j])
            &&& key_class(descs[i]) != 2
            &&& key_class(descs[i]) == 1 ==> descs[i].funct3 != descs[j].funct3
            &&& key_class(descs[i]) == 0 ==> (descs[i].funct3 != descs[j].funct3 || descs[i].funct7 != descs[j].funct7)
        }
}

proof fn lemma_keys_distinct_prefix(descs: Seq<RV32Desc>)
    requires
        keys_distinct(descs),
        descs.len() > 0,
    ensures
        keys_distinct(descs.drop_last()),
{
    let t = descs.drop_last();
    assert forall|i: int, j: int| 0 <= i < j < t.len() && t[i].opcode == t[j].opcode implies {
        &&& key_class(t[i]) == key_class(t[j])
        &&& key_class(t[i]) != 2
        &&& key_class(t[i]) == 1 ==> t[i].funct3 != t[j].funct3
        &&& key_class(t[i]) == 0 ==> (t[i].funct3 != t[j].funct3 || t[i].funct7 != t[j].funct7)
    } by {
        assert(t[i] == descs[i] && t[j] == descs[j]);
    }
}

proof fn lemma_lookup_opcode(descs: Seq<RV32Desc>, k: int)
    requires
        keys_distinct(descs),
        0 <= k < descs.len(),
    ensures
        lookup_opcode(descs, descs[k].opcode as int) == Some(partial_of(descs[k])),
    decreases descs.len(),
{
    let n = descs.len() - 1;
    if k < n {
        if descs[n].opcode == descs[k].opcode {
            assert(key_class(descs[k]) == key_class(descs[n]));
        } else {
            lemma_keys_distinct_prefix(descs);
            assert(descs.drop_last()[k] == descs[k]);
            lemma_lookup_opcode(descs.drop_last(), k);
        }
    }
}

proof fn lemma_lookup_f3(descs: Seq<RV32Desc>, k: int)
    requires
        keys_distinct(descs),
        0 <= k < descs.len(),
        key_class(descs[k]) == 1,
    ensures
        lookup_f3(descs, descs[k].opcode as int, descs[k].funct3 as int) == Some((descs[k].instr, descs[k].format)),
    decreases descs.len(),
{
    let n = descs.len() - 1;
    if k < n {
        if uses_f3(descs[n]) && descs[n].opcode == descs[k].opcode && descs[n].funct3 == descs[k].funct3 {
            assert(key_class(descs[k]) == key_class(descs[n]));
        } else {
            lemma_keys_distinct_prefix(descs);
            assert(descs.drop_last()[k] == descs[k]);
            lemma_lookup_f3(descs.drop_last(), k);
        }
    }
}

proof fn lemma_lookup_f7(descs: Seq<RV32Desc>, k: int)
    requires
        keys_distinct(descs),
        0 <= k < descs.len(),
        key_class(descs[k]) == 0,
    ensures
        lookup_f7(descs, descs[k].opcode as int, descs[k].funct3 as int, descs[k].funct7 as int) == Some(
            (descs[k].instr, descs[k].format),
        ),
    decreases descs.len(),
{
    let n = descs.len() - 1;
    if k < n {
        if descs[n].format == InstrFormat::R && descs[n].opcode == descs[k].opcode && descs[n].funct3 == descs[k].funct3
            && descs[n].funct7 == descs[k].funct7 {
            assert(key_class(descs[k]) == key_class(descs[n]));
        } else {
            lemma_keys_distinct_prefix(descs);
            assert(descs.drop_last()[k] == descs[k]);
            lemma_lookup_f7(descs.drop_last(), k);
        }
    }
}

proof fn lemma_lookup_opcode_absent(descs: Seq<RV32Desc>, opcode: int)
    requires
        forall|i: int| 0 <= i < descs.len() ==> #[trigger] descs[i].opcode != opcode,
    ensures
        lookup_opcode(descs, opcode) is None,
    decreases descs.len(),
{
    if descs.len() > 0 {
        let t = descs.drop_last();
        assert forall|i: int| 0 <= i < t.len() implies #[trigger] t[i].opcode != opcode by {
            assert(t[i] == descs[i]);
        }
        assert(descs[descs.len() - 1].opcode != opcode);
        lemma_lookup_opcode_absent(t, opcode);
    }
}

/// Decoding undoes encoding: where no two descriptions claim the same key,
/// the word that encodes a description's instruction with operands that
/// fit decodes to that instruction and those operands.
pub proof fn law_decode_encoded(descs: Seq<RV32Desc>, k: int, f: RVInstrInfo)
    requires
        keys_distinct(descs),
        0 <= k < descs.len(),
        desc_fits(descs[k]),
        operands_fit(descs[k].format, f),
    ensures
        0 <= encode_spec(descs[k], f) < 0x1_0000_0000,
        decode_spec(descs, encode_spec(descs[k], f) as u32) == Ok::<(RiscvInstr, RVInstrInfo), Exception>(
            (descs[k].instr, f),
        ),
{
    let d = descs[k];
    let e = encode_spec(d, f);
    let op = d.opcode as u64;
    let f3 = d.funct3 as u64;
    let f7 = d.funct7 as u64;
    match f {
        RVInstrInfo::R { rs1, rs2, rd } => {
            lemma_fields_r(e as u64, op, f3, f7, rd as u64, rs1 as u64, rs2 as u64);
            lemma_lookup_opcode(descs, k);
            lemma_lookup_f7(descs, k);
        },
        RVInstrInfo::I { rs1, rd, imm } => {
            lemma_fields_i(e as u64, op, f3, rd as u64, rs1 as u64, imm);
            lemma_lookup_opcode(descs, k);
            lemma_lookup_f3(descs, k);
        },
        RVInstrInfo::S { rs1, rs2, imm } => {
            lemma_fields_s(e as u64, op, f3, rs1 as u64, rs2 as u64, imm);
            lemma_lookup_opcode(descs, k);
            lemma_lookup_f3(descs, k);
        },
        RVInstrInfo::B { rs1, rs2, imm } => {
            lemma_fields_b(e as u64, op, f3, rs1 as u64, rs2 as u64, imm);
            lemma_lookup_opcode(descs, k);
            lemma_lookup_f3(descs, k);
        },
        RVInstrInfo::U { rd, imm } => {
            lemma_fields_u(e as u64, op, rd as u64, imm);
            lemma_lookup_opcode(descs, k);
        },
        RVInstrInfo::J { rd, imm } => {
            lemma_fields_j(e as u64, op, rd as u64, imm);
            lemma_lookup_opcode(descs, k);
        },
    }
}

/// A word whose opcode no description has is refused as an invalid
/// instruction.
pub proof fn law_unknown_opcode_refused(descs: Seq<RV32Desc>, instr: u32)
    requires
        forall|i: int| 0 <= i < descs.len() ==> #[trigger] descs[i].opcode != instr % 0x80,
    ensures
        decode_spec(descs, instr) == Err::<(RiscvInstr, RVInstrInfo), Exception>(Exception::InvalidInstruction),
{
    lemma_lookup_opcode_absent(descs, (instr % 0x80) as int);
}

} // verus!
