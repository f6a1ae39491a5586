//! The RV32 core: registers, RAM, program counter and decoder, and the
//! execution of decoded instructions.

use vstd::prelude::*;
use vstd::arithmetic::power2::*;
use crate::bits::{wrap, sign_extend, sign_extend_spec};
use crate::bytes::le;
use crate::ram::{Ram, BASE_ADDR, RAM_SIZE, access_ok, store_le};
use crate::isa::riscv32::instruction::{
    RVInstrInfo, Exception, RiscvInstr, RV32Desc, InstrClass, AluOp, BranchOp, class_spec, instr_class, table_rv32i_spec,
};
use crate::isa::riscv32::decoder::{Decoder, decode_spec};
use crate::isa::riscv32::alu::{alu, alu_spec, branch_taken, branch_spec};

verus! {

/// The number of general-purpose registers.
pub const REGFILE_CNT: usize = 32;

/// The program counter after reset: the start of RAM.
pub const DEFAULT_PC_VALUE: u64 = 0x8000_0000;

/// The general-purpose registers.
pub struct RegFile {
    regs: Vec<u64>,
}

impl View for RegFile {
    type V = Seq<u64>;

    closed spec fn view(&self) -> Seq<u64> {
        self.regs@
    }
}

impl RegFile {
    /// Every register zero.
    pub fn new() -> (r: Self)
        ensures
            r@.len() == REGFILE_CNT,
            forall|i: int| 0 <= i < REGFILE_CNT ==> r@[i] == 0,
    {
        RegFile { regs: vec![0u64; REGFILE_CNT] }
    }

    /// The values of registers `rs1` and `rs2`.
    pub fn read(&self, rs1: u8, rs2: u8) -> (r: (u64, u64))
        requires
            self@.len() == REGFILE_CNT,
            rs1 < 32,
            rs2 < 32,
        ensures
            r == (self@[rs1 as int], self@[rs2 as int]),
    {
        (self.regs[rs1 as usize], self.regs[rs2 as usize])
    }

    /// Sets register `rd` to `value`.
    pub fn write(&mut self, rd: u8, value: u64)
        requires
            old(self)@.len() == REGFILE_CNT,
            rd < 32,
        ensures
            final(self)@ == old(self)@.update(rd as int, value),
    {
        self.regs.set(rd as usize, value);
    }
}

/// The sum of two words, wrapped to 64 bits.
pub open spec fn wadd(a: u64, b: u64) -> u64 {
    if a + b > u64::MAX {
        (a + b - 0x1_0000_0000_0000_0000) as u64
    } else {
        (a + b) as u64
    }
}

/// Whether an access of `n` bytes at the physical address `addr` lies in
/// RAM and is aligned.
pub open spec fn mem_ok(addr: u64, n: nat) -> bool {
    BASE_ADDR <= addr && access_ok(addr - BASE_ADDR, n)
}

/// The registers after writing `value` into `rd`; register 0 stays zero.
pub open spec fn with_reg(regs: Seq<u64>, rd: u8, value: u64) -> Seq<u64> {
    regs.update(rd as int, value).update(0, 0)
}

/// The operands of an instruction fit what it does, and name registers.
pub open spec fn info_fits(class: InstrClass, info: RVInstrInfo) -> bool {
    &&& match info {
        RVInstrInfo::R { rs1, rs2, rd } => rs1 < 32 && rs2 < 32 && rd < 32,
        RVInstrInfo::I { rs1, rd, .. } => rs1 < 32 && rd < 32,
        RVInstrInfo::S { rs1, rs2, .. } => rs1 < 32 && rs2 < 32,
        RVInstrInfo::B { rs1, rs2, .. } => rs1 < 32 && rs2 < 32,
        RVInstrInfo::U { rd, .. } => rd < 32,
        RVInstrInfo::J { rd, .. } => rd < 32,
    }
    &&& match class {
        InstrClass::Arith(_) => info is R || info is I,
        InstrClass::Branch(_) => info is B,
        InstrClass::Load(_, _) | InstrClass::Jalr => info is I,
        InstrClass::Store(_) => info is S,
        InstrClass::Jal => info is J,
        InstrClass::Auipc | InstrClass::Lui => info is U,
        _ => true,
    }
}

/// The second operand of an arithmetic instruction: `rs2`, or the
/// immediate sign-extended from 12 bits.
pub open spec fn operand2(regs: Seq<u64>, info: RVInstrInfo) -> u64 {
    match info {
        RVInstrInfo::R { rs2, .. } => regs[rs2 as int],
        RVInstrInfo::I { imm, .. } => sign_extend_spec(imm, 12) as u64,
        _ => 0,
    }
}

/// The first source register of an instruction.
pub open spec fn source1(info: RVInstrInfo) -> u8 {
    match info {
        RVInstrInfo::R { rs1, .. } => rs1,
        RVInstrInfo::I { rs1, .. } => rs1,
        RVInstrInfo::S { rs1, .. } => rs1,
        RVInstrInfo::B { rs1, .. } => rs1,
        _ => 0,
    }
}

/// The destination register of an instruction.
pub open spec fn dest(info: RVInstrInfo) -> u8 {
    match info {
        RVInstrInfo::R { rd, .. } => rd,
        RVInstrInfo::I { rd, .. } => rd,
        RVInstrInfo::U { rd, .. } => rd,
        RVInstrInfo::J { rd, .. } => rd,
        _ => 0,
    }
}

/// The immediate of an instruction.
pub open spec fn immediate(info: RVInstrInfo) -> u64 {
    match info {
        RVInstrInfo::I { imm, .. } => imm,
        RVInstrInfo::S { imm, .. } => imm,
        RVInstrInfo::B { imm, .. } => imm,
        RVInstrInfo::U { imm, .. } => imm,
        RVInstrInfo::J { imm, .. } => imm,
        _ => 0,
    }
}

/// The address of a load or store: `rs1` plus the immediate sign-extended
/// from 12 bits.
pub open spec fn mem_addr(regs: Seq<u64>, info: RVInstrInfo) -> u64 {
    wadd(regs[source1(info) as int], sign_extend_spec(immediate(info), 12) as u64)
}

/// The second source register of a store or branch.
pub open spec fn source2(info: RVInstrInfo) -> u8 {
    match info {
        RVInstrInfo::R { rs2, .. } => rs2,
        RVInstrInfo::S { rs2, .. } => rs2,
        RVInstrInfo::B { rs2, .. } => rs2,
        _ => 0,
    }
}

/// Whether an instruction can run in the given state: its operands fit,
/// its memory access lies in RAM, and the core implements it.
pub open spec fn execute_ok(regs: Seq<u64>, pc: u64, class: InstrClass, info: RVInstrInfo) -> bool {
    &&& info_fits(class, info)
    &&& match class {
        InstrClass::Load(n, _) => (n == 1 || n == 2 || n == 4 || n == 8) && mem_ok(mem_addr(regs, info), n as nat),
        InstrClass::Store(n) => (n == 1 || n == 2 || n == 4 || n == 8) && mem_ok(mem_addr(regs, info), n as nat),
        InstrClass::Jalr => pc + 4 <= u64::MAX,
        InstrClass::Unimplemented => false,
        _ => true,
    }
}

/// The registers, program counter and RAM after running an instruction.
pub open spec fn execute_spec(regs: Seq<u64>, pc: u64, mem: Seq<u8>, class: InstrClass, info: RVInstrInfo) -> (
    Seq<u64>,
    u64,
    Seq<u8>,
) {
    let next = wadd(pc, 4);
    match class {
        InstrClass::Arith(op) => (
            with_reg(regs, dest(info), alu_spec(op, regs[source1(info) as int], operand2(regs, info))),
            next,
            mem,
        ),
        InstrClass::Branch(op) => (
            regs.update(0, 0),
            if branch_spec(op, regs[source1(info) as int], regs[source2(info) as int]) {
                wadd(pc, sign_extend_spec(immediate(info), 13) as u64)
            } else {
                next
            },
            mem,
        ),
        InstrClass::Load(n, extend) => {
            let v = le(mem, mem_addr(regs, info) - BASE_ADDR, n as nat) as u64;
            (with_reg(regs, dest(info), if extend { sign_extend_spec(v, 8 * n as nat) as u64 } else { v }), next, mem)
        },
        InstrClass::Store(n) => (
            regs.update(0, 0),
            next,
            store_le(
                mem,
                mem_addr(regs, info) - BASE_ADDR,
                n as nat,
                regs[source2(info) as int] as int % pow2(8 * n as nat) as int,
            ),
        ),
        InstrClass::Jal => (
            with_reg(regs, dest(info), next),
            wadd(pc, sign_extend_spec(immediate(info), 21) as u64),
            mem,
        ),
        InstrClass::Jalr => (
            with_reg(regs, dest(info), (pc + 4) as u64),
            wadd(regs[source1(info) as int], sign_extend_spec(immediate(info), 12) as u64) & !1u64,
            mem,
        ),
        InstrClass::Auipc => (
            with_reg(regs, dest(info), wadd(pc, sign_extend_spec(immediate(info), 32) as u64)),
            next,
            mem,
        ),
        InstrClass::Lui => (with_reg(regs, dest(info), sign_extend_spec(immediate(info), 32) as u64), next, mem),
        InstrClass::Fence | InstrClass::Unimplemented => (regs.update(0, 0), pc, mem),
    }
}

/// Every instruction whose operands name registers leaves register 0 at
/// zero and the register file at 32 registers, and changes no register but
/// its destination; branches, stores and fences change none.
pub proof fn law_register_zero_stays_zero(regs: Seq<u64>, pc: u64, mem: Seq<u8>, class: InstrClass, info: RVInstrInfo)
    requires
        regs.len() == 32,
        info_fits(class, info),
    ensures
        ({
            let after = execute_spec(regs, pc, mem, class, info).0;
            &&& after.len() == 32
            &&& after[0] == 0
            &&& forall|i: int|
                1 <= i < 32 && (i != dest(info) || class is Branch || class is Store || class is Fence
                    || class is Unimplemented) ==> #[trigger] after[i] == regs[i]
        }),
{
}

/// Why a run of steps stopped.
#[derive(Clone, Copy, Debug, PartialEq, Eq, Structural)]
pub enum RunStop {
    /// The step limit was reached.
    Limit,
    /// The next instruction cannot run in this state.
    Blocked,
    /// A step failed with this exception.
    Fault(Exception),
}

/// Whether a step can run from the state `regs`, `pc`, `mem` of a core
/// that decodes `descs`.
pub open spec fn step_ok_at(descs: Seq<RV32Desc>, regs: Seq<u64>, pc: u64, mem: Seq<u8>) -> bool {
    &&& mem_ok(pc, 4)
    &&& match decode_spec(descs, fetch(mem, pc)) {
        Ok((instr, info)) => execute_ok(regs, pc, class_spec(instr), info),
        Err(_) => true,
    }
}

/// The state after one step, or the exception that the step raises.
pub open spec fn step_spec(descs: Seq<RV32Desc>, regs: Seq<u64>, pc: u64, mem: Seq<u8>) -> Result<
    (Seq<u64>, u64, Seq<u8>),
    Exception,
> {
    match decode_spec(descs, fetch(mem, pc)) {
        Err(e) => Err(e),
        Ok((instr, info)) => Ok(execute_spec(regs, pc, mem, class_spec(instr), info)),
    }
}

/// A run of at most `max` steps: how many steps ran, why it stopped, and
/// the registers, program counter and RAM it stopped with. It stops at the
/// limit, where the next instruction cannot run, or where a step fails.
pub open spec fn run_spec(descs: Seq<RV32Desc>, regs: Seq<u64>, pc: u64, mem: Seq<u8>, max: nat) -> (
    nat,
    RunStop,
    Seq<u64>,
    u64,
    Seq<u8>,
)
    decreases max,
{
    if max == 0 {
        (0, RunStop::Limit, regs, pc, mem)
    } else if !step_ok_at(descs, regs, pc, mem) {
        (0, RunStop::Blocked, regs, pc, mem)
    } else {
        match step_spec(descs, regs, pc, mem) {
            Err(e) => (0, RunStop::Fault(e), regs, pc, mem),
            Ok(next) => {
                let rest = run_spec(descs, next.0, next.1, next.2, (max - 1) as nat);
                (rest.0 + 1, rest.1, rest.2, rest.3, rest.4)
            },
        }
    }
}

/// A run's result with `k` more steps counted.
pub open spec fn shift_run(r: (nat, RunStop, Seq<u64>, u64, Seq<u8>), k: nat) -> (nat, RunStop, Seq<u64>, u64, Seq<u8>) {
    (r.0 + k, r.1, r.2, r.3, r.4)
}

/// The RV32 core.
pub struct RV32CPU {
    reg_file: RegFile,
    memory: Ram,
    pc: u64,
    decoder: Decoder,
}

impl RV32CPU {
    /// The registers.
    pub closed spec fn regs(&self) -> Seq<u64> {
        self.reg_file@
    }

    /// The program counter.
    pub closed spec fn pc_spec(&self) -> u64 {
        self.pc
    }

    /// The contents of RAM.
    pub closed spec fn mem(&self) -> Seq<u8> {
        self.memory@
    }

    /// The descriptions that the decoder recognises.
    pub closed spec fn descriptions(&self) -> Seq<RV32Desc> {
        self.decoder.descriptions()
    }

    /// The core is well formed: 32 registers with register 0 zero, RAM of
    /// its full size, a consistent decoder.
    pub closed spec fn wf(&self) -> bool {
        &&& self.reg_file@.len() == REGFILE_CNT
        &&& self.reg_file@[0] == 0
        &&& self.memory@.len() == RAM_SIZE
        &&& self.decoder.wf()
    }

    /// A core with zero registers, zero RAM and the program counter at the
    /// start of RAM, decoding the base table.
    pub fn new() -> (r: Self)
        ensures
            r.wf(),
            r.regs().len() == REGFILE_CNT,
            r.mem().len() == RAM_SIZE,
            forall|i: int| 0 <= i < REGFILE_CNT ==> r.regs()[i] == 0,
            forall|k: int| 0 <= k < RAM_SIZE ==> r.mem()[k] == 0,
            r.pc_spec() == DEFAULT_PC_VALUE,
            r.descriptions() == table_rv32i_spec(),
    {
        Self { reg_file: RegFile::new(), memory: Ram::new(), pc: DEFAULT_PC_VALUE, decoder: Decoder::new() }
    }

    /// A core running on the RAM `v_memory`.
    pub fn from_memory(v_memory: Ram) -> (r: Self)
        requires
            v_memory@.len() == RAM_SIZE,
        ensures
            r.wf(),
            r.regs().len() == REGFILE_CNT,
            forall|i: int| 0 <= i < REGFILE_CNT ==> r.regs()[i] == 0,
            r.mem() == v_memory@,
            r.pc_spec() == DEFAULT_PC_VALUE,
            r.descriptions() == table_rv32i_spec(),
    {
        Self { reg_file: RegFile::new(), memory: v_memory, pc: DEFAULT_PC_VALUE, decoder: Decoder::new() }
    }

    /// A well-formed core has 32 registers, register 0 zero, and RAM of its
    /// full size.
    pub proof fn lemma_wf(&self)
        requires
            self.wf(),
        ensures
            self.regs().len() == REGFILE_CNT,
            self.regs()[0] == 0,
            self.mem().len() == RAM_SIZE,
    {
    }

    /// The value of register `idx`.
    pub fn read_reg(&self, idx: u8) -> (r: u64)
        requires
            self.wf(),
            idx < 32,
        ensures
            r == self.regs()[idx as int],
    {
        self.reg_file.read(idx, 0).0
    }

    /// Sets register `idx` to `value`; register 0 stays zero.
    pub fn write_reg(&mut self, idx: u8, value: u64)
        requires
            old(self).wf(),
            idx < 32,
        ensures
            final(self).wf(),
            final(self).regs().len() == REGFILE_CNT,
            final(self).regs() == with_reg(old(self).regs(), idx, value),
            final(self).pc_spec() == old(self).pc_spec(),
            final(self).mem() == old(self).mem(),
            final(self).descriptions() == old(self).descriptions(),
    {
        self.reg_file.write(idx, value);
        self.reg_file.write(0, 0);
    }

    /// The program counter.
    pub fn pc(&self) -> (r: u64)
        ensures
            r == self.pc_spec(),
    {
        self.pc
    }

    /// Moves the program counter to `value`.
    pub fn set_pc(&mut self, value: u64)
        ensures
            final(self).pc_spec() == value,
            final(self).regs() == old(self).regs(),
            final(self).mem() == old(self).mem(),
            final(self).descriptions() == old(self).descriptions(),
            final(self).wf() == old(self).wf(),
    {
        self.pc = value;
    }

    /// The RAM of the core.
    pub fn memory(&self) -> (r: &Ram)
        ensures
            r@ == self.mem(),
    {
        &self.memory
    }

    /// The `n`-byte little-endian value at the physical address `addr`.
    fn load(&self, addr: u64, n: u8) -> (r: u64)
        requires
            self.wf(),
            n == 1 || n == 2 || n == 4 || n == 8,
            mem_ok(addr, n as nat),
        ensures
            r == le(self.mem(), addr - BASE_ADDR, n as nat),
    {
        self.memory.load(addr - BASE_ADDR, n as usize)
    }

    /// An arithmetic instruction: `rd = op(rs1, rs2 or imm)`.
    fn exec_arith(&mut self, op: AluOp, info: RVInstrInfo)
        requires
            old(self).wf(),
            execute_ok(old(self).regs(), old(self).pc_spec(), InstrClass::Arith(op), info),
        ensures
            final(self).wf(),
            (final(self).regs(), final(self).pc_spec(), final(self).mem()) == execute_spec(
                old(self).regs(),
                old(self).pc_spec(),
                old(self).mem(),
                InstrClass::Arith(op),
                info,
            ),
            final(self).descriptions() == old(self).descriptions(),
    {
        let (rd, a, b) = match info {
            RVInstrInfo::R { rs1, rs2, rd } => {
                let (a, b) = self.reg_file.read(rs1, rs2);
                (rd, a, b)
            },
            RVInstrInfo::I { rs1, rd, imm } => {
                let a = self.reg_file.read(rs1, 0).0;
                (rd, a, sign_extend(imm, 12))
            },
            _ => {
                proof {
                    assert(false);
                }
                (0, 0, 0)
            },
        };
        let v = alu(op, a, b);
        self.reg_file.write(rd, v);
        self.reg_file.write(0, 0);
        self.pc = self.pc.wrapping_add(4);
    }

    /// A conditional branch.
    fn exec_branch(&mut self, op: BranchOp, info: RVInstrInfo)
        requires
            old(self).wf(),
            execute_ok(old(self).regs(), old(self).pc_spec(), InstrClass::Branch(op), info),
        ensures
            final(self).wf(),
            (final(self).regs(), final(self).pc_spec(), final(self).mem()) == execute_spec(
                old(self).regs(),
                old(self).pc_spec(),
                old(self).mem(),
                InstrClass::Branch(op),
                info,
            ),
            final(self).descriptions() == old(self).descriptions(),
    {
        if let RVInstrInfo::B { rs1, rs2, imm } = info {
            let (a, b) = self.reg_file.read(rs1, rs2);
            if branch_taken(op, a, b) {
                self.pc = self.pc.wrapping_add(sign_extend(imm, 13));
            } else {
                self.pc = self.pc.wrapping_add(4);
            }
        }
        self.reg_file.write(0, 0);
    }

    /// A load of `n` bytes into `rd`; `extend` sign-extends the value from
    /// its top bit, bit `8n - 1`.
    fn exec_load(&mut self, n: u8, extend: bool, info: RVInstrInfo)
        requires
            old(self).wf(),
            execute_ok(old(self).regs(), old(self).pc_spec(), InstrClass::Load(n, extend), info),
        ensures
            final(self).wf(),
            (final(self).regs(), final(self).pc_spec(), final(self).mem()) == execute_spec(
                old(self).regs(),
                old(self).pc_spec(),
                old(self).mem(),
                InstrClass::Load(n, extend),
                info,
            ),
            final(self).descriptions() == old(self).descriptions(),
    {
        if let RVInstrInfo::I { rs1, rd, imm } = info {
            let base = self.reg_file.read(rs1, 0).0;
            let addr = base.wrapping_add(sign_extend(imm, 12));
            let mut data = self.load(addr, n);
            proof {
                crate::bytes::lemma_le_bound(self.memory@, addr - BASE_ADDR, n as nat);
                lemma2_to64();
                lemma2_to64_rest();
                if n < 8 {
                    lemma_pow2_strictly_increases(8 * n as nat, 64);
                }
            }
            if extend {
                data = sign_extend(data, 8 * (n as u32));
            }
            self.reg_file.write(rd, data);
        }
        self.reg_file.write(0, 0);
        self.pc = self.pc.wrapping_add(4);
    }

    /// A store of the low `n` bytes of `rs2`.
    fn exec_store(&mut self, n: u8, info: RVInstrInfo)
        requires
            old(self).wf(),
            execute_ok(old(self).regs(), old(self).pc_spec(), InstrClass::Store(n), info),
        ensures
            final(self).wf(),
            (final(self).regs(), final(self).pc_spec(), final(self).mem()) == execute_spec(
                old(self).regs(),
                old(self).pc_spec(),
                old(self).mem(),
                InstrClass::Store(n),
                info,
            ),
            final(self).descriptions() == old(self).descriptions(),
    {
        proof {
            lemma2_to64();
        }
        if let RVInstrInfo::S { rs1, rs2, imm } = info {
            let (base, value) = self.reg_file.read(rs1, rs2);
            let addr = base.wrapping_add(sign_extend(imm, 12));
            let m = crate::bits::pow2_u128(8 * n as u32);
            proof {
                lemma_pow2_pos(8 * n as nat);
                if n < 8 {
                    lemma_pow2_strictly_increases(8 * n as nat, 64);
                }
                lemma2_to64_rest();
            }
            let v = ((value as u128) % m) as u64;
            let ghost before = self.memory@;
            self.memory.store(addr - BASE_ADDR, n as usize, v);
            proof {
                crate::ram::lemma_store_le(before, self.memory@, addr - BASE_ADDR, n as nat, v as int);
            }
        }
        self.reg_file.write(0, 0);
        self.pc = self.pc.wrapping_add(4);
    }

    /// The jumps and the upper-immediate instructions.
    fn exec_jump(&mut self, class: InstrClass, info: RVInstrInfo)
        requires
            old(self).wf(),
            class == InstrClass::Jal || class == InstrClass::Jalr || class == InstrClass::Auipc || class
                == InstrClass::Lui,
            execute_ok(old(self).regs(), old(self).pc_spec(), class, info),
        ensures
            final(self).wf(),
            (final(self).regs(), final(self).pc_spec(), final(self).mem()) == execute_spec(
                old(self).regs(),
                old(self).pc_spec(),
                old(self).mem(),
                class,
                info,
            ),
            final(self).descriptions() == old(self).descriptions(),
    {
        let next = self.pc.wrapping_add(4);
        match info {
            RVInstrInfo::J { rd, imm } => {
                self.reg_file.write(rd, next);
                self.pc = self.pc.wrapping_add(sign_extend(imm, 21));
            },
            RVInstrInfo::I { rs1, rd, imm } => {
                let t = self.pc + 4;
                let val = self.reg_file.read(rs1, 0).0;
                self.pc = val.wrapping_add(sign_extend(imm, 12)) & !1u64;
                self.reg_file.write(rd, t);
            },
            RVInstrInfo::U { rd, imm } => {
                if class == InstrClass::Auipc {
                    self.reg_file.write(rd, self.pc.wrapping_add(sign_extend(imm, 32)));
                } else {
                    self.reg_file.write(rd, sign_extend(imm, 32));
                }
                self.pc = next;
            },
            _ => {},
        }
        self.reg_file.write(0, 0);
    }

    /// Runs the decoded instruction `instr` with operands `info`.
    pub fn execute(&mut self, instr: RiscvInstr, info: RVInstrInfo) -> (r: Result<(), Exception>)
        requires
            old(self).wf(),
            execute_ok(old(self).regs(), old(self).pc_spec(), class_spec(instr), info),
        ensures
            final(self).wf(),
            final(self).regs().len() == REGFILE_CNT,
            final(self).regs()[0] == 0,
            r is Ok,
            (final(self).regs(), final(self).pc_spec(), final(self).mem()) == execute_spec(
                old(self).regs(),
                old(self).pc_spec(),
                old(self).mem(),
                class_spec(instr),
                info,
            ),
            final(self).descriptions() == old(self).descriptions(),
    {
        let class = instr_class(instr);
        match class {
            InstrClass::Arith(op) => self.exec_arith(op, info),
            InstrClass::Branch(op) => self.exec_branch(op, info),
            InstrClass::Load(n, extend) => self.exec_load(n, extend, info),
            InstrClass::Store(n) => self.exec_store(n, info),
            InstrClass::Fence => {
                self.reg_file.write(0, 0);
            },
            InstrClass::Unimplemented => {
                proof {
                    assert(false);
                }
            },
            _ => self.exec_jump(class, info),
        }
        Ok(())
    }
}


/// The instruction word at the program counter.
pub open spec fn fetch(mem: Seq<u8>, pc: u64) -> u32 {
    le(mem, pc - BASE_ADDR, 4) as u32
}

impl RV32CPU {
    /// Whether the next step can run: the program counter addresses an
    /// aligned word of RAM, and a word that decodes can be executed.
    pub open spec fn step_ok(&self) -> bool {
        &&& mem_ok(self.pc_spec(), 4)
        &&& match decode_spec(self.descriptions(), fetch(self.mem(), self.pc_spec())) {
            Ok((instr, info)) => execute_ok(self.regs(), self.pc_spec(), class_spec(instr), info),
            Err(_) => true,
        }
    }

    /// Fetches the word at the program counter, decodes it and runs it. A
    /// word that does not decode is reported and changes nothing.
    pub fn step(&mut self) -> (r: Result<(), Exception>)
        requires
            old(self).wf(),
            old(self).step_ok(),
        ensures
            final(self).wf(),
            final(self).regs().len() == REGFILE_CNT,
            final(self).regs()[0] == 0,
            final(self).descriptions() == old(self).descriptions(),
            match decode_spec(old(self).descriptions(), fetch(old(self).mem(), old(self).pc_spec())) {
                Err(e) => r == Err::<(), Exception>(e) && final(self).regs() == old(self).regs()
                    && final(self).pc_spec() == old(self).pc_spec() && final(self).mem() == old(self).mem(),
                Ok((instr, info)) => r is Ok && (final(self).regs(), final(self).pc_spec(), final(self).mem())
                    == execute_spec(old(self).regs(), old(self).pc_spec(), old(self).mem(), class_spec(instr), info),
            },
    {
        proof {
            crate::bytes::lemma_le_bound(self.memory@, self.pc - BASE_ADDR, 4);
            lemma2_to64();
        }
        let instr_bytes = self.load(self.pc, 4) as u32;
        match self.decoder.decode(instr_bytes) {
            Err(e) => Err(e),
            Ok((instr, info)) => self.execute(instr, info),
        }
    }

    /// Whether `instr` with operands `info` can run in the current state, as
    /// `execute_ok` says.
    pub fn can_execute(&self, instr: RiscvInstr, info: RVInstrInfo) -> (r: bool)
        requires
            self.wf(),
        ensures
            r == execute_ok(self.regs(), self.pc_spec(), class_spec(instr), info),
    {
        let class = instr_class(instr);
        let regs_fit = match info {
            RVInstrInfo::R { rs1, rs2, rd } => rs1 < 32 && rs2 < 32 && rd < 32,
            RVInstrInfo::I { rs1, rd, .. } => rs1 < 32 && rd < 32,
            RVInstrInfo::S { rs1, rs2, .. } => rs1 < 32 && rs2 < 32,
            RVInstrInfo::B { rs1, rs2, .. } => rs1 < 32 && rs2 < 32,
            RVInstrInfo::U { rd, .. } => rd < 32,
            RVInstrInfo::J { rd, .. } => rd < 32,
        };
        if !regs_fit {
            return false;
        }
        match class {
            InstrClass::Arith(_) => matches!(info, RVInstrInfo::R { .. } | RVInstrInfo::I { .. }),
            InstrClass::Branch(_) => matches!(info, RVInstrInfo::B { .. }),
            InstrClass::Load(n, _) | InstrClass::Store(n) => {
                let (rs1, imm, fits) = match (class, info) {
                    (InstrClass::Load(_, _), RVInstrInfo::I { rs1, imm, .. }) => (rs1, imm, true),
                    (InstrClass::Store(_), RVInstrInfo::S { rs1, imm, .. }) => (rs1, imm, true),
                    _ => (0u8, 0u64, false),
                };
                if !fits || !(n == 1 || n == 2 || n == 4 || n == 8) {
                    return false;
                }
                let base = self.reg_file.read(rs1, 0).0;
                let addr = base.wrapping_add(sign_extend(imm, 12));
                crate::vector::memory::check_access(addr, n as usize, false).is_none()
            },
            InstrClass::Jalr => matches!(info, RVInstrInfo::I { .. }) && self.pc <= u64::MAX - 4,
            InstrClass::Jal => matches!(info, RVInstrInfo::J { .. }),
            InstrClass::Auipc | InstrClass::Lui => matches!(info, RVInstrInfo::U { .. }),
            InstrClass::Unimplemented => false,
            _ => true,
        }
    }

    /// Runs steps until `max_steps` have run, the next instruction cannot
    /// run, or a step fails; returns how many steps ran and why the run
    /// stopped, as `run_spec` says.
    pub fn run_steps(&mut self, max_steps: u64) -> (r: (u64, RunStop))
        requires
            old(self).wf(),
        ensures
            final(self).wf(),
            final(self).descriptions() == old(self).descriptions(),
            ({
                let s = run_spec(old(self).descriptions(), old(self).regs(), old(self).pc_spec(), old(self).mem(), max_steps as nat);
                &&& r.0 == s.0
                &&& r.1 == s.1
                &&& final(self).regs() == s.2
                &&& final(self).pc_spec() == s.3
                &&& final(self).mem() == s.4
            }),
    {
        let ghost start = run_spec(self.descriptions(), self.regs(), self.pc_spec(), self.mem(), max_steps as nat);
        let mut steps: u64 = 0;
        loop
            invariant
                self.wf(),
                self.descriptions() == old(self).descriptions(),
                steps <= max_steps,
                start == run_spec(old(self).descriptions(), old(self).regs(), old(self).pc_spec(), old(self).mem(), max_steps as nat),
                start == shift_run(run_spec(self.descriptions(), self.regs(), self.pc_spec(), self.mem(), (max_steps - steps) as nat), steps as nat),
            decreases max_steps - steps,
        {
            if steps == max_steps {
                return (steps, RunStop::Limit);
            }
            if !self.step_allowed() {
                return (steps, RunStop::Blocked);
            }
            let ghost before = (self.regs(), self.pc_spec(), self.mem());
            match self.step() {
                Err(e) => {
                    return (steps, RunStop::Fault(e));
                },
                Ok(()) => {},
            }
            proof {
                let rest = run_spec(self.descriptions(), self.regs(), self.pc_spec(), self.mem(), (max_steps - steps - 1) as nat);
                assert(run_spec(self.descriptions(), before.0, before.1, before.2, (max_steps - steps) as nat) == (
                    rest.0 + 1,
                    rest.1,
                    rest.2,
                    rest.3,
                    rest.4,
                ));
            }
            steps = steps + 1;
        }
    }

    /// Whether the next step can run, as `step_ok` says.
    pub fn step_allowed(&self) -> (r: bool)
        requires
            self.wf(),
        ensures
            r == self.step_ok(),
    {
        if crate::vector::memory::check_access(self.pc, 4, false).is_some() {
            return false;
        }
        proof {
            crate::bytes::lemma_le_bound(self.memory@, self.pc - BASE_ADDR, 4);
            lemma2_to64();
        }
        let word = self.load(self.pc, 4) as u32;
        match self.decoder.decode(word) {
            Err(_) => true,
            Ok((instr, info)) => self.can_execute(instr, info),
        }
    }
}

} // verus!
