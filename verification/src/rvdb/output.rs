//! What a debugger command produces, before it is rendered: the output
//! values, the general-purpose register names, and register-name parsing.

use vstd::prelude::*;
use crate::address::{trim, parse_radix_spec, trimmed, parse_radix};
use crate::isa::riscv32::instruction::{RiscvInstr, RVInstrInfo};
use crate::rvdb::text::{push_str, chars_to_string};

verus! {

/// A guest address, physical or virtual.
#[derive(Clone, Copy, Debug, PartialEq, Eq, Structural)]
pub enum Address {
    Phys(u64),
    Virt(u64),
}

/// The raw bits of an instruction and its length in bytes.
#[derive(Clone, Copy, Debug, PartialEq, Eq, Structural)]
pub struct RawInstr {
    pub val: u32,
    pub len: u8,
}

/// One line of a code listing or of the execution history.
#[derive(Clone, Debug, PartialEq, Eq)]
pub struct DbgInstrLine {
    pub addr: u64,
    pub raw: Option<RawInstr>,
    pub decoded: Option<(RiscvInstr, RVInstrInfo)>,
    pub symbol: Option<String>,
    pub is_current_pc: bool,
}

/// A breakpoint: its number and address.
#[derive(Clone, Copy, Debug, PartialEq, Eq, Structural)]
pub struct Breakpoint {
    pub id: usize,
    pub addr: Address,
}

/// A traced function call or return, with the function's name where the
/// symbol table knows it.
#[derive(Clone, Debug, PartialEq, Eq)]
pub enum FuncTrace {
    Call { name: Option<String>, addr: u64 },
    Return { name: Option<String>, addr: u64 },
}

/// Why a run under the debugger stopped.
#[derive(Clone, Copy, Debug, PartialEq, Eq, Structural)]
pub enum DebugEvent {
    StepCompleted,
    BreakpointHit,
    BoardHalted,
}

/// What a debugger command produces. A floating-point register is carried
/// as the bit patterns of its `f32` and `f64` readings.
#[derive(Debug, PartialEq, Eq)]
pub enum CommandOutput {
    Empty,
    Exit,
    Pc(u64),
    Reg { name: String, val: u64 },
    Regs(Vec<(&'static str, u64)>),
    FReg { name: String, f32_bits: u32, f64_bits: u64 },
    VReg { name: String, val: Vec<(String, Vec<u64>)> },
    Csr { name: String, val: Option<u64> },
    Mem { addr: Address, data: Vec<Option<u8>> },
    Translate { virt_addr: u64, phys_addr: u64 },
    History(Vec<DbgInstrLine>),
    CodeList(Vec<DbgInstrLine>),
    Breakpoints(Vec<Breakpoint>),
    Symbols(Vec<(String, u64)>),
    FTraceShow(Vec<FuncTrace>),
    FTraceStatus { enabled: bool },
    ContinueDone { instr: DbgInstrLine, watch_results: Vec<CommandOutput>, event: DebugEvent, actual_steps: u64 },
    BreakpointSet { ok: bool, addr: Address, symbol: Option<String> },
    BreakpointCleared { ok: bool, addr: Address, symbol: Option<String> },
}

/// The name of general-purpose register `i`: its ABI name, with `fp` beside
/// `s0`.
pub open spec fn reg_name_spec(i: u8) -> Seq<char> {
    match i {
        0 => "zero"@,
        1 => "ra"@,
        2 => "sp"@,
        3 => "gp"@,
        4 => "tp"@,
        5 => "t0"@,
        6 => "t1"@,
        7 => "t2"@,
        8 => "s0/fp"@,
        9 => "s1"@,
        10 => "a0"@,
        11 => "a1"@,
        12 => "a2"@,
        13 => "a3"@,
        14 => "a4"@,
        15 => "a5"@,
        16 => "a6"@,
        17 => "a7"@,
        18 => "s2"@,
        19 => "s3"@,
        20 => "s4"@,
        21 => "s5"@,
        22 => "s6"@,
        23 => "s7"@,
        24 => "s8"@,
        25 => "s9"@,
        26 => "s10"@,
        27 => "s11"@,
        28 => "t3"@,
        29 => "t4"@,
        30 => "t5"@,
        _ => "t6"@,
    }
}

/// The name of general-purpose register `i`, as `reg_name_spec` says.
pub fn reg_name(i: u8) -> (r: &'static str)
    requires
        i < 32,
    ensures
        r@ == reg_name_spec(i),
{
    match i {
        0 => "zero",
        1 => "ra",
        2 => "sp",
        3 => "gp",
        4 => "tp",
        5 => "t0",
        6 => "t1",
        7 => "t2",
        8 => "s0/fp",
        9 => "s1",
        10 => "a0",
        11 => "a1",
        12 => "a2",
        13 => "a3",
        14 => "a4",
        15 => "a5",
        16 => "a6",
        17 => "a7",
        18 => "s2",
        19 => "s3",
        20 => "s4",
        21 => "s5",
        22 => "s6",
        23 => "s7",
        24 => "s8",
        25 => "s9",
        26 => "s10",
        27 => "s11",
        28 => "t3",
        29 => "t4",
        30 => "t5",
        _ => "t6",
    }
}

/// The names by which register `i` is known: the parts of its name between
/// `/`.
pub open spec fn reg_aliases(i: int) -> Seq<Seq<char>> {
    if i == 8 {
        seq!["s0"@, "fp"@]
    } else {
        seq![reg_name_spec(i as u8)]
    }
}

/// Whether `t` is one of the names of register `i`.
pub open spec fn names_reg(t: Seq<char>, i: int) -> bool {
    reg_aliases(i).contains(t)
}

/// The first register from `i` on that `t` names, if any.
pub open spec fn first_named(t: Seq<char>, i: int) -> Option<u8>
    decreases 32 - i,
{
    if i < 0 || i >= 32 {
        None
    } else if names_reg(t, i) {
        Some(i as u8)
    } else {
        first_named(t, i + 1)
    }
}

/// The register that `s` names: trimmed, one of the register names, or `x`
/// followed by a decimal number below 32.
pub open spec fn parse_reg_spec(s: Seq<char>) -> Option<u8> {
    let t = trim(s);
    match first_named(t, 0) {
        Some(i) => Some(i),
        None => if t.len() >= 1 && t[0] == 'x' {
            match parse_radix_spec(t.skip(1), 10) {
                Ok(n) => if n < 32 { Some(n as u8) } else { None },
                Err(_) => None,
            }
        } else {
            None
        },
    }
}

/// Whether the characters `t` are those of `name`.
fn same_chars(t: &Vec<char>, name: &str) -> (r: bool)
    ensures
        r == (t@ == name@),
{
    let n = name.unicode_len();
    if t.len() != n {
        return false;
    }
    let mut k: usize = 0;
    while k < n
        invariant
            k <= n,
            n == name@.len(),
            t@.len() == n,
            forall|j: int| 0 <= j < k ==> t@[j] == name@[j],
        decreases n - k,
    {
        if t[k] != name.get_char(k) {
            return false;
        }
        k = k + 1;
    }
    proof {
        assert(t@ =~= name@);
    }
    true
}

/// The register that `s` names, as `parse_reg_spec` says, or the message
/// `invalid register: ` and `s`.
pub fn parse_common_reg(s: &str) -> (r: Result<u8, String>)
    ensures
        match r {
            Ok(i) => parse_reg_spec(s@) == Some(i) && i < 32,
            Err(m) => parse_reg_spec(s@) is None && m@ == "invalid register: "@ + s@,
        },
{
    let t = trimmed(s);
    let mut i: u8 = 0;
    while i < 32
        invariant
            i <= 32,
            t@ == trim(s@),
            first_named(t@, 0) == first_named(t@, i as int),
        decreases 32 - i,
    {
        let hit = if i == 8 {
            same_chars(&t, "s0") || same_chars(&t, "fp")
        } else {
            same_chars(&t, reg_name(i))
        };
        proof {
            if i == 8 {
                assert(reg_aliases(8) =~= seq!["s0"@, "fp"@]);
                assert(hit == (t@ == "s0"@ || t@ == "fp"@));
                assert(names_reg(t@, 8) == (t@ == "s0"@ || t@ == "fp"@)) by {
                    assert(seq!["s0"@, "fp"@][0] == "s0"@);
                    assert(seq!["s0"@, "fp"@][1] == "fp"@);
                }
            } else {
                assert(reg_aliases(i as int) =~= seq![reg_name_spec(i)]);
                assert(names_reg(t@, i as int) == (t@ == reg_name_spec(i))) by {
                    assert(seq![reg_name_spec(i)][0] == reg_name_spec(i));
                }
            }
        }
        if hit {
            return Ok(i);
        }
        i = i + 1;
    }
    if t.len() >= 1 && t[0] == 'x' {
        match parse_radix(&t, 1, 10) {
            Ok(n) => {
                if n < 32 {
                    return Ok(n as u8);
                }
            },
            Err(_) => {},
        }
    }
    let mut m: Vec<char> = Vec::new();
    push_str(&mut m, "invalid register: ");
    push_str(&mut m, s);
    Err(chars_to_string(&m))
}

} // verus!
