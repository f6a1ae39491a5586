//! The debugger's `print` command on the RV32 core: the program counter, a
//! register, a range of registers, or bytes of memory.

use vstd::prelude::*;
use crate::address::{AddressError, parse_number, parse_number_spec};
use crate::isa::riscv32::executor::RV32CPU;
use crate::ram::{BASE_ADDR, RAM_SIZE};
use crate::rvdb::output::{Address, CommandOutput, reg_name, reg_name_spec, parse_common_reg, parse_reg_spec};
use crate::rvdb::text::{push_str, chars_to_string};

verus! {

/// What to print.
#[derive(Clone, Debug, PartialEq, Eq)]
pub enum PrintCmd {
    /// The program counter.
    Pc,
    /// One general-purpose register, by name.
    Reg { reg: String },
    /// At most `len` general-purpose registers from `start` on.
    Regs { start: u8, len: u8 },
    /// `len` bytes of memory from `addr` on, given as a number; `virt`
    /// marks the address as virtual.
    Mem { addr: String, len: u32, virt: bool },
}

/// The message for a number that does not parse.
pub open spec fn number_error_text(e: AddressError) -> Seq<char> {
    match e {
        AddressError::Empty => "cannot parse integer from empty string"@,
        AddressError::InvalidDigit => "invalid digit found in string"@,
        AddressError::Overflow => "number too large to fit in target type"@,
    }
}

/// The byte at physical address `p`, where RAM holds it.
pub open spec fn byte_at(mem: Seq<u8>, p: int) -> Option<u8> {
    if BASE_ADDR <= p < BASE_ADDR + RAM_SIZE {
        Some(mem[p - BASE_ADDR])
    } else {
        None
    }
}

/// The number of registers from `start` on, at most `len`, below 32.
pub open spec fn regs_count(start: int, len: int) -> int {
    if start >= 32 {
        0
    } else if start + len > 32 {
        32 - start
    } else {
        len
    }
}

/// The message for a number that does not parse, as `number_error_text`
/// says.
fn number_error(e: AddressError) -> (r: String)
    ensures
        r@ == number_error_text(e),
{
    let mut m = Vec::new();
    match e {
        AddressError::Empty => push_str(&mut m, "cannot parse integer from empty string"),
        AddressError::InvalidDigit => push_str(&mut m, "invalid digit found in string"),
        AddressError::Overflow => push_str(&mut m, "number too large to fit in target type"),
    }
    proof {
        assert(m@ =~= number_error_text(e));
    }
    chars_to_string(&m)
}

/// Runs `print` on the core. A register is named as `parse_reg_spec`
/// says; memory is read at physical addresses, a virtual address taken as
/// the same physical one, and a byte outside RAM cannot be read.
pub fn handle_print(cpu: &RV32CPU, cmd: PrintCmd) -> (r: Result<CommandOutput, String>)
    requires
        cpu.wf(),
        cmd matches PrintCmd::Regs { start, len } ==> start + len <= u8::MAX,
    ensures
        match cmd {
            PrintCmd::Pc => r == Ok::<CommandOutput, String>(CommandOutput::Pc(cpu.pc_spec())),
            PrintCmd::Reg { reg } => match parse_reg_spec(reg@) {
                Some(i) => r matches Ok(CommandOutput::Reg { name, val }) && name@ == reg_name_spec(i) && val
                    == cpu.regs()[i as int],
                None => r matches Err(m) && m@ == "invalid register: "@ + reg@,
            },
            PrintCmd::Regs { start, len } => r matches Ok(CommandOutput::Regs(v)) && v@.len() == regs_count(
                start as int,
                len as int,
            ) && forall|k: int|
                0 <= k < v@.len() ==> #[trigger] v@[k].0@ == reg_name_spec((start + k) as u8) && v@[k].1 == cpu.regs()[start
                    + k],
            PrintCmd::Mem { addr, len, virt } => match parse_number_spec(addr@) {
                Err(e) => r matches Err(m) && m@ == number_error_text(e),
                Ok(a) => r matches Ok(CommandOutput::Mem { addr: ad, data }) && ad == (if virt {
                    Address::Virt(a)
                } else {
                    Address::Phys(a)
                }) && data@.len() == len && forall|k: int|
                    0 <= k < len ==> #[trigger] data@[k] == byte_at(cpu.mem(), (a + k) % 0x1_0000_0000_0000_0000),
            },
        },
{
    proof {
        cpu.lemma_wf();
    }
    match cmd {
        PrintCmd::Pc => Ok(CommandOutput::Pc(cpu.pc())),
        PrintCmd::Reg { reg } => {
            let idx = match parse_common_reg(reg.as_str()) {
                Ok(i) => i,
                Err(m) => {
                    return Err(m);
                },
            };
            Ok(CommandOutput::Reg { name: reg_name(idx).to_owned(), val: cpu.read_reg(idx) })
        },
        PrintCmd::Regs { start, len } => {
            let mut regs: Vec<(&'static str, u64)> = Vec::new();
            let end = start + len;
            let stop: u8 = if end > 32 {
                32
            } else {
                end
            };
            let mut i = start;
            while i < stop
                invariant
                    cpu.wf(),
                    cpu.regs().len() == 32,
                    start <= i,
                    i <= stop || i == start,
                    stop == (if start + len > 32 { 32 } else { start + len }),
                    regs@.len() == i - start,
                    forall|k: int|
                        0 <= k < regs@.len() ==> #[trigger] regs@[k].0@ == reg_name_spec((start + k) as u8) && regs@[k].1
                            == cpu.regs()[start + k],
                decreases stop - i,
            {
                regs.push((reg_name(i), cpu.read_reg(i)));
                i = i + 1;
            }
            Ok(CommandOutput::Regs(regs))
        },
        PrintCmd::Mem { addr, len, virt } => {
            let a = match parse_number(addr.as_str()) {
                Ok(a) => a,
                Err(e) => {
                    return Err(number_error(e));
                },
            };
            let bytes = cpu.memory().as_bytes();
            let mut data: Vec<Option<u8>> = Vec::new();
            let mut k: u32 = 0;
            while k < len
                invariant
                    k <= len,
                    bytes@ == cpu.mem(),
                    bytes@.len() == RAM_SIZE,
                    data@.len() == k,
                    forall|j: int|
                        0 <= j < k ==> #[trigger] data@[j] == byte_at(cpu.mem(), (a + j) % 0x1_0000_0000_0000_0000),
                decreases len - k,
            {
                let p = a.wrapping_add(k as u64);
                if p >= BASE_ADDR && p - BASE_ADDR < RAM_SIZE as u64 {
                    data.push(Some(bytes[(p - BASE_ADDR) as usize]));
                } else {
                    data.push(None);
                }
                k = k + 1;
            }
            let ad = if virt {
                Address::Virt(a)
            } else {
                Address::Phys(a)
            };
            Ok(CommandOutput::Mem { addr: ad, data })
        },
    }
}

} // verus!
