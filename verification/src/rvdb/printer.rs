//! Rendering debugger output as text, plain or with ANSI colours: each
//! kind of output has its lines, and instructions are shown in assembly.

use vstd::prelude::*;
use crate::isa::riscv32::instruction::{RiscvInstr, RVInstrInfo};
use crate::rvdb::text::{
    dec_spec, hex_spec, pad_left, pad_right, push_str, push_chars, push_dec, push_hex, push_pad_left,
    push_pad_right, dec_chars, chars_to_string,
};
use crate::rvdb::output::{
    Address, RawInstr, DbgInstrLine, Breakpoint, FuncTrace, CommandOutput, DebugEvent, reg_name, reg_name_spec,
};

verus! {

/// The text before a painted value: an ANSI colour code, when colours are on.
pub open spec fn open_spec(ansi: bool, code: nat) -> Seq<char> {
    if ansi {
        "\x1b["@ + dec_spec(code) + "m"@
    } else {
        seq![]
    }
}

/// The text after a painted value: the ANSI reset, when colours are on.
pub open spec fn close_spec(ansi: bool) -> Seq<char> {
    if ansi {
        "\x1b[0m"@
    } else {
        seq![]
    }
}

/// `s` in colour `code`, when colours are on.
pub open spec fn paint(ansi: bool, code: nat, s: Seq<char>) -> Seq<char> {
    open_spec(ansi, code) + s + close_spec(ansi)
}

/// The colour codes: red, green, yellow, blue, magenta, cyan.
pub open spec fn red() -> nat { 31 }
pub open spec fn green() -> nat { 32 }
pub open spec fn yellow() -> nat { 33 }
pub open spec fn blue() -> nat { 34 }
pub open spec fn magenta() -> nat { 35 }
pub open spec fn cyan() -> nat { 36 }

/// A word as an address: `0x` and eight hexadecimal digits, in blue.
pub open spec fn addr_spec(a: bool, w: u64) -> Seq<char> {
    paint(a, blue(), "0x"@ + hex_spec(w as nat, 8))
}

/// A word as data: `0x` and eight hexadecimal digits, in yellow.
pub open spec fn data_spec(a: bool, w: u64) -> Seq<char> {
    paint(a, yellow(), "0x"@ + hex_spec(w as nat, 8))
}

/// A word as 64-bit data: `0x` and sixteen hexadecimal digits, in yellow.
pub open spec fn data64_spec(a: bool, w: u64) -> Seq<char> {
    paint(a, yellow(), "0x"@ + hex_spec(w as nat, 16))
}

/// A physical or virtual address.
pub open spec fn address_spec(a: bool, ad: Address) -> Seq<char> {
    match ad {
        Address::Phys(x) => "paddr("@ + addr_spec(a, x) + ")"@,
        Address::Virt(x) => "vaddr("@ + addr_spec(a, x) + ")"@,
    }
}

/// An index, right-aligned in two columns, in yellow.
pub open spec fn idx_spec(a: bool, i: nat) -> Seq<char> {
    paint(a, yellow(), pad_left(dec_spec(i), 2))
}

/// A register name, left-aligned in `width` columns, in magenta.
pub open spec fn reg_spec(a: bool, name: Seq<char>, width: nat) -> Seq<char> {
    paint(a, magenta(), pad_right(name, width))
}

/// A name from the symbol table, in yellow.
pub open spec fn ident_spec(a: bool, s: Seq<char>) -> Seq<char> {
    paint(a, yellow(), s)
}

/// Whether the registers that a decoded instruction names are registers.
pub open spec fn asm_ok(d: Option<(RiscvInstr, RVInstrInfo)>) -> bool {
    match d {
        None => true,
        Some((_, info)) => match info {
            RVInstrInfo::R { rs1, rs2, rd } => rs1 < 32 && rs2 < 32 && rd < 32,
            RVInstrInfo::I { rs1, rd, .. } => rs1 < 32 && rd < 32,
            RVInstrInfo::S { rs1, rs2, .. } => rs1 < 32 && rs2 < 32,
            RVInstrInfo::B { rs1, rs2, .. } => rs1 < 32 && rs2 < 32,
            RVInstrInfo::U { rd, .. } => rd < 32,
            RVInstrInfo::J { rd, .. } => rd < 32,
        },
    }
}

/// A register of an instruction's operands.
pub open spec fn opnd(a: bool, r: u8) -> Seq<char> {
    reg_spec(a, reg_name_spec(r), 0)
}

/// Three registers, separated by commas.
pub open spec fn three_regs(a: bool, x: u8, y: u8, z: u8) -> Seq<char> {
    opnd(a, x) + ","@ + opnd(a, y) + ","@ + opnd(a, z)
}

/// Two registers and a decimal number in yellow, separated by commas.
pub open spec fn two_regs_num(a: bool, x: u8, y: u8, v: u64) -> Seq<char> {
    opnd(a, x) + ","@ + opnd(a, y) + ","@ + paint(a, yellow(), dec_spec(v as nat))
}

/// A register and a decimal number in yellow, separated by a comma.
pub open spec fn reg_num(a: bool, x: u8, v: u64) -> Seq<char> {
    opnd(a, x) + ","@ + paint(a, yellow(), dec_spec(v as nat))
}

/// The operands of an instruction: branch offsets are shown halved, jump
/// and upper immediates shifted right by twelve.
pub open spec fn operands_spec(a: bool, info: RVInstrInfo) -> Seq<char> {
    match info {
        RVInstrInfo::I { rd, rs1, imm } => two_regs_num(a, rd, rs1, imm),
        RVInstrInfo::R { rs1, rs2, rd } => three_regs(a, rd, rs1, rs2),
        RVInstrInfo::B { rs1, rs2, imm } => two_regs_num(a, rs1, rs2, imm >> 1u64),
        RVInstrInfo::J { rd, imm } => reg_num(a, rd, imm >> 12u64),
        RVInstrInfo::S { rs1, rs2, imm } => two_regs_num(a, rs1, rs2, imm),
        RVInstrInfo::U { rd, imm } => reg_num(a, rd, imm >> 12u64),
    }
}

/// A decoded instruction in assembly: the mnemonic in green, then its
/// operands, or `<invalid instruction>` in red.
pub open spec fn asm_spec(a: bool, d: Option<(RiscvInstr, RVInstrInfo)>) -> Seq<char> {
    match d {
        None => paint(a, red(), "<invalid instruction>"@),
        Some((instr, info)) => paint(a, green(), instr.name_spec()) + " "@ + operands_spec(a, info),
    }
}

/// The raw bits of an instruction: four hexadecimal digits for a 2-byte
/// instruction, eight otherwise, or `<invalid>` in red.
pub open spec fn raw_spec(a: bool, raw: Option<RawInstr>) -> Seq<char> {
    match raw {
        Some(r) => if r.len == 2 {
            paint(a, yellow(), "0x"@ + hex_spec(r.val as nat, 4))
        } else {
            paint(a, yellow(), "0x"@ + hex_spec(r.val as nat, 8))
        },
        None => paint(a, red(), "<invalid>"@),
    }
}

/// A symbol after an instruction, if there is one.
pub open spec fn sym_spec(a: bool, sym: Option<String>) -> Seq<char> {
    match sym {
        Some(s) => " "@ + ident_spec(a, s@),
        None => seq![],
    }
}

/// An instruction line: address, assembly and symbol.
pub open spec fn line_spec(a: bool, l: DbgInstrLine) -> Seq<char> {
    addr_spec(a, l.addr) + ": "@ + asm_spec(a, l.decoded) + sym_spec(a, l.symbol)
}

/// A detailed instruction line: address, raw bits, assembly and symbol.
pub open spec fn detail_spec(a: bool, l: DbgInstrLine) -> Seq<char> {
    addr_spec(a, l.addr) + ": "@ + raw_spec(a, l.raw) + " "@ + asm_spec(a, l.decoded) + sym_spec(a, l.symbol)
}

/// The texts of `s` one after another.
pub open spec fn concat(s: Seq<Seq<char>>) -> Seq<char>
    decreases s.len(),
{
    if s.len() == 0 {
        seq![]
    } else {
        concat(s.drop_last()) + s.last()
    }
}

/// The next text joined to the texts before it.
proof fn lemma_concat_push(s: Seq<Seq<char>>, i: int)
    requires
        0 <= i < s.len(),
    ensures
        concat(s.take(i + 1)) == concat(s.take(i)) + s[i],
{
    assert(s.take(i + 1).drop_last() =~= s.take(i));
}

/// The address `k` bytes after `ad`, wrapping.
pub open spec fn offset_address(ad: Address, k: int) -> Address {
    match ad {
        Address::Phys(x) => Address::Phys(((x + k) % 0x1_0000_0000_0000_0000) as u64),
        Address::Virt(x) => Address::Virt(((x + k) % 0x1_0000_0000_0000_0000) as u64),
    }
}

/// Byte `i` of a memory dump: the address at the start of each line of
/// sixteen, the byte in two hexadecimal digits or `??`, and a line break
/// after every sixteenth.
pub open spec fn mem_piece(a: bool, ad: Address, data: Seq<Option<u8>>, i: int) -> Seq<char> {
    (if i % 16 == 0 { address_spec(a, offset_address(ad, i)) + ": "@ } else { seq![] }) + (match data[i] {
        Some(b) => hex_spec(b as nat, 2) + " "@,
        None => "?? "@,
    }) + (if (i + 1) % 16 == 0 { "\n"@ } else { seq![] })
}

/// A function trace entry.
pub open spec fn trace_spec(a: bool, t: FuncTrace) -> Seq<char> {
    match t {
        FuncTrace::Call { name, addr } => "Call   -> ["@ + ident_spec(a, match name {
            Some(n) => n@,
            None => "???"@,
        }) + "@"@ + addr_spec(a, addr) + "]\n"@,
        FuncTrace::Return { name, addr } => "Return <- ["@ + ident_spec(a, match name {
            Some(n) => n@,
            None => "???"@,
        }) + "@"@ + addr_spec(a, addr) + "]\n"@,
    }
}

/// Whether the output can be rendered here: instructions name registers, a
/// memory dump has at most `u32::MAX` bytes, and no floating-point register
/// is among it (its text is that of the float, which this library does not
/// compute).
pub open spec fn output_ok(o: CommandOutput) -> bool
    decreases o,
{
    match o {
        CommandOutput::FReg { .. } => false,
        CommandOutput::Mem { data, .. } => data@.len() <= u32::MAX,
        CommandOutput::History(lines) => forall|i: int| 0 <= i < lines@.len() ==> #[trigger] asm_ok(lines@[i].decoded),
        CommandOutput::CodeList(lines) => forall|i: int| 0 <= i < lines@.len() ==> #[trigger] asm_ok(lines@[i].decoded),
        CommandOutput::ContinueDone { instr, watch_results, .. } => {
            proof {
                assert(decreases_to!(o => watch_results));
            }
            asm_ok(instr.decoded) && outputs_ok(watch_results@)
        },
        _ => true,
    }
}

/// Whether each output of `s` can be rendered here.
pub open spec fn outputs_ok(s: Seq<CommandOutput>) -> bool
    decreases s,
{
    if s.len() == 0 {
        true
    } else {
        outputs_ok(s.subrange(0, s.len() - 1)) && output_ok(s[s.len() - 1])
    }
}

/// The first line after a run: how it stopped, after how many steps, and
/// the next instruction.
pub open spec fn continue_head(a: bool, instr: DbgInstrLine, event: DebugEvent, steps: u64) -> Seq<char> {
    match event {
        DebugEvent::StepCompleted => "Completed, next: "@ + line_spec(a, instr) + "\n"@,
        DebugEvent::BreakpointHit => "Breakpoint hit after "@ + dec_spec(steps as nat) + " steps: "@ + line_spec(a, instr)
            + "\n"@,
        DebugEvent::BoardHalted => if steps == 0 {
            "Board already halted\n"@
        } else {
            "Board halted after "@ + dec_spec(steps as nat) + " steps: "@ + line_spec(a, instr) + "\n"@
        },
    }
}

/// Line `i` of a register listing.
pub open spec fn regs_line(a: bool, name: Seq<char>, val: u64, i: int) -> Seq<char> {
    "x"@ + pad_right(dec_spec(i as nat), 3) + " "@ + reg_spec(a, name, 5) + " = "@ + data_spec(a, val) + "\n"@
}

/// Item `i` of a list as `Debug` shows it.
pub open spec fn list_item(v: Seq<u64>, i: int) -> Seq<char> {
    if i == 0 {
        dec_spec(v[i] as nat)
    } else {
        ", "@ + dec_spec(v[i] as nat)
    }
}

/// The numbers of `v`, as `Debug` shows a list: in brackets, decimal,
/// separated by `, `.
pub open spec fn debug_list(v: Seq<u64>) -> Seq<char> {
    "["@ + concat(Seq::new(v.len(), |i: int| list_item(v, i))) + "]"@
}

/// One element width of a vector register.
pub open spec fn vreg_line(a: bool, c: Seq<char>, data: Seq<u64>) -> Seq<char> {
    "\t"@ + paint(a, yellow(), c) + " = "@ + paint(a, yellow(), debug_list(data)) + ", \n"@
}

/// Line `i` of the execution history.
pub open spec fn history_line(a: bool, l: DbgInstrLine, i: int) -> Seq<char> {
    "  ["@ + idx_spec(a, i as nat) + "] "@ + line_spec(a, l) + "\n"@
}

/// A line of a code listing, marked where it is the current instruction.
pub open spec fn code_line(a: bool, l: DbgInstrLine) -> Seq<char> {
    (if l.is_current_pc {
        paint(a, cyan(), ">"@) + " "@
    } else {
        "  "@
    }) + detail_spec(a, l) + "\n"@
}

/// A breakpoint line.
pub open spec fn bp_line(a: bool, bp: Breakpoint) -> Seq<char> {
    idx_spec(a, bp.id as nat) + ": "@ + address_spec(a, bp.addr) + "\n"@
}

/// A symbol line.
pub open spec fn sym_line(a: bool, name: Seq<char>, addr: u64) -> Seq<char> {
    addr_spec(a, addr) + ": "@ + ident_spec(a, name) + "\n"@
}

/// The text of a memory dump.
pub open spec fn mem_spec(a: bool, ad: Address, data: Seq<Option<u8>>) -> Seq<char> {
    concat(Seq::new(data.len(), |i: int| mem_piece(a, ad, data, i))) + (if data.len() > 0 && data.len() % 16 != 0 {
        "\n"@
    } else {
        seq![]
    })
}

/// A breakpoint that was set or cleared: `what` on success, `fail` where
/// there was nothing to do.
pub open spec fn bp_change(a: bool, ok: bool, addr: Address, symbol: Option<String>, what: Seq<char>, fail: Seq<char>) -> Seq<char> {
    if ok {
        match symbol {
            Some(s) => what + s@ + " <"@ + address_spec(a, addr) + ">\n"@,
            None => what + address_spec(a, addr) + "\n"@,
        }
    } else {
        fail + address_spec(a, addr) + "\n"@
    }
}

/// The text of an output, kind by kind.
pub open spec fn render_spec(a: bool, o: CommandOutput) -> Seq<char>
    decreases o,
{
    match o {
        CommandOutput::FReg { .. } => seq![],
        CommandOutput::Empty => seq![],
        CommandOutput::Exit => seq![],
        CommandOutput::Pc(pc) => "pc = "@ + addr_spec(a, pc) + "\n"@,
        CommandOutput::Reg { name, val } => reg_spec(a, name@, 3) + " = "@ + data_spec(a, val) + "\n"@,
        CommandOutput::Regs(regs) => concat(Seq::new(regs@.len(), |i: int| regs_line(a, regs@[i].0@, regs@[i].1, i))),
        CommandOutput::VReg { name, val } => reg_spec(a, name@, 0) + " = {\n"@ + concat(
            Seq::new(val@.len(), |i: int| vreg_line(a, val@[i].0@, val@[i].1@)),
        ) + "\n}\n"@,
        CommandOutput::Csr { name, val } => match val {
            Some(v) => name@ + " = "@ + data64_spec(a, v) + "\n"@,
            None => "Illegal CSR.\n"@,
        },
        CommandOutput::Mem { addr, data } => mem_spec(a, addr, data@),
        CommandOutput::Translate { virt_addr, phys_addr } => addr_spec(a, virt_addr) + " -> "@ + addr_spec(a, phys_addr)
            + "\n"@,
        CommandOutput::History(lines) => concat(Seq::new(lines@.len(), |i: int| history_line(a, lines@[i], i))),
        CommandOutput::CodeList(lines) => concat(Seq::new(lines@.len(), |i: int| code_line(a, lines@[i]))),
        CommandOutput::Breakpoints(bps) => concat(Seq::new(bps@.len(), |i: int| bp_line(a, bps@[i]))),
        CommandOutput::Symbols(syms) => concat(Seq::new(syms@.len(), |i: int| sym_line(a, syms@[i].0@, syms@[i].1))),
        CommandOutput::FTraceShow(traces) => concat(Seq::new(traces@.len(), |i: int| trace_spec(a, traces@[i]))),
        CommandOutput::FTraceStatus { enabled } => "ftrace "@ + (if enabled { "started"@ } else { "stopped"@ }) + "\n"@,
        CommandOutput::ContinueDone { instr, watch_results, event, actual_steps } => {
            proof {
                assert(decreases_to!(o => watch_results));
            }
            continue_head(a, instr, event, actual_steps) + render_all(a, watch_results@)
        },
        CommandOutput::BreakpointSet { ok, addr, symbol } => bp_change(
            a,
            ok,
            addr,
            symbol,
            "Breakpoint set at "@,
            "Breakpoint already exists at "@,
        ),
        CommandOutput::BreakpointCleared { ok, addr, symbol } => bp_change(
            a,
            ok,
            addr,
            symbol,
            "Breakpoint removed at "@,
            "Breakpoint not found at "@,
        ),
    }
}

/// The texts of the outputs of `s`, one after another.
pub open spec fn render_all(a: bool, s: Seq<CommandOutput>) -> Seq<char>
    decreases s,
{
    if s.len() == 0 {
        seq![]
    } else {
        render_all(a, s.subrange(0, s.len() - 1)) + render_spec(a, s[s.len() - 1])
    }
}

/// Appends the colour code of `code` when colours are on.
fn push_open(out: &mut Vec<char>, a: bool, code: u64)
    ensures
        final(out)@ == old(out)@ + open_spec(a, code as nat),
{
    if a {
        push_str(out, "\x1b[");
        push_dec(out, code);
        push_str(out, "m");
    }
    proof {
        assert(final(out)@ =~= old(out)@ + open_spec(a, code as nat));
    }
}

/// Appends the colour reset when colours are on.
fn push_close(out: &mut Vec<char>, a: bool)
    ensures
        final(out)@ == old(out)@ + close_spec(a),
{
    if a {
        push_str(out, "\x1b[0m");
    }
    proof {
        assert(final(out)@ =~= old(out)@ + close_spec(a));
    }
}

/// Appends `s` in colour `code`.
fn push_painted(out: &mut Vec<char>, a: bool, code: u64, s: &str)
    ensures
        final(out)@ == old(out)@ + paint(a, code as nat, s@),
{
    push_open(out, a, code);
    push_str(out, s);
    push_close(out, a);
    proof {
        assert(final(out)@ =~= old(out)@ + paint(a, code as nat, s@));
    }
}

/// Appends the characters `s` in colour `code`.
fn push_painted_chars(out: &mut Vec<char>, a: bool, code: u64, s: &Vec<char>)
    ensures
        final(out)@ == old(out)@ + paint(a, code as nat, s@),
{
    push_open(out, a, code);
    push_chars(out, s);
    push_close(out, a);
    proof {
        assert(final(out)@ =~= old(out)@ + paint(a, code as nat, s@));
    }
}

/// Appends `w` as `0x` and `digits` hexadecimal digits in colour `code`.
fn push_word(out: &mut Vec<char>, a: bool, code: u64, w: u64, digits: usize)
    ensures
        final(out)@ == old(out)@ + paint(a, code as nat, "0x"@ + hex_spec(w as nat, digits as nat)),
{
    let mut s = Vec::new();
    push_str(&mut s, "0x");
    push_hex(&mut s, w, digits);
    push_painted_chars(out, a, code, &s);
}

/// Appends an address, as `addr_spec` says.
fn push_addr(out: &mut Vec<char>, a: bool, w: u64)
    ensures
        final(out)@ == old(out)@ + addr_spec(a, w),
{
    push_word(out, a, 34, w, 8);
}

/// Appends a physical or virtual address, as `address_spec` says.
fn push_address(out: &mut Vec<char>, a: bool, ad: Address)
    ensures
        final(out)@ == old(out)@ + address_spec(a, ad),
{
    match ad {
        Address::Phys(x) => {
            push_str(out, "paddr(");
            push_addr(out, a, x);
            push_str(out, ")");
        },
        Address::Virt(x) => {
            push_str(out, "vaddr(");
            push_addr(out, a, x);
            push_str(out, ")");
        },
    }
    proof {
        assert(final(out)@ =~= old(out)@ + address_spec(a, ad));
    }
}

/// Appends an index, as `idx_spec` says.
fn push_idx(out: &mut Vec<char>, a: bool, i: u64)
    ensures
        final(out)@ == old(out)@ + idx_spec(a, i as nat),
{
    let d = dec_chars(i);
    let mut s = Vec::new();
    push_pad_left(&mut s, &d, 2);
    push_painted_chars(out, a, 33, &s);
}

/// Appends a register name, as `reg_spec` says.
fn push_reg(out: &mut Vec<char>, a: bool, name: &str, width: usize)
    ensures
        final(out)@ == old(out)@ + reg_spec(a, name@, width as nat),
{
    let mut n = Vec::new();
    push_str(&mut n, name);
    let mut s = Vec::new();
    push_pad_right(&mut s, &n, width);
    push_painted_chars(out, a, 35, &s);
}

/// Appends a decimal number in yellow.
fn push_dec_data(out: &mut Vec<char>, a: bool, v: u64)
    ensures
        final(out)@ == old(out)@ + paint(a, yellow(), dec_spec(v as nat)),
{
    let d = dec_chars(v);
    push_painted_chars(out, a, 33, &d);
}

/// Appends a register operand.
fn push_opnd(out: &mut Vec<char>, a: bool, r: u8)
    requires
        r < 32,
    ensures
        final(out)@ == old(out)@ + opnd(a, r),
{
    push_reg(out, a, reg_name(r), 0);
}

/// Appends three registers, as `three_regs` says.
fn push_three_regs(out: &mut Vec<char>, a: bool, x: u8, y: u8, z: u8)
    requires
        x < 32,
        y < 32,
        z < 32,
    ensures
        final(out)@ == old(out)@ + three_regs(a, x, y, z),
{
    push_opnd(out, a, x);
    push_str(out, ",");
    push_opnd(out, a, y);
    push_str(out, ",");
    push_opnd(out, a, z);
    proof {
        assert(final(out)@ =~= old(out)@ + three_regs(a, x, y, z));
    }
}

/// Appends two registers and a number, as `two_regs_num` says.
fn push_two_regs_num(out: &mut Vec<char>, a: bool, x: u8, y: u8, v: u64)
    requires
        x < 32,
        y < 32,
    ensures
        final(out)@ == old(out)@ + two_regs_num(a, x, y, v),
{
    push_opnd(out, a, x);
    push_str(out, ",");
    push_opnd(out, a, y);
    push_str(out, ",");
    push_dec_data(out, a, v);
    proof {
        assert(final(out)@ =~= old(out)@ + two_regs_num(a, x, y, v));
    }
}

/// Appends a register and a number, as `reg_num` says.
fn push_reg_num(out: &mut Vec<char>, a: bool, x: u8, v: u64)
    requires
        x < 32,
    ensures
        final(out)@ == old(out)@ + reg_num(a, x, v),
{
    push_opnd(out, a, x);
    push_str(out, ",");
    push_dec_data(out, a, v);
    proof {
        assert(final(out)@ =~= old(out)@ + reg_num(a, x, v));
    }
}

/// Appends a decoded instruction in assembly, as `asm_spec` says.
fn push_asm(out: &mut Vec<char>, a: bool, d: Option<(RiscvInstr, RVInstrInfo)>)
    requires
        asm_ok(d),
    ensures
        final(out)@ == old(out)@ + asm_spec(a, d),
{
    match d {
        None => {
            push_painted(out, a, 31, "<invalid instruction>");
        },
        Some((instr, info)) => {
            push_painted(out, a, 32, instr.name());
            push_str(out, " ");
            match info {
                RVInstrInfo::I { rd, rs1, imm } => push_two_regs_num(out, a, rd, rs1, imm),
                RVInstrInfo::R { rs1, rs2, rd } => push_three_regs(out, a, rd, rs1, rs2),
                RVInstrInfo::B { rs1, rs2, imm } => push_two_regs_num(out, a, rs1, rs2, imm >> 1u64),
                RVInstrInfo::J { rd, imm } => push_reg_num(out, a, rd, imm >> 12u64),
                RVInstrInfo::S { rs1, rs2, imm } => push_two_regs_num(out, a, rs1, rs2, imm),
                RVInstrInfo::U { rd, imm } => push_reg_num(out, a, rd, imm >> 12u64),
            }
        },
    }
    proof {
        assert(final(out)@ =~= old(out)@ + asm_spec(a, d));
    }
}

/// A decoded instruction in assembly, plain or in colour, as `asm_spec`
/// says.
pub fn format_asm(ansi: bool, d: Option<(RiscvInstr, RVInstrInfo)>) -> (r: String)
    requires
        asm_ok(d),
    ensures
        r@ == asm_spec(ansi, d),
{
    let mut out = Vec::new();
    push_asm(&mut out, ansi, d);
    proof {
        assert(out@ =~= asm_spec(ansi, d));
    }
    chars_to_string(&out)
}

/// Appends the raw bits of an instruction, as `raw_spec` says.
fn push_raw(out: &mut Vec<char>, a: bool, raw: Option<RawInstr>)
    ensures
        final(out)@ == old(out)@ + raw_spec(a, raw),
{
    match raw {
        Some(r) => {
            if r.len == 2 {
                push_word(out, a, 33, r.val as u64, 4);
            } else {
                push_word(out, a, 33, r.val as u64, 8);
            }
        },
        None => {
            push_painted(out, a, 31, "<invalid>");
        },
    }
}

/// Appends the symbol after an instruction, as `sym_spec` says.
fn push_sym(out: &mut Vec<char>, a: bool, sym: &Option<String>)
    ensures
        final(out)@ == old(out)@ + sym_spec(a, *sym),
{
    match sym {
        Some(name) => {
            push_str(out, " ");
            push_painted(out, a, 33, name.as_str());
        },
        None => {},
    }
    proof {
        assert(final(out)@ =~= old(out)@ + sym_spec(a, *sym));
    }
}

/// Appends an instruction line, as `line_spec` says.
fn push_line(out: &mut Vec<char>, a: bool, l: &DbgInstrLine)
    requires
        asm_ok(l.decoded),
    ensures
        final(out)@ == old(out)@ + line_spec(a, *l),
{
    push_addr(out, a, l.addr);
    push_str(out, ": ");
    push_asm(out, a, l.decoded);
    push_sym(out, a, &l.symbol);
    proof {
        assert(final(out)@ =~= old(out)@ + line_spec(a, *l));
    }
}

/// Appends a detailed instruction line, as `detail_spec` says.
fn push_detail(out: &mut Vec<char>, a: bool, l: &DbgInstrLine)
    requires
        asm_ok(l.decoded),
    ensures
        final(out)@ == old(out)@ + detail_spec(a, *l),
{
    push_addr(out, a, l.addr);
    push_str(out, ": ");
    push_raw(out, a, l.raw);
    push_str(out, " ");
    push_asm(out, a, l.decoded);
    push_sym(out, a, &l.symbol);
    proof {
        assert(final(out)@ =~= old(out)@ + detail_spec(a, *l));
    }
}

/// Appends a register listing.
fn push_regs(out: &mut Vec<char>, a: bool, regs: &Vec<(&'static str, u64)>)
    ensures
        final(out)@ == old(out)@ + concat(Seq::new(regs@.len(), |i: int| regs_line(a, regs@[i].0@, regs@[i].1, i))),
{
    let ghost lines = Seq::new(regs@.len(), |i: int| regs_line(a, regs@[i].0@, regs@[i].1, i));
    let mut i: usize = 0;
    while i < regs.len()
        invariant
            i <= regs@.len(),
            lines == Seq::new(regs@.len(), |i: int| regs_line(a, regs@[i].0@, regs@[i].1, i)),
            out@ == old(out)@ + concat(lines.take(i as int)),
        decreases regs@.len() - i,
    {
        let ghost before = out@;
        let (name, val) = regs[i];
        push_str(out, "x");
        let d = dec_chars(i as u64);
        push_pad_right(out, &d, 3);
        push_str(out, " ");
        push_reg(out, a, name, 5);
        push_str(out, " = ");
        push_word(out, a, 33, val, 8);
        push_str(out, "\n");
        proof {
            assert(out@ =~= before + lines[i as int]);
            lemma_concat_push(lines, i as int);
        }
        i = i + 1;
    }
    proof {
        assert(lines.take(regs@.len() as int) =~= lines);
    }
}

/// Appends a list of numbers, as `debug_list` says.
fn push_debug_list(out: &mut Vec<char>, v: &Vec<u64>)
    ensures
        final(out)@ == old(out)@ + debug_list(v@),
{
    let ghost items = Seq::new(v@.len(), |i: int| list_item(v@, i));
    push_str(out, "[");
    let ghost start = out@;
    let mut i: usize = 0;
    while i < v.len()
        invariant
            i <= v@.len(),
            items == Seq::new(v@.len(), |i: int| list_item(v@, i)),
            out@ == start + concat(items.take(i as int)),
        decreases v@.len() - i,
    {
        let ghost before = out@;
        if i > 0 {
            push_str(out, ", ");
        }
        push_dec(out, v[i]);
        proof {
            assert(out@ =~= before + items[i as int]);
            lemma_concat_push(items, i as int);
        }
        i = i + 1;
    }
    proof {
        assert(items.take(v@.len() as int) =~= items);
    }
    push_str(out, "]");
    proof {
        assert(final(out)@ =~= old(out)@ + debug_list(v@));
    }
}

/// Appends the element widths of a vector register.
fn push_vreg_lines(out: &mut Vec<char>, a: bool, val: &Vec<(String, Vec<u64>)>)
    ensures
        final(out)@ == old(out)@ + concat(Seq::new(val@.len(), |i: int| vreg_line(a, val@[i].0@, val@[i].1@))),
{
    let ghost lines = Seq::new(val@.len(), |i: int| vreg_line(a, val@[i].0@, val@[i].1@));
    let mut i: usize = 0;
    while i < val.len()
        invariant
            i <= val@.len(),
            lines == Seq::new(val@.len(), |i: int| vreg_line(a, val@[i].0@, val@[i].1@)),
            out@ == old(out)@ + concat(lines.take(i as int)),
        decreases val@.len() - i,
    {
        let ghost before = out@;
        let entry = &val[i];
        push_str(out, "\t");
        push_painted(out, a, 33, entry.0.as_str());
        push_str(out, " = ");
        let mut l = Vec::new();
        push_debug_list(&mut l, &entry.1);
        push_painted_chars(out, a, 33, &l);
        push_str(out, ", \n");
        proof {
            assert(l@ =~= debug_list(val@[i as int].1@));
            assert(out@ =~= before + lines[i as int]);
            lemma_concat_push(lines, i as int);
        }
        i = i + 1;
    }
    proof {
        assert(lines.take(val@.len() as int) =~= lines);
    }
}

/// The address `k` bytes after `ad`, as `offset_address` says.
fn offset_addr(ad: Address, k: u64) -> (r: Address)
    ensures
        r == offset_address(ad, k as int),
{
    match ad {
        Address::Phys(x) => Address::Phys(x.wrapping_add(k)),
        Address::Virt(x) => Address::Virt(x.wrapping_add(k)),
    }
}

/// Appends byte `i` of a memory dump, as `mem_piece` says.
fn push_mem_piece(out: &mut Vec<char>, a: bool, ad: Address, data: &Vec<Option<u8>>, i: usize)
    requires
        i < data@.len(),
    ensures
        final(out)@ == old(out)@ + mem_piece(a, ad, data@, i as int),
{
    if i % 16 == 0 {
        push_address(out, a, offset_addr(ad, i as u64));
        push_str(out, ": ");
    }
    match data[i] {
        Some(b) => {
            push_hex(out, b as u64, 2);
            push_str(out, " ");
        },
        None => {
            push_str(out, "?? ");
        },
    }
    if i % 16 == 15 {
        push_str(out, "\n");
    }
    proof {
        assert(final(out)@ =~= old(out)@ + mem_piece(a, ad, data@, i as int));
    }
}

/// Appends a line of a code listing, as `code_line` says.
fn push_code_line(out: &mut Vec<char>, a: bool, l: &DbgInstrLine)
    requires
        asm_ok(l.decoded),
    ensures
        final(out)@ == old(out)@ + code_line(a, *l),
{
    if l.is_current_pc {
        push_painted(out, a, 36, ">");
        push_str(out, " ");
    } else {
        push_str(out, "  ");
    }
    push_detail(out, a, l);
    push_str(out, "\n");
    proof {
        assert(final(out)@ =~= old(out)@ + code_line(a, *l));
    }
}

/// Appends a memory dump, as `mem_spec` says.
fn push_mem(out: &mut Vec<char>, a: bool, ad: Address, data: &Vec<Option<u8>>)
    ensures
        final(out)@ == old(out)@ + mem_spec(a, ad, data@),
{
    let ghost pieces = Seq::new(data@.len(), |i: int| mem_piece(a, ad, data@, i));
    let mut i: usize = 0;
    while i < data.len()
        invariant
            i <= data@.len(),
            pieces == Seq::new(data@.len(), |i: int| mem_piece(a, ad, data@, i)),
            out@ == old(out)@ + concat(pieces.take(i as int)),
        decreases data@.len() - i,
    {
        push_mem_piece(out, a, ad, data, i);
        proof {
            lemma_concat_push(pieces, i as int);
        }
        i = i + 1;
    }
    proof {
        assert(pieces.take(data@.len() as int) =~= pieces);
    }
    if data.len() > 0 && data.len() % 16 != 0 {
        push_str(out, "\n");
    }
    proof {
        assert(final(out)@ =~= old(out)@ + mem_spec(a, ad, data@));
    }
}

/// Appends the execution history.
fn push_history(out: &mut Vec<char>, a: bool, lines: &Vec<DbgInstrLine>)
    requires
        forall|i: int| 0 <= i < lines@.len() ==> #[trigger] asm_ok(lines@[i].decoded),
    ensures
        final(out)@ == old(out)@ + concat(Seq::new(lines@.len(), |i: int| history_line(a, lines@[i], i))),
{
    let ghost ls = Seq::new(lines@.len(), |i: int| history_line(a, lines@[i], i));
    let mut i: usize = 0;
    while i < lines.len()
        invariant
            i <= lines@.len(),
            forall|i: int| 0 <= i < lines@.len() ==> #[trigger] asm_ok(lines@[i].decoded),
            ls == Seq::new(lines@.len(), |i: int| history_line(a, lines@[i], i)),
            out@ == old(out)@ + concat(ls.take(i as int)),
        decreases lines@.len() - i,
    {
        let ghost before = out@;
        push_str(out, "  [");
        push_idx(out, a, i as u64);
        push_str(out, "] ");
        push_line(out, a, &lines[i]);
        push_str(out, "\n");
        proof {
            assert(out@ =~= before + ls[i as int]);
            lemma_concat_push(ls, i as int);
        }
        i = i + 1;
    }
    proof {
        assert(ls.take(lines@.len() as int) =~= ls);
    }
}

/// Appends a code listing.
fn push_code_list(out: &mut Vec<char>, a: bool, lines: &Vec<DbgInstrLine>)
    requires
        forall|i: int| 0 <= i < lines@.len() ==> #[trigger] asm_ok(lines@[i].decoded),
    ensures
        final(out)@ == old(out)@ + concat(Seq::new(lines@.len(), |i: int| code_line(a, lines@[i]))),
{
    let ghost ls = Seq::new(lines@.len(), |i: int| code_line(a, lines@[i]));
    let mut i: usize = 0;
    while i < lines.len()
        invariant
            i <= lines@.len(),
            forall|i: int| 0 <= i < lines@.len() ==> #[trigger] asm_ok(lines@[i].decoded),
            ls == Seq::new(lines@.len(), |i: int| code_line(a, lines@[i])),
            out@ == old(out)@ + concat(ls.take(i as int)),
        decreases lines@.len() - i,
    {
        push_code_line(out, a, &lines[i]);
        proof {
            lemma_concat_push(ls, i as int);
        }
        i = i + 1;
    }
    proof {
        assert(ls.take(lines@.len() as int) =~= ls);
    }
}

/// Appends a breakpoint listing.
fn push_breakpoints(out: &mut Vec<char>, a: bool, bps: &Vec<Breakpoint>)
    ensures
        final(out)@ == old(out)@ + concat(Seq::new(bps@.len(), |i: int| bp_line(a, bps@[i]))),
{
    let ghost ls = Seq::new(bps@.len(), |i: int| bp_line(a, bps@[i]));
    let mut i: usize = 0;
    while i < bps.len()
        invariant
            i <= bps@.len(),
            ls == Seq::new(bps@.len(), |i: int| bp_line(a, bps@[i])),
            out@ == old(out)@ + concat(ls.take(i as int)),
        decreases bps@.len() - i,
    {
        let ghost before = out@;
        let bp = bps[i];
        push_idx(out, a, bp.id as u64);
        push_str(out, ": ");
        push_address(out, a, bp.addr);
        push_str(out, "\n");
        proof {
            assert(out@ =~= before + ls[i as int]);
            lemma_concat_push(ls, i as int);
        }
        i = i + 1;
    }
    proof {
        assert(ls.take(bps@.len() as int) =~= ls);
    }
}

/// Appends a symbol listing.
fn push_symbols(out: &mut Vec<char>, a: bool, syms: &Vec<(String, u64)>)
    ensures
        final(out)@ == old(out)@ + concat(Seq::new(syms@.len(), |i: int| sym_line(a, syms@[i].0@, syms@[i].1))),
{
    let ghost ls = Seq::new(syms@.len(), |i: int| sym_line(a, syms@[i].0@, syms@[i].1));
    let mut i: usize = 0;
    while i < syms.len()
        invariant
            i <= syms@.len(),
            ls == Seq::new(syms@.len(), |i: int| sym_line(a, syms@[i].0@, syms@[i].1)),
            out@ == old(out)@ + concat(ls.take(i as int)),
        decreases syms@.len() - i,
    {
        let ghost before = out@;
        let entry = &syms[i];
        push_addr(out, a, entry.1);
        push_str(out, ": ");
        push_painted(out, a, 33, entry.0.as_str());
        push_str(out, "\n");
        proof {
            assert(out@ =~= before + ls[i as int]);
            lemma_concat_push(ls, i as int);
        }
        i = i + 1;
    }
    proof {
        assert(ls.take(syms@.len() as int) =~= ls);
    }
}

/// Appends a function trace entry, as `trace_spec` says.
fn push_trace(out: &mut Vec<char>, a: bool, t: &FuncTrace)
    ensures
        final(out)@ == old(out)@ + trace_spec(a, *t),
{
    let (name, addr) = match t {
        FuncTrace::Call { name, addr } => {
            push_str(out, "Call   -> [");
            (name, *addr)
        },
        FuncTrace::Return { name, addr } => {
            push_str(out, "Return <- [");
            (name, *addr)
        },
    };
    match name {
        Some(n) => push_painted(out, a, 33, n.as_str()),
        None => push_painted(out, a, 33, "???"),
    }
    push_str(out, "@");
    push_addr(out, a, addr);
    push_str(out, "]\n");
    proof {
        assert(final(out)@ =~= old(out)@ + trace_spec(a, *t));
    }
}

/// Appends a function trace.
fn push_traces(out: &mut Vec<char>, a: bool, traces: &Vec<FuncTrace>)
    ensures
        final(out)@ == old(out)@ + concat(Seq::new(traces@.len(), |i: int| trace_spec(a, traces@[i]))),
{
    let ghost ls = Seq::new(traces@.len(), |i: int| trace_spec(a, traces@[i]));
    let mut i: usize = 0;
    while i < traces.len()
        invariant
            i <= traces@.len(),
            ls == Seq::new(traces@.len(), |i: int| trace_spec(a, traces@[i])),
            out@ == old(out)@ + concat(ls.take(i as int)),
        decreases traces@.len() - i,
    {
        let ghost before = out@;
        push_trace(out, a, &traces[i]);
        proof {
            lemma_concat_push(ls, i as int);
        }
        i = i + 1;
    }
    proof {
        assert(ls.take(traces@.len() as int) =~= ls);
    }
}

/// Appends a breakpoint change, as `bp_change` says.
fn push_bp_change(out: &mut Vec<char>, a: bool, ok: bool, addr: Address, symbol: &Option<String>, what: &str, fail: &str)
    ensures
        final(out)@ == old(out)@ + bp_change(a, ok, addr, *symbol, what@, fail@),
{
    if ok {
        push_str(out, what);
        match symbol {
            Some(s) => {
                push_str(out, s.as_str());
                push_str(out, " <");
                push_address(out, a, addr);
                push_str(out, ">\n");
            },
            None => {
                push_address(out, a, addr);
                push_str(out, "\n");
            },
        }
    } else {
        push_str(out, fail);
        push_address(out, a, addr);
        push_str(out, "\n");
    }
    proof {
        assert(final(out)@ =~= old(out)@ + bp_change(a, ok, addr, *symbol, what@, fail@));
    }
}

/// Each output of a sequence whose outputs can be rendered can be rendered.
proof fn lemma_outputs_ok(s: Seq<CommandOutput>, i: int)
    requires
        outputs_ok(s),
        0 <= i < s.len(),
    ensures
        output_ok(s[i]),
    decreases s.len(),
{
    if i < s.len() - 1 {
        lemma_outputs_ok(s.subrange(0, s.len() - 1), i);
    }
}

/// The text of one more output joined to the texts before it.
proof fn lemma_render_all_push(a: bool, s: Seq<CommandOutput>, i: int)
    requires
        0 <= i < s.len(),
    ensures
        render_all(a, s.take(i + 1)) == render_all(a, s.take(i)) + render_spec(a, s[i]),
{
    assert(s.take(i + 1).subrange(0, i) =~= s.take(i));
}

/// Appends the first line after a run, as `continue_head` says.
fn push_continue_head(out: &mut Vec<char>, a: bool, instr: &DbgInstrLine, event: DebugEvent, steps: u64)
    requires
        asm_ok(instr.decoded),
    ensures
        final(out)@ == old(out)@ + continue_head(a, *instr, event, steps),
{
    match event {
        DebugEvent::StepCompleted => {
            push_str(out, "Completed, next: ");
            push_line(out, a, instr);
            push_str(out, "\n");
        },
        DebugEvent::BreakpointHit => {
            push_str(out, "Breakpoint hit after ");
            push_dec(out, steps);
            push_str(out, " steps: ");
            push_line(out, a, instr);
            push_str(out, "\n");
        },
        DebugEvent::BoardHalted => {
            if steps == 0 {
                push_str(out, "Board already halted\n");
            } else {
                push_str(out, "Board halted after ");
                push_dec(out, steps);
                push_str(out, " steps: ");
                push_line(out, a, instr);
                push_str(out, "\n");
            }
        },
    }
    proof {
        assert(final(out)@ =~= old(out)@ + continue_head(a, *instr, event, steps));
    }
}

/// Appends the text after a run: its first line, then the outputs of the
/// commands that are watched.
fn push_continue_done(
    out: &mut Vec<char>,
    a: bool,
    instr: &DbgInstrLine,
    watch_results: &Vec<CommandOutput>,
    event: DebugEvent,
    steps: u64,
)
    requires
        asm_ok(instr.decoded),
        outputs_ok(watch_results@),
    ensures
        final(out)@ == old(out)@ + continue_head(a, *instr, event, steps) + render_all(a, watch_results@),
    decreases watch_results,
{
    push_continue_head(out, a, instr, event, steps);
    let ghost head = out@;
    let ghost w = watch_results@;
    let mut k: usize = 0;
    while k < watch_results.len()
        invariant
            k <= w.len(),
            w == watch_results@,
            outputs_ok(w),
            out@ == head + render_all(a, w.take(k as int)),
        decreases w.len() - k,
    {
        proof {
            lemma_outputs_ok(w, k as int);
            lemma_render_all_push(a, w, k as int);
            assert(decreases_to!(*watch_results => watch_results@));
            assert(decreases_to!(watch_results@ => watch_results@[k as int]));
        }
        push_output(out, a, &watch_results[k]);
        k = k + 1;
    }
    proof {
        assert(w.take(w.len() as int) =~= w);
    }
}

/// Appends the text of `output`, as `render_spec` says.
#[verifier::spinoff_prover]
#[verifier::rlimit(60)]
fn push_output(out: &mut Vec<char>, a: bool, output: &CommandOutput)
    requires
        output_ok(*output),
    ensures
        final(out)@ == old(out)@ + render_spec(a, *output),
    decreases output,
{
        match output {
            CommandOutput::FReg { .. } => {},
            CommandOutput::Empty => {},
            CommandOutput::Exit => {},
            CommandOutput::Pc(pc) => {
                push_str(out, "pc = ");
                push_addr(out, a, *pc);
                push_str(out, "\n");
            },
            CommandOutput::Reg { name, val } => {
                push_reg(out, a, name.as_str(), 3);
                push_str(out, " = ");
                push_word(out, a, 33, *val, 8);
                push_str(out, "\n");
            },
            CommandOutput::Regs(regs) => push_regs(out, a, regs),
            CommandOutput::VReg { name, val } => {
                push_reg(out, a, name.as_str(), 0);
                push_str(out, " = {\n");
                push_vreg_lines(out, a, val);
                push_str(out, "\n}\n");
            },
            CommandOutput::Csr { name, val } => match val {
                Some(v) => {
                    push_str(out, name.as_str());
                    push_str(out, " = ");
                    push_word(out, a, 33, *v, 16);
                    push_str(out, "\n");
                },
                None => push_str(out, "Illegal CSR.\n"),
            },
            CommandOutput::Mem { addr, data } => push_mem(out, a, *addr, data),
            CommandOutput::Translate { virt_addr, phys_addr } => {
                push_addr(out, a, *virt_addr);
                push_str(out, " -> ");
                push_addr(out, a, *phys_addr);
                push_str(out, "\n");
            },
            CommandOutput::History(lines) => push_history(out, a, lines),
            CommandOutput::CodeList(lines) => push_code_list(out, a, lines),
            CommandOutput::Breakpoints(bps) => push_breakpoints(out, a, bps),
            CommandOutput::Symbols(syms) => push_symbols(out, a, syms),
            CommandOutput::FTraceShow(traces) => push_traces(out, a, traces),
            CommandOutput::FTraceStatus { enabled } => {
                push_str(out, "ftrace ");
                if *enabled {
                    push_str(out, "started");
                } else {
                    push_str(out, "stopped");
                }
                push_str(out, "\n");
            },
            CommandOutput::ContinueDone { instr, watch_results, event, actual_steps } => {
                proof {
                    assert(decreases_to!(*output => *watch_results));
                }
                push_continue_done(out, a, instr, watch_results, *event, *actual_steps);
            },
            CommandOutput::BreakpointSet { ok, addr, symbol } => push_bp_change(
                out,
                a,
                *ok,
                *addr,
                symbol,
                "Breakpoint set at ",
                "Breakpoint already exists at ",
            ),
            CommandOutput::BreakpointCleared { ok, addr, symbol } => push_bp_change(
                out,
                a,
                *ok,
                *addr,
                symbol,
                "Breakpoint removed at ",
                "Breakpoint not found at ",
            ),
        }
        proof {
            assert(out@ =~= old(out)@ + render_spec(a, *output));
        }
}

/// Renders debugger output, plain or with ANSI colours.
pub struct Printer {
    ansi: bool,
}

impl Printer {
    /// Whether the printer paints with ANSI colours.
    pub closed spec fn ansi(&self) -> bool {
        self.ansi
    }

    /// A printer without colours.
    pub fn plain() -> (r: Self)
        ensures
            !r.ansi(),
    {
        Printer { ansi: false }
    }

    /// A printer with ANSI colours.
    pub fn ansi_color() -> (r: Self)
        ensures
            r.ansi(),
    {
        Printer { ansi: true }
    }

    /// The text of `output`, as `render_spec` says.
    pub fn render(&self, output: &CommandOutput) -> (r: String)
        requires
            output_ok(*output),
        ensures
            r@ == render_spec(self.ansi(), *output),
    {
        let mut out: Vec<char> = Vec::new();
        push_output(&mut out, self.ansi, output);
        proof {
            assert(out@ =~= render_spec(self.ansi, *output));
        }
        chars_to_string(&out)
    }
}

} // verus!
