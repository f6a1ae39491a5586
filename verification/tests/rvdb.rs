use riscv_emu::address::parse_number;
use riscv_emu::isa::riscv32::executor::RV32CPU;
use riscv_emu::isa::riscv32::instruction::{RVInstrInfo, RiscvInstr};
use riscv_emu::ram::{Ram, BASE_ADDR, RAM_SIZE};
use riscv_emu::rvdb::output::{
    parse_common_reg, reg_name, Address, Breakpoint, CommandOutput, DbgInstrLine, DebugEvent, FuncTrace, RawInstr,
};
use riscv_emu::rvdb::print::{handle_print, PrintCmd};
use riscv_emu::rvdb::printer::{format_asm, Printer};
use riscv_emu::rvdb::text::hex_padded;

#[test]
fn test_parse_reg_riscv64() {
    assert_eq!(parse_common_reg("x0"), Ok(0));
    assert_eq!(parse_common_reg("a5"), Ok(15));
    assert_eq!(parse_common_reg("x31"), Ok(31));
    assert!(matches!(parse_common_reg("x32"), Err(_)));

    assert!(reg_name(parse_common_reg("s0").unwrap()) == "s0/fp");
    assert!(reg_name(parse_common_reg("fp").unwrap()) == "s0/fp");
}

#[test]
fn register_names_parse_with_spaces_and_errors_name_the_input() {
    assert_eq!(parse_common_reg("  sp "), Ok(2));
    assert_eq!(parse_common_reg("zero"), Ok(0));
    assert_eq!(parse_common_reg("t6"), Ok(31));
    assert_eq!(parse_common_reg("q7"), Err("invalid register: q7".to_string()));
}

#[test]
fn hex_padding_fills_with_zeros_and_never_cuts() {
    assert_eq!(hex_padded(0xab, 4), "00ab");
    assert_eq!(hex_padded(0, 0), "0");
    assert_eq!(hex_padded(0x12345, 2), "12345");
    assert_eq!(hex_padded(u64::MAX, 16), "ffffffffffffffff");
}

#[test]
fn numbers_parse_in_decimal_and_hex() {
    assert_eq!(parse_number(" 0x10 "), Ok(16));
    assert_eq!(parse_number("42"), Ok(42));
    assert!(parse_number("").is_err());
    assert!(parse_number("0xzz").is_err());
}

#[test]
fn assembly_shows_mnemonic_and_operands() {
    let d = Some((RiscvInstr::ADDI, RVInstrInfo::I { rs1: 2, rd: 10, imm: 16 }));
    assert_eq!(format_asm(false, d), "ADDI a0,sp,16");
    let r = Some((RiscvInstr::ADD, RVInstrInfo::R { rs1: 8, rs2: 1, rd: 5 }));
    assert_eq!(format_asm(false, r), "ADD t0,s0/fp,ra");
    // branch offsets are shown halved, upper immediates shifted right by twelve
    let b = Some((RiscvInstr::BNE, RVInstrInfo::B { rs1: 10, rs2: 0, imm: 8 }));
    assert_eq!(format_asm(false, b), "BNE a0,zero,4");
    let u = Some((RiscvInstr::LUI, RVInstrInfo::U { rd: 1, imm: 0x5000 }));
    assert_eq!(format_asm(false, u), "LUI ra,5");
    assert_eq!(format_asm(false, None), "<invalid instruction>");
}

#[test]
fn assembly_in_colour_paints_each_part() {
    let d = Some((RiscvInstr::ADDI, RVInstrInfo::I { rs1: 2, rd: 10, imm: 16 }));
    assert_eq!(
        format_asm(true, d),
        "\x1b[32mADDI\x1b[0m \x1b[35ma0\x1b[0m,\x1b[35msp\x1b[0m,\x1b[33m16\x1b[0m"
    );
    assert_eq!(format_asm(true, None), "\x1b[31m<invalid instruction>\x1b[0m");
}

#[test]
fn render_pc_and_register() {
    let p = Printer::plain();
    assert_eq!(p.render(&CommandOutput::Pc(0x8000_0000)), "pc = 0x80000000\n");
    assert_eq!(
        p.render(&CommandOutput::Reg { name: "sp".to_string(), val: 0x10 }),
        "sp  = 0x00000010\n"
    );
    let c = Printer::ansi_color();
    assert_eq!(c.render(&CommandOutput::Pc(0x1234)), "pc = \x1b[34m0x00001234\x1b[0m\n");
    assert_eq!(p.render(&CommandOutput::Empty), "");
    assert_eq!(p.render(&CommandOutput::Exit), "");
}

#[test]
fn render_register_listing() {
    let p = Printer::plain();
    let out = CommandOutput::Regs(vec![("zero", 0), ("ra", 0x8000_0004)]);
    assert_eq!(p.render(&out), "x0   zero  = 0x00000000\nx1   ra    = 0x80000004\n");
}

#[test]
fn render_memory_dump_breaks_lines_after_sixteen_bytes() {
    let p = Printer::plain();
    let mut data: Vec<Option<u8>> = (0u8..17).map(Some).collect();
    data[1] = None;
    let out = CommandOutput::Mem { addr: Address::Phys(0x8000_0000), data };
    assert_eq!(
        p.render(&out),
        "paddr(0x80000000): 00 ?? 02 03 04 05 06 07 08 09 0a 0b 0c 0d 0e 0f \n\
         paddr(0x80000010): 10 \n"
    );
    let exact = CommandOutput::Mem { addr: Address::Virt(0x10), data: vec![Some(0xab)] };
    assert_eq!(p.render(&exact), "vaddr(0x00000010): ab \n");
    let empty = CommandOutput::Mem { addr: Address::Phys(0), data: vec![] };
    assert_eq!(p.render(&empty), "");
}

#[test]
fn render_code_listing_marks_the_current_instruction() {
    let p = Printer::plain();
    let lines = vec![
        DbgInstrLine {
            addr: 0x8000_0000,
            raw: Some(RawInstr { val: 0x0010_0513, len: 4 }),
            decoded: Some((RiscvInstr::ADDI, RVInstrInfo::I { rs1: 0, rd: 10, imm: 1 })),
            symbol: Some("_start".to_string()),
            is_current_pc: true,
        },
        DbgInstrLine { addr: 0x8000_0004, raw: None, decoded: None, symbol: None, is_current_pc: false },
    ];
    assert_eq!(
        p.render(&CommandOutput::CodeList(lines)),
        "> 0x80000000: 0x00100513 ADDI a0,zero,1 _start\n  0x80000004: <invalid> <invalid instruction>\n"
    );
}

#[test]
fn render_history_breakpoints_symbols_and_traces() {
    let p = Printer::plain();
    let line = DbgInstrLine {
        addr: 0x8000_0000,
        raw: Some(RawInstr { val: 0x4505, len: 2 }),
        decoded: None,
        symbol: None,
        is_current_pc: false,
    };
    assert_eq!(
        p.render(&CommandOutput::History(vec![line])),
        "  [ 0] 0x80000000: <invalid instruction>\n"
    );
    let bps = vec![Breakpoint { id: 3, addr: Address::Phys(0x8000_1000) }];
    assert_eq!(p.render(&CommandOutput::Breakpoints(bps)), " 3: paddr(0x80001000)\n");
    let syms = vec![("main".to_string(), 0x8000_0010)];
    assert_eq!(p.render(&CommandOutput::Symbols(syms)), "0x80000010: main\n");
    let traces = vec![
        FuncTrace::Call { name: Some("f".to_string()), addr: 0x10 },
        FuncTrace::Return { name: None, addr: 0x20 },
    ];
    assert_eq!(
        p.render(&CommandOutput::FTraceShow(traces)),
        "Call   -> [f@0x00000010]\nReturn <- [???@0x00000020]\n"
    );
    assert_eq!(p.render(&CommandOutput::FTraceStatus { enabled: true }), "ftrace started\n");
    assert_eq!(
        p.render(&CommandOutput::Translate { virt_addr: 0x1000, phys_addr: 0x8000_1000 }),
        "0x00001000 -> 0x80001000\n"
    );
}

#[test]
fn render_breakpoint_changes() {
    let p = Printer::plain();
    let set = CommandOutput::BreakpointSet { ok: true, addr: Address::Phys(0x8000_1000), symbol: None };
    assert_eq!(p.render(&set), "Breakpoint set at paddr(0x80001000)\n");
    let named = CommandOutput::BreakpointSet {
        ok: true,
        addr: Address::Phys(0x8000_1000),
        symbol: Some("main".to_string()),
    };
    assert_eq!(p.render(&named), "Breakpoint set at main <paddr(0x80001000)>\n");
    let again = CommandOutput::BreakpointSet { ok: false, addr: Address::Virt(0x10), symbol: None };
    assert_eq!(p.render(&again), "Breakpoint already exists at vaddr(0x00000010)\n");
    let missing = CommandOutput::BreakpointCleared { ok: false, addr: Address::Phys(0x20), symbol: None };
    assert_eq!(p.render(&missing), "Breakpoint not found at paddr(0x00000020)\n");
    let removed = CommandOutput::BreakpointCleared { ok: true, addr: Address::Phys(0x20), symbol: None };
    assert_eq!(p.render(&removed), "Breakpoint removed at paddr(0x00000020)\n");
}

#[test]
fn render_csr_and_vector_register() {
    let p = Printer::plain();
    assert_eq!(
        p.render(&CommandOutput::Csr { name: "mstatus".to_string(), val: Some(0x1800) }),
        "mstatus = 0x0000000000001800\n"
    );
    assert_eq!(p.render(&CommandOutput::Csr { name: "x".to_string(), val: None }), "Illegal CSR.\n");
    let v = CommandOutput::VReg { name: "v1".to_string(), val: vec![("e8".to_string(), vec![1, 2])] };
    assert_eq!(p.render(&v), "v1 = {\n\te8 = [1, 2], \n\n}\n");
}

#[test]
fn render_after_a_run_includes_watched_outputs() {
    let p = Printer::plain();
    let instr = DbgInstrLine { addr: 0x8000_0008, raw: None, decoded: None, symbol: None, is_current_pc: true };
    let out = CommandOutput::ContinueDone {
        instr,
        watch_results: vec![CommandOutput::Pc(0x8000_0008)],
        event: DebugEvent::BreakpointHit,
        actual_steps: 12,
    };
    assert_eq!(
        p.render(&out),
        "Breakpoint hit after 12 steps: 0x80000008: <invalid instruction>\npc = 0x80000008\n"
    );
    let halted = CommandOutput::ContinueDone {
        instr: DbgInstrLine { addr: 0, raw: None, decoded: None, symbol: None, is_current_pc: false },
        watch_results: vec![],
        event: DebugEvent::BoardHalted,
        actual_steps: 0,
    };
    assert_eq!(p.render(&halted), "Board already halted\n");
}

#[test]
fn print_pc_and_registers() {
    let mut cpu = RV32CPU::new();
    cpu.write_reg(10, 0x1234);
    cpu.set_pc(BASE_ADDR + 8);
    assert_eq!(handle_print(&cpu, PrintCmd::Pc), Ok(CommandOutput::Pc(BASE_ADDR + 8)));
    assert_eq!(
        handle_print(&cpu, PrintCmd::Reg { reg: "a0".to_string() }),
        Ok(CommandOutput::Reg { name: "a0".to_string(), val: 0x1234 })
    );
    assert_eq!(
        handle_print(&cpu, PrintCmd::Reg { reg: "bogus".to_string() }),
        Err("invalid register: bogus".to_string())
    );
}

#[test]
fn print_registers_stops_at_the_last_one() {
    let mut cpu = RV32CPU::new();
    cpu.write_reg(31, 7);
    match handle_print(&cpu, PrintCmd::Regs { start: 30, len: 5 }) {
        Ok(CommandOutput::Regs(v)) => assert_eq!(v, vec![("t5", 0), ("t6", 7)]),
        other => panic!("unexpected {:?}", other),
    }
    match handle_print(&cpu, PrintCmd::Regs { start: 40, len: 2 }) {
        Ok(CommandOutput::Regs(v)) => assert!(v.is_empty()),
        other => panic!("unexpected {:?}", other),
    }
}

#[test]
fn print_memory_marks_bytes_outside_ram() {
    let mut ram = Ram::new();
    ram.write_byte(0x5a, RAM_SIZE as u64 - 1);
    let cpu = RV32CPU::from_memory(ram);
    let addr = format!("{:#x}", BASE_ADDR + RAM_SIZE as u64 - 1);
    assert_eq!(
        handle_print(&cpu, PrintCmd::Mem { addr, len: 2, virt: false }),
        Ok(CommandOutput::Mem {
            addr: Address::Phys(BASE_ADDR + RAM_SIZE as u64 - 1),
            data: vec![Some(0x5a), None],
        })
    );
    assert_eq!(
        handle_print(&cpu, PrintCmd::Mem { addr: "0x10".to_string(), len: 1, virt: true }),
        Ok(CommandOutput::Mem { addr: Address::Virt(0x10), data: vec![None] })
    );
    assert_eq!(
        handle_print(&cpu, PrintCmd::Mem { addr: "zz".to_string(), len: 1, virt: false }),
        Err("invalid digit found in string".to_string())
    );
    assert_eq!(
        handle_print(&cpu, PrintCmd::Mem { addr: "".to_string(), len: 1, virt: false }),
        Err("cannot parse integer from empty string".to_string())
    );
}
