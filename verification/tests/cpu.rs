use riscv_emu::isa::riscv32::decoder::Decoder;
use riscv_emu::isa::riscv32::executor::{RunStop, RV32CPU};
use riscv_emu::isa::riscv32::instruction::{Exception, InstrFormat, RV32Desc, RVInstrInfo, RiscvInstr};
use riscv_emu::ram::{Ram, BASE_ADDR};
use riscv_emu::utils::{negative_of, sign_extend, TruncateToBits};

fn get_instr_r(opcode: u8, funct3: u8, funct7: u8, rd: u8, rs1: u8, rs2: u8) -> u32 {
    (funct7 as u32) << 25 | (rs2 as u32) << 20 | (rs1 as u32) << 15 | (funct3 as u32) << 12 | (rd as u32) << 7 | opcode as u32
}

fn get_instr_i(opcode: u8, funct3: u8, rd: u8, rs1: u8, imm: u32) -> u32 {
    (imm & 0xfff) << 20 | (rs1 as u32) << 15 | (funct3 as u32) << 12 | (rd as u32) << 7 | opcode as u32
}

fn get_instr_s(opcode: u8, funct3: u8, rs1: u8, rs2: u8, imm: u32) -> u32 {
    ((imm >> 5) & 0x7f) << 25 | (rs2 as u32) << 20 | (rs1 as u32) << 15 | (funct3 as u32) << 12 | (imm & 0x1f) << 7
        | opcode as u32
}

fn get_instr_b(opcode: u8, funct3: u8, rs1: u8, rs2: u8, imm: u32) -> u32 {
    ((imm >> 12) & 1) << 31 | ((imm >> 5) & 0x3f) << 25 | (rs2 as u32) << 20 | (rs1 as u32) << 15
        | (funct3 as u32) << 12 | ((imm >> 1) & 0xf) << 8 | ((imm >> 11) & 1) << 7 | opcode as u32
}

fn get_instr_u(opcode: u8, rd: u8, imm: u32) -> u32 {
    (imm & 0xffff_f000) | (rd as u32) << 7 | opcode as u32
}

fn get_instr_j(opcode: u8, rd: u8, imm: u32) -> u32 {
    ((imm >> 20) & 1) << 31 | ((imm >> 1) & 0x3ff) << 21 | ((imm >> 11) & 1) << 20 | ((imm >> 12) & 0xff) << 12
        | (rd as u32) << 7 | opcode as u32
}

fn check(decoder: &Decoder, instr: u32, expected: RiscvInstr, expected_info: RVInstrInfo) {
    let result = decoder.decode(instr).unwrap();
    assert_eq!(result, (expected, expected_info));
}

/// Deterministic stand-ins for random fields: they walk through the whole
/// range of each field.
fn field(i: u32, modulus: u32) -> u32 {
    (i.wrapping_mul(2654435761) >> 7) % modulus
}

#[test]
fn test_decoder() {
    let decoder = Decoder::new();
    for i in 1..=1000u32 {
        let rd = field(i, 32) as u8;
        let rs1 = field(i + 7, 32) as u8;
        let rs2 = field(i + 13, 32) as u8;

        for (instr, f3, f7) in [(RiscvInstr::ADD, 0b000, 0b0000000), (RiscvInstr::SUB, 0b000, 0b0100000)] {
            check(&decoder, get_instr_r(0b0110011, f3, f7, rd, rs1, rs2), instr, RVInstrInfo::R { rs1, rs2, rd });
        }
        let imm = field(i + 3, 0x1000);
        for (instr, f3) in [(RiscvInstr::ADDI, 0b000), (RiscvInstr::ORI, 0b110)] {
            check(&decoder, get_instr_i(0b0010011, f3, rd, rs1, imm), instr, RVInstrInfo::I { rs1, rd, imm: imm as u64 });
        }
        let imm = field(i + 5, 0x800);
        for (instr, f3) in [(RiscvInstr::SB, 0b000), (RiscvInstr::SW, 0b010)] {
            check(&decoder, get_instr_s(0b0100011, f3, rs1, rs2, imm), instr, RVInstrInfo::S { rs1, rs2, imm: imm as u64 });
        }
        let imm = field(i + 11, 0x1000) << 1;
        check(&decoder, get_instr_b(0b1100011, 0b001, rs1, rs2, imm), RiscvInstr::BNE, RVInstrInfo::B { rs1, rs2, imm: imm as u64 });
        let imm = field(i + 17, 0x100000) << 12;
        check(&decoder, get_instr_u(0b0110111, rd, imm), RiscvInstr::LUI, RVInstrInfo::U { rd, imm: imm as u64 });
        let imm = field(i + 19, 0x100000) << 1;
        check(&decoder, get_instr_j(0b1101111, rd, imm), RiscvInstr::JAL, RVInstrInfo::J { rd, imm: imm as u64 });
    }
}

#[test]
fn test_decoder_instr() {
    let decoder = Decoder::new();
    check(&decoder, 0x123450b7, RiscvInstr::LUI, RVInstrInfo::U { rd: 1, imm: 0x12345000 });
    check(&decoder, 0x12233097, RiscvInstr::AUIPC, RVInstrInfo::U { rd: 1, imm: 0x12233000 });
    check(
        &decoder,
        0xffb18113,
        RiscvInstr::ADDI,
        RVInstrInfo::I { rs1: 3, rd: 2, imm: negative_of(5).truncate_to_bits(12) },
    );
    check(&decoder, 0x00210083, RiscvInstr::LB, RVInstrInfo::I { rs1: 2, rd: 1, imm: 2 });
    check(
        &decoder,
        0xf8c318e3,
        RiscvInstr::BNE,
        RVInstrInfo::B { rs1: 6, rs2: 12, imm: negative_of(112).truncate_to_bits(13) },
    );
}

#[test]
fn decoder_rejects_unknown_encoding() {
    let decoder = Decoder::new();
    assert_eq!(decoder.decode(0xffff_ffff), Err(Exception::InvalidInstruction));
    assert_eq!(decoder.decode(0), Err(Exception::InvalidInstruction));
}

fn cpu_at(pc: u64) -> RV32CPU {
    let mut cpu = RV32CPU::new();
    cpu.set_pc(pc);
    cpu
}

#[test]
fn test_exec_arith() {
    let mut cpu = cpu_at(0x2000);
    cpu.write_reg(3, 10);
    cpu.execute(RiscvInstr::ADDI, RVInstrInfo::I { rd: 2, rs1: 3, imm: negative_of(5) & 0xfff }).unwrap();
    assert_eq!(cpu.read_reg(2), 5);
    assert_eq!(cpu.pc(), 0x2004);

    let values = [0u64, 1, 5, 0x7fff_ffff, 0x8000_0000, 0xffff_ffff, 0x1234_5678_9abc_def0, u64::MAX];
    for (k, &lhs) in values.iter().enumerate() {
        for &rhs in values.iter() {
            let mut cpu = cpu_at(0x1000);
            cpu.write_reg(1, lhs);
            cpu.write_reg(2, rhs);
            cpu.execute(RiscvInstr::ADD, RVInstrInfo::R { rd: 3, rs1: 1, rs2: 2 }).unwrap();
            assert_eq!(cpu.read_reg(3), lhs.wrapping_add(rhs));
            cpu.execute(RiscvInstr::SUB, RVInstrInfo::R { rd: 4, rs1: 1, rs2: 2 }).unwrap();
            assert_eq!(cpu.read_reg(4), lhs.wrapping_sub(rhs));
            assert_eq!(cpu.pc(), 0x1008);
        }
        let imm = (k as u64 * 0x2b7) & 0xfff;
        let mut cpu = cpu_at(0x1000);
        cpu.write_reg(1, lhs);
        cpu.execute(RiscvInstr::ADDI, RVInstrInfo::I { rd: 3, rs1: 1, imm }).unwrap();
        assert_eq!(cpu.read_reg(3), lhs.wrapping_add(sign_extend(imm, 12)));
        cpu.execute(RiscvInstr::SLTI, RVInstrInfo::I { rd: 4, rs1: 1, imm }).unwrap();
        assert_eq!(cpu.read_reg(4), ((lhs as i64) < (sign_extend(imm, 12) as i64)) as u64);
        cpu.execute(RiscvInstr::SLTIU, RVInstrInfo::I { rd: 5, rs1: 1, imm }).unwrap();
        assert_eq!(cpu.read_reg(5), (lhs < sign_extend(imm, 12)) as u64);
    }
}

fn run_decoded(cpu: &mut RV32CPU, word: u32) {
    let decoder = Decoder::new();
    let (instr, info) = decoder.decode(word).unwrap();
    cpu.execute(instr, info).unwrap();
}

#[test]
fn test_exec_arith_decode() {
    let mut cpu = cpu_at(0x1000);
    cpu.write_reg(4, 5);
    cpu.write_reg(5, 10);
    run_decoded(&mut cpu, 0x02520333); // mul x6, x4, x5
    assert_eq!(cpu.read_reg(6), 50);
    assert_eq!(cpu.pc(), 0x1004);
}

#[test]
fn test_load_store_decode() {
    let mut ram = Ram::new();
    ram.write_dword(123, 8);
    let mut cpu = RV32CPU::from_memory(ram);
    cpu.set_pc(0x1000);
    cpu.write_reg(2, BASE_ADDR);
    run_decoded(&mut cpu, 0x00812183); // lw x3, 8(x2)
    assert_eq!(cpu.read_reg(3), 123);
    assert_eq!(cpu.pc(), 0x1004);

    let mut ram = Ram::new();
    ram.write_dword(123, 16);
    let mut cpu = RV32CPU::from_memory(ram);
    cpu.set_pc(0x1000);
    cpu.write_reg(8, BASE_ADDR + 36);
    run_decoded(&mut cpu, 0xfec42783); // lw a5, -20(s0)
    assert_eq!(cpu.read_reg(15), 123);
    assert_eq!(cpu.pc(), 0x1004);

    let mut cpu = RV32CPU::new();
    cpu.write_reg(2, BASE_ADDR + 16);
    cpu.write_reg(1, 123);
    run_decoded(&mut cpu, 0xfe112c23); // sw x1, -8(x2)
    let ram = cpu.memory().as_bytes();
    assert_eq!(&ram[8..12], &123u32.to_le_bytes());

    let mut cpu = RV32CPU::new();
    cpu.write_reg(15, 123);
    cpu.write_reg(8, BASE_ADDR + 72);
    run_decoded(&mut cpu, 0xfcf42e23); // sw a5, -36(s0)
    let ram = cpu.memory().as_bytes();
    assert_eq!(&ram[36..40], &123u32.to_le_bytes());
}

#[test]
fn test_u_types_decode() {
    let mut cpu = cpu_at(0x1000);
    cpu.write_reg(1, 3);
    run_decoded(&mut cpu, 0x12233097); // auipc x1, 0x12233
    assert_eq!(cpu.read_reg(1), 0x12234000);
    assert_eq!(cpu.pc(), 0x1004);

    let mut cpu = cpu_at(0x1000);
    cpu.write_reg(3, 0x54321);
    run_decoded(&mut cpu, 0x123451b7); // lui x3, 0x12345
    assert_eq!(cpu.read_reg(3), 0x12345000);
    assert_eq!(cpu.pc(), 0x1004);
}

#[test]
fn test_branch_decode() {
    let mut cpu = cpu_at(0x2000);
    cpu.write_reg(6, 5);
    cpu.write_reg(12, 10);
    run_decoded(&mut cpu, 0xf8c318e3); // bne x6, x12, -112
    assert_eq!(cpu.pc(), 0x2000 - 112);

    let mut cpu = cpu_at(0x2000);
    cpu.write_reg(6, 5);
    cpu.write_reg(12, 5);
    run_decoded(&mut cpu, 0xf8c318e3);
    assert_eq!(cpu.pc(), 0x2004);
}

#[test]
fn test_jump_decode() {
    let mut cpu = cpu_at(0x1234);
    run_decoded(&mut cpu, 0xf81ff06f); // jal x0, -128
    assert_eq!(cpu.pc(), 0x1234 - 128);

    let mut cpu = cpu_at(0x1234);
    cpu.write_reg(15, 0x2468);
    run_decoded(&mut cpu, 0x00078067); // jr a5
    assert_eq!(cpu.pc(), 0x2468);
}

#[test]
fn step_runs_the_word_at_the_program_counter() {
    let mut ram = Ram::new();
    ram.write_dword(0x00500093, 0); // addi x1, x0, 5
    ram.write_dword(0x00108113, 4); // addi x2, x1, 1
    let mut cpu = RV32CPU::from_memory(ram);
    assert_eq!(cpu.pc(), BASE_ADDR);
    cpu.step().unwrap();
    cpu.step().unwrap();
    assert_eq!(cpu.read_reg(1), 5);
    assert_eq!(cpu.read_reg(2), 6);
    assert_eq!(cpu.pc(), BASE_ADDR + 8);
    assert_eq!(cpu.step(), Err(Exception::InvalidInstruction));
    assert_eq!(cpu.pc(), BASE_ADDR + 8);
}

#[test]
fn register_zero_stays_zero() {
    let mut cpu = RV32CPU::new();
    cpu.write_reg(0, 77);
    assert_eq!(cpu.read_reg(0), 0);
    run_decoded(&mut cpu, 0x00500013); // addi x0, x0, 5
    assert_eq!(cpu.read_reg(0), 0);
}

#[test]
fn steps_that_cannot_run_are_recognised() {
    let mut ram = Ram::new();
    ram.write_dword(0x00500093, 0); // addi x1, x0, 5
    ram.write_dword(0x0220c1b3, 4); // div x3, x1, x2
    ram.write_dword(0x00000073, 8); // ecall
    let mut cpu = RV32CPU::from_memory(ram);
    assert!(cpu.step_allowed());
    cpu.step().unwrap();
    // x2 is zero: the division gives all ones, as RISC-V defines it.
    assert!(cpu.step_allowed());
    cpu.step().unwrap();
    assert_eq!(cpu.read_reg(3), u64::MAX);
    assert!(!cpu.step_allowed());
    assert!(!cpu.can_execute(RiscvInstr::ECALL, RVInstrInfo::I { rs1: 0, rd: 0, imm: 0 }));
    assert!(!cpu.can_execute(RiscvInstr::LW, RVInstrInfo::I { rs1: 0, rd: 1, imm: 0 }));
    cpu.write_reg(5, BASE_ADDR + 4);
    assert!(cpu.can_execute(RiscvInstr::LW, RVInstrInfo::I { rs1: 5, rd: 1, imm: 0 }));
    assert!(!cpu.can_execute(RiscvInstr::LW, RVInstrInfo::I { rs1: 5, rd: 1, imm: 2 }));
    cpu.set_pc(0x10);
    assert!(!cpu.step_allowed());
}

#[test]
fn instruction_names_are_their_mnemonics() {
    assert_eq!(RiscvInstr::ADD.name(), "ADD");
    assert_eq!(RiscvInstr::MULHSU.name(), "MULHSU");
    assert_eq!(RiscvInstr::SRAIW.name(), "SRAIW");
    assert_eq!(RiscvInstr::FENCE.name(), "FENCE");
}

#[test]
fn signed_loads_extend_from_the_loaded_width() {
    let mut ram = Ram::new();
    ram.write_byte(0x80, 0);
    ram.write_word(0x8000, 2);
    ram.write_dword(0x0000_0800, 4);
    ram.write_dword(0x8000_0000, 8);
    let mut cpu = RV32CPU::from_memory(ram);
    cpu.set_pc(0x1000);
    cpu.write_reg(2, BASE_ADDR);
    cpu.execute(RiscvInstr::LB, RVInstrInfo::I { rd: 3, rs1: 2, imm: 0 }).unwrap();
    assert_eq!(cpu.read_reg(3), u64::MAX - 0x7f);
    assert_eq!(cpu.pc(), 0x1004);
    cpu.execute(RiscvInstr::LBU, RVInstrInfo::I { rd: 3, rs1: 2, imm: 0 }).unwrap();
    assert_eq!(cpu.read_reg(3), 0x80);
    cpu.execute(RiscvInstr::LH, RVInstrInfo::I { rd: 3, rs1: 2, imm: 2 }).unwrap();
    assert_eq!(cpu.read_reg(3), u64::MAX - 0x7fff);
    cpu.execute(RiscvInstr::LW, RVInstrInfo::I { rd: 3, rs1: 2, imm: 4 }).unwrap();
    assert_eq!(cpu.read_reg(3), 0x800);
    cpu.execute(RiscvInstr::LW, RVInstrInfo::I { rd: 3, rs1: 2, imm: 8 }).unwrap();
    assert_eq!(cpu.read_reg(3), 0xffff_ffff_8000_0000);
    cpu.execute(RiscvInstr::LWU, RVInstrInfo::I { rd: 3, rs1: 2, imm: 8 }).unwrap();
    assert_eq!(cpu.read_reg(3), 0x8000_0000);
}

#[test]
fn runs_stop_at_the_limit_or_at_a_word_that_does_not_decode() {
    let mut ram = Ram::new();
    ram.write_dword(0x0050_0093, 0); // addi x1, x0, 5
    ram.write_dword(0x0010_8093, 4); // addi x1, x1, 1
    ram.write_dword(0x0010_8093, 8); // addi x1, x1, 1
    let mut cpu = RV32CPU::from_memory(ram);
    assert_eq!(cpu.run_steps(2), (2, RunStop::Limit));
    assert_eq!(cpu.read_reg(1), 6);
    assert_eq!(cpu.run_steps(10), (1, RunStop::Fault(Exception::InvalidInstruction)));
    assert_eq!(cpu.read_reg(1), 7);
    assert_eq!(cpu.pc(), BASE_ADDR + 12);
    cpu.set_pc(BASE_ADDR + 2);
    assert_eq!(cpu.run_steps(10), (0, RunStop::Blocked));
}

fn alu_result(instr: RiscvInstr, a: u64, b: u64) -> u64 {
    let mut cpu = cpu_at(0x1000);
    cpu.write_reg(1, a);
    cpu.write_reg(2, b);
    cpu.execute(instr, RVInstrInfo::R { rs1: 1, rs2: 2, rd: 3 }).unwrap();
    cpu.read_reg(3)
}

#[test]
fn high_multiplies_give_the_upper_half_of_the_product() {
    assert_eq!(alu_result(RiscvInstr::MULH, u64::MAX, 2), u64::MAX);
    assert_eq!(alu_result(RiscvInstr::MULHU, u64::MAX, 2), 1);
    assert_eq!(alu_result(RiscvInstr::MULHSU, u64::MAX, 2), u64::MAX);
    assert_eq!(alu_result(RiscvInstr::MULH, 1 << 63, 1 << 63), 0x4000_0000_0000_0000);
    assert_eq!(alu_result(RiscvInstr::MULHU, 1 << 63, 1 << 63), 0x4000_0000_0000_0000);
    assert_eq!(alu_result(RiscvInstr::MULHSU, 1 << 63, 1 << 63), 0xc000_0000_0000_0000);
}

#[test]
fn division_by_zero_and_overflow_follow_risc_v() {
    assert_eq!(alu_result(RiscvInstr::DIV, 7, 0), u64::MAX);
    assert_eq!(alu_result(RiscvInstr::DIVU, 7, 0), u64::MAX);
    assert_eq!(alu_result(RiscvInstr::REM, 7, 0), 7);
    assert_eq!(alu_result(RiscvInstr::REMU, 7, 0), 7);
    assert_eq!(alu_result(RiscvInstr::DIV, 1 << 63, u64::MAX), 1 << 63);
    assert_eq!(alu_result(RiscvInstr::REM, 1 << 63, u64::MAX), 0);
    assert_eq!(alu_result(RiscvInstr::DIV, negative_of(7), 2), negative_of(3));
    assert_eq!(alu_result(RiscvInstr::REM, negative_of(7), 2), negative_of(1));
}

#[test]
fn word_operations_work_on_the_low_half_and_sign_extend() {
    assert_eq!(alu_result(RiscvInstr::ADDW, 0x7fff_ffff, 1), 0xffff_ffff_8000_0000);
    assert_eq!(alu_result(RiscvInstr::ADDW, 0x1_0000_0001, 1), 2);
    assert_eq!(alu_result(RiscvInstr::SUBW, 0, 1), u64::MAX);
    assert_eq!(alu_result(RiscvInstr::SRAW, 0x8000_0000, 4), 0xffff_ffff_f800_0000);
    assert_eq!(alu_result(RiscvInstr::SRAW, 0x8000_0000, 36), 0xffff_ffff_f800_0000);
    assert_eq!(alu_result(RiscvInstr::SRLW, 0x8000_0000, 4), 0x0800_0000);
    assert_eq!(alu_result(RiscvInstr::SLLW, 1, 31), 0xffff_ffff_8000_0000);
    assert_eq!(alu_result(RiscvInstr::SLLW, 1, 33), 2);
    assert_eq!(alu_result(RiscvInstr::SLL, 1, 65), 2);
}

#[test]
fn decoding_a_table_with_distinct_keys_undoes_encoding() {
    let descs = vec![
        RV32Desc { opcode: 51, funct3: 0, funct7: 0, instr: RiscvInstr::ADD, format: InstrFormat::R },
        RV32Desc { opcode: 51, funct3: 0, funct7: 32, instr: RiscvInstr::SUB, format: InstrFormat::R },
        RV32Desc { opcode: 19, funct3: 5, funct7: 0, instr: RiscvInstr::SRAI, format: InstrFormat::I },
    ];
    let decoder = Decoder::from(&descs);
    check(&decoder, get_instr_r(51, 0, 32, 1, 2, 3), RiscvInstr::SUB, RVInstrInfo::R { rs1: 2, rs2: 3, rd: 1 });
    check(&decoder, get_instr_r(51, 0, 0, 31, 0, 7), RiscvInstr::ADD, RVInstrInfo::R { rs1: 0, rs2: 7, rd: 31 });
    check(&decoder, get_instr_i(19, 5, 4, 5, 0x403), RiscvInstr::SRAI, RVInstrInfo::I { rs1: 5, rd: 4, imm: 0x403 });
    assert_eq!(decoder.decode(get_instr_u(0x37, 1, 0x1000)), Err(Exception::InvalidInstruction));
}
