use riscv_emu::vector::integer::{
    CarryOp, CompareOp, IntegerOp, MaskOp, MultiplyAddOp, NarrowingShiftOp, WideningOp, WideningSign,
};
use riscv_emu::vector::mask::{read_mask_bit, write_mask_bit};
use riscv_emu::vector::maskops::{BitOp, MaskToScalarOp, MaskUnaryOp};
use riscv_emu::vector::permute::UnaryOp;
use riscv_emu::vector::regfile::VLEN_BYTE;
use riscv_emu::vector::types::{Vlmul, Vsew};
use riscv_emu::vector::unit::{Exception, Vector};

trait Elem: Copy + PartialEq + std::fmt::Debug {
    const WIDTH: usize;
    fn put(self, out: &mut Vec<u8>);
    fn take(bytes: &[u8]) -> Self;
}

impl Elem for u8 {
    const WIDTH: usize = 1;
    fn put(self, out: &mut Vec<u8>) {
        out.push(self);
    }
    fn take(bytes: &[u8]) -> Self {
        bytes[0]
    }
}

impl Elem for u16 {
    const WIDTH: usize = 2;
    fn put(self, out: &mut Vec<u8>) {
        out.extend_from_slice(&self.to_le_bytes());
    }
    fn take(bytes: &[u8]) -> Self {
        u16::from_le_bytes([bytes[0], bytes[1]])
    }
}

impl Elem for u32 {
    const WIDTH: usize = 4;
    fn put(self, out: &mut Vec<u8>) {
        out.extend_from_slice(&self.to_le_bytes());
    }
    fn take(bytes: &[u8]) -> Self {
        u32::from_le_bytes([bytes[0], bytes[1], bytes[2], bytes[3]])
    }
}

impl Elem for u64 {
    const WIDTH: usize = 8;
    fn put(self, out: &mut Vec<u8>) {
        out.extend_from_slice(&self.to_le_bytes());
    }
    fn take(bytes: &[u8]) -> Self {
        let mut b = [0u8; 8];
        b.copy_from_slice(&bytes[..8]);
        u64::from_le_bytes(b)
    }
}

/// A vector unit configured as `config(vlmul, vsew, mask_agnostic, tail_agnostic, vl)`.
fn vector_with(vlmul: Vlmul, vsew: Vsew, mask_agnostic: bool, tail_agnostic: bool, vl: u16) -> Vector {
    let mut vector = Vector::new();
    vector.set_config((vlmul, vsew, tail_agnostic, mask_agnostic, vl));
    vector
}

/// Writes `values` at the start of the group of `lmul` registers at `idx`.
fn reg<T: Elem>(vector: &mut Vector, lmul: u8, idx: u8, values: &[T]) {
    let mut bytes = Vec::new();
    for v in values {
        v.put(&mut bytes);
    }
    assert!(vector.regs.write_group(lmul, idx, &bytes));
}

/// The elements of the group of `lmul` registers at `idx`.
fn read_reg<T: Elem>(vector: &Vector, lmul: u8, idx: u8) -> Vec<T> {
    let bytes = vector.regs.read_group(lmul, idx).unwrap();
    bytes.chunks(T::WIDTH).map(T::take).collect()
}

/// Checks the whole group of `lmul` registers at `idx` against `expected`.
fn check_reg<T: Elem>(vector: &Vector, lmul: u8, idx: u8, expected: &[T]) {
    let got = read_reg::<T>(vector, lmul, idx);
    assert_eq!(got.len(), expected.len());
    for i in 0..got.len() {
        assert_eq!(got[i], expected[i], "Vector register #{idx} [{i}] incorrect");
    }
}

impl Elem for i16 {
    const WIDTH: usize = 2;
    fn put(self, out: &mut Vec<u8>) {
        out.extend_from_slice(&self.to_le_bytes());
    }
    fn take(bytes: &[u8]) -> Self {
        i16::from_le_bytes([bytes[0], bytes[1]])
    }
}

impl Elem for i32 {
    const WIDTH: usize = 4;
    fn put(self, out: &mut Vec<u8>) {
        out.extend_from_slice(&self.to_le_bytes());
    }
    fn take(bytes: &[u8]) -> Self {
        i32::from_le_bytes([bytes[0], bytes[1], bytes[2], bytes[3]])
    }
}

fn mask_from_bits<I: IntoIterator<Item = bool>>(bits: I) -> Vec<u8> {
    let mut mask = vec![0; VLEN_BYTE];
    for (index, bit) in bits.into_iter().enumerate() {
        write_mask_bit(&mut mask, index, bit);
    }
    mask
}

fn mask_bit(mask: &[u8], index: usize) -> bool {
    read_mask_bit(&mask.to_vec(), index)
}

fn signed_u32(value: u32) -> i128 {
    value as i32 as i128
}

fn signed_u8(value: u8) -> i128 {
    value as i8 as i128
}

fn signed_u64(value: u64) -> i128 {
    value as i64 as i128
}

fn signed_div_u64(lhs: u64, rhs: u64) -> u64 {
    if rhs == 0 {
        u64::MAX
    } else {
        signed_u64(lhs).wrapping_div(signed_u64(rhs)) as u64
    }
}

fn signed_rem_u64(lhs: u64, rhs: u64) -> u64 {
    if rhs == 0 {
        lhs
    } else {
        signed_u64(lhs).wrapping_rem(signed_u64(rhs)) as u64
    }
}

fn run_vv_binary_u32(op: IntegerOp, vs1: &[u32], vs2: &[u32], expected: &[u32]) {
    let mut v = vector_with(Vlmul::M1, Vsew::E32, false, false, expected.len() as u16);
    reg(&mut v, 1, 8, vs1);
    reg(&mut v, 1, 16, vs2);
    v.exec_integer_vv(op, 8, 16, 24, false).unwrap();
    check_reg(&v, 1, 24, expected);
}

fn run_vv_binary_u64(op: IntegerOp, vs1: &[u64], vs2: &[u64], expected: &[u64]) {
    let mut v = vector_with(Vlmul::M4, Vsew::E64, false, false, expected.len() as u16);
    reg(&mut v, 4, 8, vs1);
    reg(&mut v, 4, 16, vs2);
    v.exec_integer_vv(op, 8, 16, 24, false).unwrap();
    check_reg(&v, 4, 24, expected);
}

fn run_vx_binary_u32(op: IntegerOp, scalar: u64, vs2: &[u32], expected: &[u32]) {
    let mut v = vector_with(Vlmul::M1, Vsew::E32, false, false, expected.len() as u16);
    reg(&mut v, 1, 8, vs2);
    v.exec_integer_vx(op, scalar, 8, 24, false).unwrap();
    check_reg(&v, 1, 24, expected);
}

fn run_vx_binary_u64(op: IntegerOp, scalar: u64, vs2: &[u64], expected: &[u64]) {
    let mut v = vector_with(Vlmul::M4, Vsew::E64, false, false, expected.len() as u16);
    reg(&mut v, 4, 8, vs2);
    v.exec_integer_vx(op, scalar, 8, 24, false).unwrap();
    check_reg(&v, 4, 24, expected);
}

fn run_vvm_binary_u8(op: CarryOp, vs1: &[u8], vs2: &[u8], carry: &[u8], expected: &[u8]) {
    let mut v = vector_with(Vlmul::M1, Vsew::E8, false, false, expected.len() as u16);
    reg(&mut v, 1, 0, carry);
    reg(&mut v, 1, 8, vs1);
    reg(&mut v, 1, 16, vs2);
    v.exec_integer_vvm(op, 8, 16, 0, 24, false).unwrap();
    check_reg(&v, 1, 24, expected);
}

fn run_mask_vv_u8(op: MaskOp, vs1: &[u8], vs2: &[u8], expected: &[u8]) {
    let mut v = vector_with(Vlmul::M1, Vsew::E8, false, false, vs2.len() as u16);
    reg(&mut v, 1, 8, vs1);
    reg(&mut v, 1, 16, vs2);
    v.exec_integer_mask_vv(op, 8, 16, 24, false).unwrap();
    check_reg(&v, 1, 24, expected);
}

fn run_mask_vx_u8(op: MaskOp, scalar: u64, vs2: &[u8], expected: &[u8]) {
    let mut v = vector_with(Vlmul::M1, Vsew::E8, false, false, vs2.len() as u16);
    reg(&mut v, 1, 8, vs2);
    v.exec_integer_mask_vx(op, scalar, 8, 24, false).unwrap();
    check_reg(&v, 1, 24, expected);
}

fn run_mask_vvm_u8(op: MaskOp, vs1: &[u8], vs2: &[u8], carry: &[u8], expected: &[u8]) {
    let mut v = vector_with(Vlmul::M1, Vsew::E8, false, false, vs2.len() as u16);
    reg(&mut v, 1, 0, carry);
    reg(&mut v, 1, 8, vs1);
    reg(&mut v, 1, 16, vs2);
    v.exec_integer_mask_vvm(op, 8, 16, 0, 24, false).unwrap();
    check_reg(&v, 1, 24, expected);
}

fn run_widening_vv(op: WideningOp, sign: WideningSign, vs1: &[i16], vs2: &[i16], expected: &[i32]) {
    let mut v = vector_with(Vlmul::M1, Vsew::E16, false, false, expected.len() as u16);
    reg(&mut v, 1, 8, vs1);
    reg(&mut v, 1, 16, vs2);
    v.exec_widening_integer_vv(op, sign, 8, 16, 24, false).unwrap();
    check_reg(&v, 2, 24, expected);
}

fn run_widening_vx(op: WideningOp, sign: WideningSign, x1: u64, vs2: &[i16], expected: &[i32]) {
    let mut v = vector_with(Vlmul::M1, Vsew::E16, false, false, expected.len() as u16);
    reg(&mut v, 1, 16, vs2);
    v.exec_widening_integer_vx(op, sign, x1, 16, 24, false).unwrap();
    check_reg(&v, 2, 24, expected);
}

fn run_widening_wv(op: WideningOp, signed: bool, vs1: &[i16], vs2: &[i32], expected: &[i32]) {
    let mut v = vector_with(Vlmul::M1, Vsew::E16, false, false, expected.len() as u16);
    reg(&mut v, 1, 8, vs1);
    reg(&mut v, 2, 16, vs2);
    v.exec_widening_integer_wv(op, signed, 8, 16, 24, false).unwrap();
    check_reg(&v, 2, 24, expected);
}

fn run_widening_wx(op: WideningOp, signed: bool, x1: u64, vs2: &[i32], expected: &[i32]) {
    let mut v = vector_with(Vlmul::M1, Vsew::E16, false, false, expected.len() as u16);
    reg(&mut v, 2, 16, vs2);
    v.exec_widening_integer_wx(op, signed, x1, 16, 24, false).unwrap();
    check_reg(&v, 2, 24, expected);
}

fn u32_bits_to_i32(values: Vec<u32>) -> Vec<i32> {
    values.into_iter().map(|value| value as i32).collect()
}

#[test]
fn test_vector_op_move_v_uses_u64_width() {
    let source = [
        0x0102_0304_0506_0708_u64,
        0x1112_1314_1516_1718,
        0x2122_2324_2526_2728,
        0x3132_3334_3536_3738,
    ];
    let mut v = vector_with(Vlmul::M2, Vsew::E8, false, false, source.len() as u16);
    reg(&mut v, 2, 8, &source);
    v.exec_integer_v(UnaryOp::Move, 8, 24, Vsew::E64, Vsew::E64, false, 0).unwrap();
    check_reg(&v, 2, 24, &source);
}

#[test]
fn test_vector_scalar_move_uses_u64_width() {
    let value = 0xfeed_face_cafe_beef_u64;
    let expected = [value; VLEN_BYTE / 8];
    let mut v = vector_with(Vlmul::M1, Vsew::E8, false, false, expected.len() as u16);
    v.exec_integer_scalar_move(value, Vsew::E64, 24, 0).unwrap();
    check_reg(&v, 1, 24, &expected);
}

#[test]
fn test_vector_whole_register_move_copies_group() {
    let source: Vec<u64> = (0..(VLEN_BYTE * 4 / 8)).map(|i| 0x1000_0000_0000_0000_u64 + i as u64).collect();
    let mut v = vector_with(Vlmul::M1, Vsew::E8, false, false, 0);
    reg(&mut v, 4, 8, &source);
    v.exec_whole_register_move(8, 16, 4).unwrap();
    check_reg(&v, 4, 16, &source);
}

#[test]
fn test_vector_op_merge_vvm_selects_by_v0() {
    let elem_count = VLEN_BYTE / 2;
    let vl = 5;
    let vs1: Vec<u16> = (0..elem_count).map(|i| 0x1000_u16 + i as u16).collect();
    let vs2: Vec<u16> = (0..elem_count).map(|i| 0x2000_u16 + i as u16).collect();
    let old_vd: Vec<u16> = (0..elem_count).map(|i| 0x9000_u16 + i as u16).collect();
    let merge_mask = mask_from_bits([true, false, true, false, true, false, true, false]);
    let mut expected = old_vd.clone();
    for index in 0..vl {
        expected[index] = if mask_bit(&merge_mask, index) { vs1[index] } else { vs2[index] };
    }
    let mut v = vector_with(Vlmul::M1, Vsew::E16, false, false, vl as u16);
    reg(&mut v, 1, 0, &merge_mask);
    reg(&mut v, 1, 8, &vs1);
    reg(&mut v, 1, 16, &vs2);
    reg(&mut v, 1, 24, &old_vd);
    v.exec_integer_vvm(CarryOp::Merge, 8, 16, 0, 24, false).unwrap();
    check_reg(&v, 1, 24, &expected);
}

#[test]
fn test_vector_op_merge_vxm_selects_scalar_by_v0() {
    let scalar = 0xaaaa_5555_u32 as u64;
    let elem_count = VLEN_BYTE / 4;
    let vs2: Vec<u32> = (0..elem_count).map(|i| 0x3000_0000_u32 + i as u32).collect();
    let merge_mask = mask_from_bits([false, true, true, false]);
    let expected: Vec<u32> = (0..elem_count)
        .map(|index| if mask_bit(&merge_mask, index) { scalar as u32 } else { vs2[index] })
        .collect();
    let mut v = vector_with(Vlmul::M1, Vsew::E32, false, false, elem_count as u16);
    reg(&mut v, 1, 0, &merge_mask);
    reg(&mut v, 1, 16, &vs2);
    v.exec_integer_vxm(CarryOp::Merge, scalar, 16, 0, 24, false).unwrap();
    check_reg(&v, 1, 24, &expected);
}

#[test]
fn test_vector_op_merge_vim_uses_signed_immediate_value() {
    let imm = (-3_i8) as u64;
    let elem_count = VLEN_BYTE;
    let vs2: Vec<u8> = (0..elem_count).map(|i| 0x40_u8 + i as u8).collect();
    let merge_mask = mask_from_bits((0..elem_count).map(|index| index % 2 == 0));
    let expected: Vec<u8> = (0..elem_count)
        .map(|index| if mask_bit(&merge_mask, index) { imm as u8 } else { vs2[index] })
        .collect();
    let mut v = vector_with(Vlmul::M1, Vsew::E8, false, false, elem_count as u16);
    reg(&mut v, 1, 0, &merge_mask);
    reg(&mut v, 1, 16, &vs2);
    v.exec_integer_vxm(CarryOp::Merge, imm, 16, 0, 24, false).unwrap();
    check_reg(&v, 1, 24, &expected);
}

#[test]
fn test_vector_op_cpop_and_first_m_honor_mask() {
    let source = mask_from_bits([false, true, false, true, true, false, true, false]);
    let pred_mask = mask_from_bits([true, false, true, true, false, true, true, true]);
    let mut v = vector_with(Vlmul::M1, Vsew::E8, false, false, 8);
    reg(&mut v, 1, 0, &pred_mask);
    reg(&mut v, 1, 16, &source);
    assert_eq!(v.exec_mask_to_x(MaskToScalarOp::Cpop, 16, true).unwrap(), 2);

    let mut v = vector_with(Vlmul::M1, Vsew::E8, false, false, 8);
    reg(&mut v, 1, 0, &pred_mask);
    reg(&mut v, 1, 16, &source);
    assert_eq!(v.exec_mask_to_x(MaskToScalarOp::First, 16, true).unwrap(), 3);
}

#[test]
fn test_vector_op_first_m_returns_minus_one_when_no_match() {
    let source = mask_from_bits([false; 8]);
    let mut v = vector_with(Vlmul::M1, Vsew::E8, false, false, 8);
    reg(&mut v, 1, 16, &source);
    assert_eq!(v.exec_mask_to_x(MaskToScalarOp::First, 16, false).unwrap(), u64::MAX);
}

fn run_mask_unary(op: MaskUnaryOp, source: &[u8], expected: &[u8]) {
    let mut v = vector_with(Vlmul::M1, Vsew::E8, false, false, 8);
    reg(&mut v, 1, 16, source);
    v.exec_mask_unary(op, 16, 24, false, 0).unwrap();
    check_reg(&v, 1, 24, expected);
}

#[test]
fn test_vector_op_mask_before_first_family() {
    let source = mask_from_bits([false, false, true, false, true, false, false, false]);
    let expected_msbf = mask_from_bits([true, true, false, false, false, false, false, false]);
    let expected_msif = mask_from_bits([true, true, true, false, false, false, false, false]);
    let expected_msof = mask_from_bits([false, false, true, false, false, false, false, false]);
    run_mask_unary(MaskUnaryOp::Msbf, &source, &expected_msbf);
    run_mask_unary(MaskUnaryOp::Msif, &source, &expected_msif);
    run_mask_unary(MaskUnaryOp::Msof, &source, &expected_msof);
}

#[test]
fn test_vector_op_mask_before_first_initializes_seen_first_from_vstart() {
    let source = mask_from_bits([false, true, false, false, false, false, false, false]);
    let old_vd = mask_from_bits([true, true, true, true, true, true, true, true]);
    let expected = mask_from_bits([true, true, true, false, false, false, false, false]);
    let mut v = vector_with(Vlmul::M1, Vsew::E8, false, false, 8);
    reg(&mut v, 1, 16, &source);
    reg(&mut v, 1, 24, &old_vd);
    v.exec_mask_unary(MaskUnaryOp::Msbf, 16, 24, false, 3).unwrap();
    check_reg(&v, 1, 24, &expected);
}

#[test]
fn test_vector_op_iota_m_honors_mask() {
    let elem_count = VLEN_BYTE / 2;
    let source = mask_from_bits([true, false, true, true, false, true, false, false]);
    let pred_mask = mask_from_bits([true, false, true, true, true, false, true, true]);
    let old_vd: Vec<u16> = (0..elem_count).map(|index| 0x9000 + index as u16).collect();
    let mut expected = old_vd.clone();
    expected[0] = 0;
    expected[2] = 1;
    expected[3] = 2;
    expected[4] = 3;
    expected[6] = 4;
    expected[7] = 4;
    let mut v = vector_with(Vlmul::M1, Vsew::E16, false, false, 8);
    reg(&mut v, 1, 0, &pred_mask);
    reg(&mut v, 1, 16, &source);
    reg(&mut v, 1, 24, &old_vd);
    v.exec_mask_to_vector(16, 24, true, 0).unwrap();
    check_reg(&v, 1, 24, &expected);
}

#[test]
fn test_vector_op_iota_m_counts_source_bits_before_vstart() {
    let elem_count = VLEN_BYTE / 2;
    let source = mask_from_bits([true, false, true, true, false, false, false, false]);
    let old_vd: Vec<u16> = (0..elem_count).map(|index| 0x9000 + index as u16).collect();
    let mut expected = old_vd.clone();
    expected[4] = 3;
    expected[5] = 3;
    expected[6] = 3;
    expected[7] = 3;
    let mut v = vector_with(Vlmul::M1, Vsew::E16, false, false, 8);
    reg(&mut v, 1, 16, &source);
    reg(&mut v, 1, 24, &old_vd);
    v.exec_mask_to_vector(16, 24, false, 4).unwrap();
    check_reg(&v, 1, 24, &expected);
}

#[test]
fn test_vector_op_mask_special_rejects_destination_source_overlap() {
    let mut v = vector_with(Vlmul::M1, Vsew::E16, false, false, 8);
    assert_eq!(v.exec_mask_unary(MaskUnaryOp::Msbf, 8, 8, false, 0), Err(Exception::IllegalInstruction));
    assert_eq!(v.exec_mask_to_vector(8, 8, false, 0), Err(Exception::IllegalInstruction));
}

#[test]
fn test_vector_op_id_v_honors_mask() {
    let elem_count = VLEN_BYTE / 4;
    let pred_mask = mask_from_bits([true, false, true, true]);
    let old_vd: Vec<u32> = (0..elem_count).map(|index| 0x8000_0000 + index as u32).collect();
    let mut expected = old_vd.clone();
    expected[0] = 0;
    expected[2] = 2;
    expected[3] = 3;
    let mut v = vector_with(Vlmul::M1, Vsew::E32, false, false, elem_count as u16);
    reg(&mut v, 1, 0, &pred_mask);
    reg(&mut v, 1, 24, &old_vd);
    v.exec_index(24, true, 0).unwrap();
    check_reg(&v, 1, 24, &expected);
}

#[test]
fn integer_test_test_vector_op_add_vv() {
    let elem_count = VLEN_BYTE * 2 / 4;
    let vs1: Vec<u32> = (0..elem_count).map(|i| (i as u32) * 7 + 3).collect();
    let vs2: Vec<u32> = (0..elem_count).map(|i| u32::MAX.wrapping_sub((i as u32) * 5)).collect();
    let expected: Vec<u32> = vs1.iter().zip(vs2.iter()).map(|(lhs, rhs)| lhs.wrapping_add(*rhs)).collect();
    let mut v = vector_with(Vlmul::M2, Vsew::E32, false, false, elem_count as u16);
    reg(&mut v, 2, 8, &vs1);
    reg(&mut v, 2, 16, &vs2);
    v.exec_integer_vv(IntegerOp::Add, 8, 16, 24, false).unwrap();
    check_reg(&v, 2, 24, &expected);
}

#[test]
fn test_vector_op_widening_add_sub() {
    let vs1 = [-5_i16, 7, i16::MAX, -1, 0, 1234, -3000, 99];
    let vs2 = [10_i16, -20, 1, i16::MIN, -9, -1234, 4000, -100];

    let expected: Vec<i32> = vs1.iter().zip(vs2.iter()).map(|(rhs, lhs)| (*lhs as i32).wrapping_add(*rhs as i32)).collect();
    run_widening_vv(WideningOp::Add, WideningSign::Signed, &vs1, &vs2, &expected);

    let expected = u32_bits_to_i32(
        vs1.iter().zip(vs2.iter()).map(|(rhs, lhs)| (*lhs as u16 as u32).wrapping_add(*rhs as u16 as u32)).collect(),
    );
    run_widening_vv(WideningOp::Add, WideningSign::Unsigned, &vs1, &vs2, &expected);

    let expected: Vec<i32> = vs1.iter().zip(vs2.iter()).map(|(rhs, lhs)| (*lhs as i32).wrapping_sub(*rhs as i32)).collect();
    run_widening_vv(WideningOp::Sub, WideningSign::Signed, &vs1, &vs2, &expected);

    let wide_vs2 = [100_i32, -200, i32::MAX, i32::MIN, 77, -88, 9000, -9000];
    let expected: Vec<i32> = vs1.iter().zip(wide_vs2.iter()).map(|(rhs, lhs)| lhs.wrapping_add(*rhs as i32)).collect();
    run_widening_wv(WideningOp::Add, true, &vs1, &wide_vs2, &expected);

    let expected: Vec<i32> = wide_vs2.iter().map(|lhs| lhs.wrapping_sub(-3_i16 as i32)).collect();
    run_widening_wx(WideningOp::Sub, true, -3_i16 as u64, &wide_vs2, &expected);

    let expected: Vec<i32> = vs2.iter().map(|lhs| (*lhs as i32).wrapping_add(9_i16 as i32)).collect();
    run_widening_vx(WideningOp::Add, WideningSign::Signed, 9, &vs2, &expected);
}

#[test]
fn test_vector_op_rgather_vv() {
    let vs1 = [3_u32, 0, 5, 7];
    let vs2 = [0x1000_0000_u32, 0x2000_0000, 0x3000_0000, 0x4000_0000];
    let expected = [vs2[3], vs2[0], 0, 0];
    let mut v = vector_with(Vlmul::M1, Vsew::E32, false, false, 4);
    reg(&mut v, 1, 8, &vs1);
    reg(&mut v, 1, 16, &vs2);
    v.exec_integer_gather_vv(8, 16, 24, false, 0).unwrap();
    check_reg(&v, 1, 24, &expected);
}

#[test]
fn test_vector_op_rgather_vv_honors_mask_and_tail() {
    let elem_count = VLEN_BYTE / 2;
    let vs1: Vec<u16> = (0..elem_count).map(|i| [1_u16, 0, 3, 99, 2, 4, 5, 6][i]).collect();
    let vs2: Vec<u16> = (0..elem_count).map(|i| [10_u16, 20, 30, 40, 50, 60, 70, 80][i]).collect();
    let old_vd: Vec<u16> = (0..elem_count).map(|i| 0x9000_u16 + i as u16).collect();
    let pred_mask = mask_from_bits([true, false, true, true, true, true, true, true]);
    let mut expected = old_vd.clone();
    expected[0] = vs2[1];
    expected[2] = vs2[3];
    expected[3] = 0;
    expected[4] = vs2[2];
    let mut v = vector_with(Vlmul::M1, Vsew::E16, false, false, 5);
    reg(&mut v, 1, 0, &pred_mask);
    reg(&mut v, 1, 8, &vs1);
    reg(&mut v, 1, 16, &vs2);
    reg(&mut v, 1, 24, &old_vd);
    v.exec_integer_gather_vv(8, 16, 24, true, 0).unwrap();
    check_reg(&v, 1, 24, &expected);
}

#[test]
fn test_vector_op_rgatherei16_vv_uses_16_bit_indices() {
    let vs1 = [2_u16, 4, 0, 7, 1, 1, 1, 1];
    let vs2 = [0x11_u32, 0x22, 0x33, 0x44];
    let expected = [vs2[2], 0, vs2[0], 0];
    let mut v = vector_with(Vlmul::M1, Vsew::E32, false, false, 4);
    reg(&mut v, 1, 8, &vs1);
    reg(&mut v, 1, 16, &vs2);
    v.exec_integer_gather_ei16_vv(8, 16, 24, false, 0).unwrap();
    check_reg(&v, 1, 24, &expected);
}

#[test]
fn test_vector_op_rgatherei16_vv_uses_widened_index_group_for_e8() {
    let elem_count = VLEN_BYTE;
    let vs1: Vec<u16> = (0..elem_count).rev().map(|index| index as u16).collect();
    let vs2: Vec<u8> = (0..elem_count).map(|index| 0x10 + index as u8).collect();
    let expected: Vec<u8> = vs1.iter().map(|index| vs2[*index as usize]).collect();
    let mut v = vector_with(Vlmul::M1, Vsew::E8, false, false, elem_count as u16);
    reg(&mut v, 2, 8, &vs1);
    reg(&mut v, 1, 16, &vs2);
    v.exec_integer_gather_ei16_vv(8, 16, 24, false, 0).unwrap();
    check_reg(&v, 1, 24, &expected);
}

#[test]
fn test_vector_op_rgather_vx() {
    let vs2 = [0x10_u64, 0x20, 0x30, 0x40];
    let expected = [vs2[1]; 2];
    let mut v = vector_with(Vlmul::M1, Vsew::E64, false, false, 2);
    reg(&mut v, 2, 16, &vs2);
    v.exec_integer_gather_vx(1, 16, 24, false, 0).unwrap();
    check_reg(&v, 1, 24, &expected);
}

#[test]
fn test_vector_op_rgather_vi() {
    let elem_count = VLEN_BYTE;
    let vs2: Vec<u8> = (0..elem_count).map(|i| i as u8 + 1).collect();
    let expected = [6_u8; VLEN_BYTE];
    let mut v = vector_with(Vlmul::M1, Vsew::E8, false, false, elem_count as u16);
    reg(&mut v, 1, 16, &vs2);
    v.exec_integer_gather_vx(5, 16, 24, false, 0).unwrap();
    check_reg(&v, 1, 24, &expected);
}

#[test]
fn test_vector_op_rgather_rejects_destination_source_overlap() {
    let elem_count = VLEN_BYTE * 2 / 4;
    let data: Vec<u32> = (0..elem_count).map(|i| i as u32).collect();
    let mut v = vector_with(Vlmul::M2, Vsew::E32, false, false, elem_count as u16);
    reg(&mut v, 2, 8, &data);
    reg(&mut v, 2, 12, &data);
    assert_eq!(v.exec_integer_gather_vv(8, 12, 8, false, 0), Err(Exception::IllegalInstruction));
    assert_eq!(v.exec_integer_gather_vv(8, 12, 12, false, 0), Err(Exception::IllegalInstruction));
    assert_eq!(v.exec_integer_gather_ei16_vv(8, 12, 8, false, 0), Err(Exception::IllegalInstruction));
}

#[test]
fn test_vector_op_rgatherei16_vv_rejects_widened_index_overlap() {
    let mut v = vector_with(Vlmul::M1, Vsew::E8, false, false, 16);
    assert_eq!(v.exec_integer_gather_ei16_vv(2, 8, 3, false, 0), Err(Exception::IllegalInstruction));
}

#[test]
fn test_vector_op_rgather_scalar_forms_reject_destination_source_overlap() {
    let elem_count = VLEN_BYTE * 2 / 2;
    let data: Vec<u16> = (0..elem_count).map(|i| i as u16).collect();
    let mut v = vector_with(Vlmul::M2, Vsew::E16, false, false, elem_count as u16);
    reg(&mut v, 2, 16, &data);
    assert_eq!(v.exec_integer_gather_vx(0, 16, 17, false, 0), Err(Exception::IllegalInstruction));
    assert_eq!(v.exec_integer_gather_vx(0, 16, 17, false, 0), Err(Exception::IllegalInstruction));
}

#[test]
fn test_vector_op_slideup_vx() {
    let elem_count = VLEN_BYTE / 2;
    let vs2: Vec<u16> = (0..elem_count).map(|i| 0x100_u16 + i as u16).collect();
    let old_vd: Vec<u16> = (0..elem_count).map(|i| 0x900_u16 + i as u16).collect();
    let mut expected = old_vd.clone();
    for index in 3..elem_count {
        expected[index] = vs2[index - 3];
    }
    let mut v = vector_with(Vlmul::M1, Vsew::E16, false, false, elem_count as u16);
    reg(&mut v, 1, 16, &vs2);
    reg(&mut v, 1, 24, &old_vd);
    v.exec_slide_up(3, 16, 24, false).unwrap();
    check_reg(&v, 1, 24, &expected);
}

#[test]
fn test_vector_op_slideup_honors_mask_and_tail() {
    let elem_count = VLEN_BYTE / 4;
    let vs2: Vec<u32> = (0..elem_count).map(|i| 0x10_u32 + i as u32).collect();
    let old_vd: Vec<u32> = (0..elem_count).map(|i| 0x80_u32 + i as u32).collect();
    let pred_mask = mask_from_bits([true, true, false, true]);
    let mut expected = old_vd.clone();
    expected[2] = old_vd[2];
    let mut v = vector_with(Vlmul::M1, Vsew::E32, false, false, 3);
    reg(&mut v, 1, 0, &pred_mask);
    reg(&mut v, 1, 16, &vs2);
    reg(&mut v, 1, 24, &old_vd);
    v.exec_slide_up(2, 16, 24, true).unwrap();
    check_reg(&v, 1, 24, &expected);
}

#[test]
fn test_vector_op_slidedown_vx() {
    let elem_count = VLEN_BYTE / 2;
    let vs2: Vec<u16> = (0..elem_count).map(|i| 0x100_u16 + i as u16).collect();
    let old_vd: Vec<u16> = (0..elem_count).map(|i| 0x900_u16 + i as u16).collect();
    let mut expected = old_vd.clone();
    for index in 0..elem_count {
        expected[index] = vs2.get(index + 3).copied().unwrap_or_default();
    }
    let mut v = vector_with(Vlmul::M1, Vsew::E16, false, false, elem_count as u16);
    reg(&mut v, 1, 16, &vs2);
    reg(&mut v, 1, 24, &old_vd);
    v.exec_slide_down(3, 16, 24, false).unwrap();
    check_reg(&v, 1, 24, &expected);
}

#[test]
fn test_vector_op_slidedown_honors_mask_and_tail() {
    let elem_count = VLEN_BYTE / 4;
    let vs2: Vec<u32> = (0..elem_count).map(|i| 0x10_u32 + i as u32).collect();
    let old_vd: Vec<u32> = (0..elem_count).map(|i| 0x80_u32 + i as u32).collect();
    let pred_mask = mask_from_bits([true, true, false, true]);
    let mut expected = old_vd.clone();
    expected[0] = vs2[2];
    expected[1] = vs2[3];
    let mut v = vector_with(Vlmul::M1, Vsew::E32, false, false, 3);
    reg(&mut v, 1, 0, &pred_mask);
    reg(&mut v, 1, 16, &vs2);
    reg(&mut v, 1, 24, &old_vd);
    v.exec_slide_down(2, 16, 24, true).unwrap();
    check_reg(&v, 1, 24, &expected);
}

#[test]
fn test_vector_op_narrowing_shift_right_wv() {
    let elem_count = VLEN_BYTE;
    let vs1: Vec<u8> = (0..elem_count).map(|i| (i as u8).wrapping_mul(3)).collect();
    let vs2: Vec<u16> = (0..elem_count).map(|i| 0x0100_u16.wrapping_add((i as u16) << 4)).collect();
    let expected: Vec<u8> = vs1.iter().zip(vs2.iter()).map(|(shift, value)| (*value >> (*shift as u32 & 7)) as u8).collect();
    let mut v = vector_with(Vlmul::M1, Vsew::E8, false, false, elem_count as u16);
    reg(&mut v, 1, 8, &vs1);
    reg(&mut v, 2, 16, &vs2);
    v.exec_integer_narrowing_wv(NarrowingShiftOp::Nsrl, 8, 16, 24, false, 0).unwrap();
    check_reg(&v, 1, 24, &expected);
}

#[test]
fn test_vector_op_narrowing_shift_right_wx() {
    let elem_count = VLEN_BYTE / 2;
    let vs2: Vec<u32> = (0..elem_count).map(|i| 0x8000_0000_u32 >> (i % 4)).collect();
    let expected: Vec<u16> = vs2.iter().map(|value| (value >> 3) as u16).collect();
    let mut v = vector_with(Vlmul::M1, Vsew::E16, false, false, elem_count as u16);
    reg(&mut v, 2, 16, &vs2);
    v.exec_integer_narrowing_vx(NarrowingShiftOp::Nsrl, 3, 16, 24, false, 0).unwrap();
    check_reg(&v, 1, 24, &expected);
}

#[test]
fn test_vector_op_narrowing_shift_right_wi_signed() {
    let elem_count = VLEN_BYTE / 2;
    let vs2: Vec<u32> = (0..elem_count).map(|i| if i % 2 == 0 { 0x8000_0000_u32 } else { 0x7fff_ff00_u32 }).collect();
    let expected: Vec<u16> = vs2.iter().map(|value| ((*value as i32) >> 15) as u16).collect();
    let mut v = vector_with(Vlmul::M1, Vsew::E16, false, false, elem_count as u16);
    reg(&mut v, 2, 16, &vs2);
    v.exec_integer_narrowing_vx(NarrowingShiftOp::Nsra, (-1_i32) as u64, 16, 24, false, 0).unwrap();
    check_reg(&v, 1, 24, &expected);
}

#[test]
fn test_vector_op_narrowing_shift_rejects_destination_source_overlap() {
    let mut v = vector_with(Vlmul::M1, Vsew::E8, false, false, 16);
    assert_eq!(
        v.exec_integer_narrowing_wv(NarrowingShiftOp::Nsrl, 8, 2, 3, false, 0),
        Err(Exception::IllegalInstruction)
    );
    assert_eq!(
        v.exec_integer_narrowing_vx(NarrowingShiftOp::Nsrl, 1, 2, 3, false, 0),
        Err(Exception::IllegalInstruction)
    );
}

#[test]
fn test_vector_op_narrowing_shift_fractional_lmul_overlap_check() {
    let vs1 = [0u8; VLEN_BYTE];
    let vs2 = [1u16, 2, 3, 4, 0, 0, 0, 0];
    let expected = [1u8, 2, 3, 4, 0, 0, 0, 0, 0, 0, 0, 0, 0, 0, 0, 0];
    let mut v = vector_with(Vlmul::Mf2, Vsew::E8, false, false, 4);
    reg(&mut v, 1, 8, &vs1);
    reg(&mut v, 1, 2, &vs2);
    v.exec_integer_narrowing_wv(NarrowingShiftOp::Nsrl, 8, 2, 3, false, 0).unwrap();
    check_reg(&v, 1, 3, &expected);
}

#[test]
fn test_vector_op_widening_mul() {
    let vs1 = [-5_i16, 7, -1, 0x7fff, -300, 123, -32768, 11];
    let vs2 = [10_i16, -20, -3, 2, 400, -321, -2, 0x7fff];

    let expected: Vec<i32> = vs1.iter().zip(vs2.iter()).map(|(rhs, lhs)| (*lhs as i32).wrapping_mul(*rhs as i32)).collect();
    run_widening_vv(WideningOp::Mul, WideningSign::Signed, &vs1, &vs2, &expected);

    let expected = u32_bits_to_i32(
        vs1.iter().zip(vs2.iter()).map(|(rhs, lhs)| (*lhs as u16 as u32).wrapping_mul(*rhs as u16 as u32)).collect(),
    );
    run_widening_vv(WideningOp::Mul, WideningSign::Unsigned, &vs1, &vs2, &expected);

    let expected: Vec<i32> = vs1.iter().zip(vs2.iter()).map(|(rhs, lhs)| (*lhs as i32).wrapping_mul(*rhs as u16 as i32)).collect();
    run_widening_vv(WideningOp::Mul, WideningSign::SignedUnsigned, &vs1, &vs2, &expected);

    let expected: Vec<i32> = vs2.iter().map(|lhs| (*lhs as i32).wrapping_mul((-2_i16) as i32)).collect();
    run_widening_vx(WideningOp::Mul, WideningSign::Signed, -2_i16 as u64, &vs2, &expected);
}

fn run_vvv_u32(op: MultiplyAddOp, vs1: &[u32], vs2: &[u32], old_vd: &[u32], expected: &[u32]) {
    let mut v = vector_with(Vlmul::M1, Vsew::E32, false, false, expected.len() as u16);
    reg(&mut v, 1, 8, vs1);
    reg(&mut v, 1, 16, vs2);
    reg(&mut v, 1, 24, old_vd);
    v.exec_integer_vvv(op, 8, 16, 24, false).unwrap();
    check_reg(&v, 1, 24, expected);
}

#[test]
fn test_vector_op_integer_multiply_add() {
    let vs1 = [3_u32, 0xffff_fffe, 7, 0x8000_0000];
    let vs2 = [10_u32, 5, 0xffff_ffff, 2];
    let old_vd = [100_u32, 9, 20, 0x8000_0001];

    let expected: Vec<u32> = vs1.iter().zip(vs2.iter()).zip(old_vd.iter())
        .map(|((vs1, vs2), vd)| vs1.wrapping_mul(*vs2).wrapping_add(*vd)).collect();
    run_vvv_u32(MultiplyAddOp::Macc, &vs1, &vs2, &old_vd, &expected);

    let expected: Vec<u32> = vs1.iter().zip(vs2.iter()).zip(old_vd.iter())
        .map(|((vs1, vs2), vd)| vs1.wrapping_mul(*vs2).wrapping_neg().wrapping_add(*vd)).collect();
    run_vvv_u32(MultiplyAddOp::Nmsac, &vs1, &vs2, &old_vd, &expected);

    let expected: Vec<u32> = vs1.iter().zip(vs2.iter()).zip(old_vd.iter())
        .map(|((vs1, vs2), vd)| vs1.wrapping_mul(*vd).wrapping_add(*vs2)).collect();
    run_vvv_u32(MultiplyAddOp::Madd, &vs1, &vs2, &old_vd, &expected);

    let scalar_x1: u64 = 0xffff_fffd;
    let scalar = scalar_x1 as u32;
    let expected: Vec<u32> = vs2.iter().zip(old_vd.iter())
        .map(|(vs2, vd)| scalar.wrapping_mul(*vd).wrapping_neg().wrapping_add(*vs2)).collect();
    let mut v = vector_with(Vlmul::M1, Vsew::E32, false, false, expected.len() as u16);
    reg(&mut v, 1, 16, &vs2);
    reg(&mut v, 1, 24, &old_vd);
    v.exec_integer_vxv(MultiplyAddOp::Nmsub, scalar_x1, 16, 24, false).unwrap();
    check_reg(&v, 1, 24, &expected);
}

#[test]
fn test_vector_op_integer_multiply_add_honors_mask_and_tail() {
    let vs1 = [2_i16, 3, 4, 5, 6, 7, 8, 9];
    let vs2 = [10_i16, 20, 30, 40, 50, 60, 70, 80];
    let old_vd = [100_i16, 101, 102, 103, 104, 105, 106, 107];
    let pred_mask = mask_from_bits([true, false, true, false, true, true, true, true]);
    let vl = 5;
    let mut expected = old_vd;
    for index in 0..vl {
        if mask_bit(&pred_mask, index) {
            expected[index] = vs1[index].wrapping_mul(vs2[index]).wrapping_add(old_vd[index]);
        }
    }
    let mut v = vector_with(Vlmul::M1, Vsew::E16, false, false, vl as u16);
    reg(&mut v, 1, 0, &pred_mask);
    reg(&mut v, 1, 8, &vs1);
    reg(&mut v, 1, 16, &vs2);
    reg(&mut v, 1, 24, &old_vd);
    v.exec_integer_vvv(MultiplyAddOp::Macc, 8, 16, 24, true).unwrap();
    check_reg(&v, 1, 24, &expected);
}

#[test]
fn test_vector_op_widening_multiply_add() {
    let vs1 = [-5_i16, 7, -1, 0x7fff, -300, 123, -32768, 11];
    let vs2 = [10_i16, -20, -3, 2, 400, -321, -2, 0x7fff];
    let old_vd = [100_i32, -200, i32::MAX, i32::MIN, 77, -88, 9000, -9000];

    let expected: Vec<i32> = vs1.iter().zip(vs2.iter()).zip(old_vd.iter())
        .map(|((vs1, vs2), vd)| (*vs1 as i32).wrapping_mul(*vs2 as i32).wrapping_add(*vd)).collect();
    let mut v = vector_with(Vlmul::M1, Vsew::E16, false, false, expected.len() as u16);
    reg(&mut v, 1, 8, &vs1);
    reg(&mut v, 1, 16, &vs2);
    reg(&mut v, 2, 24, &old_vd);
    v.exec_widening_integer_vvv(WideningSign::Signed, 8, 16, 24, false).unwrap();
    check_reg(&v, 2, 24, &expected);

    let expected = u32_bits_to_i32(
        vs1.iter().zip(vs2.iter()).zip(old_vd.iter())
            .map(|((vs1, vs2), vd)| (*vs1 as u16 as u32).wrapping_mul(*vs2 as u16 as u32).wrapping_add(*vd as u32))
            .collect(),
    );
    let mut v = vector_with(Vlmul::M1, Vsew::E16, false, false, expected.len() as u16);
    reg(&mut v, 1, 8, &vs1);
    reg(&mut v, 1, 16, &vs2);
    reg(&mut v, 2, 24, &old_vd);
    v.exec_widening_integer_vvv(WideningSign::Unsigned, 8, 16, 24, false).unwrap();
    check_reg(&v, 2, 24, &expected);

    let expected: Vec<i32> = vs2.iter().zip(old_vd.iter())
        .map(|(vs2, vd)| (-3_i16 as i32).wrapping_mul(*vs2 as i32).wrapping_add(*vd)).collect();
    let mut v = vector_with(Vlmul::M1, Vsew::E16, false, false, expected.len() as u16);
    reg(&mut v, 1, 16, &vs2);
    reg(&mut v, 2, 24, &old_vd);
    v.exec_widening_integer_vxv(WideningSign::Signed, (-3_i16) as u64, 16, 24, false).unwrap();
    check_reg(&v, 2, 24, &expected);

    let expected: Vec<i32> = vs2.iter().zip(old_vd.iter())
        .map(|(vs2, vd)| (-3_i16 as i32).wrapping_mul(*vs2 as u16 as i32).wrapping_add(*vd)).collect();
    let mut v = vector_with(Vlmul::M1, Vsew::E16, false, false, expected.len() as u16);
    reg(&mut v, 1, 16, &vs2);
    reg(&mut v, 2, 24, &old_vd);
    v.exec_widening_integer_vxv(WideningSign::UnsignedSigned, (-3_i16) as u64, 16, 24, false).unwrap();
    check_reg(&v, 2, 24, &expected);
}

#[test]
fn test_vector_op_integer_vv_binary() {
    let elem_count = VLEN_BYTE / 4;
    let vs1: Vec<u32> = (0..elem_count).map(|i| 0x8000_0011u32.wrapping_add((i as u32) * 0x1020_304)).collect();
    let vs2: Vec<u32> = (0..elem_count).map(|i| 0xfedc_ba98u32.wrapping_sub((i as u32) * 0x0101_0101)).collect();

    let expected: Vec<u32> = vs1.iter().zip(vs2.iter()).map(|(lhs, rhs)| lhs.wrapping_add(*rhs)).collect();
    run_vv_binary_u32(IntegerOp::Addu, &vs1, &vs2, &expected);
    let expected: Vec<u32> = vs1.iter().zip(vs2.iter()).map(|(rhs, lhs)| lhs.wrapping_sub(*rhs)).collect();
    run_vv_binary_u32(IntegerOp::Sub, &vs1, &vs2, &expected);
    run_vv_binary_u32(IntegerOp::Subu, &vs1, &vs2, &expected);
    let expected: Vec<u32> = vs1.iter().zip(vs2.iter()).map(|(lhs, rhs)| lhs & rhs).collect();
    run_vv_binary_u32(IntegerOp::And, &vs1, &vs2, &expected);
    let expected: Vec<u32> = vs1.iter().zip(vs2.iter()).map(|(rhs, lhs)| lhs.wrapping_shl(rhs & 31)).collect();
    run_vv_binary_u32(IntegerOp::Sll, &vs1, &vs2, &expected);
    let expected: Vec<u32> = vs1.iter().zip(vs2.iter()).map(|(rhs, lhs)| lhs.wrapping_shr(rhs & 31)).collect();
    run_vv_binary_u32(IntegerOp::Srl, &vs1, &vs2, &expected);
    let expected: Vec<u32> = vs1.iter().zip(vs2.iter()).map(|(rhs, lhs)| (signed_u32(*lhs) >> (rhs & 31)) as u32).collect();
    run_vv_binary_u32(IntegerOp::Sra, &vs1, &vs2, &expected);
    let expected: Vec<u32> = vs1.iter().zip(vs2.iter())
        .map(|(lhs, rhs)| if signed_u32(*lhs) > signed_u32(*rhs) { *lhs } else { *rhs }).collect();
    run_vv_binary_u32(IntegerOp::Max, &vs1, &vs2, &expected);
    let expected: Vec<u32> = vs1.iter().zip(vs2.iter()).map(|(lhs, rhs)| if lhs > rhs { *lhs } else { *rhs }).collect();
    run_vv_binary_u32(IntegerOp::Maxu, &vs1, &vs2, &expected);
    let expected: Vec<u32> = vs1.iter().zip(vs2.iter())
        .map(|(lhs, rhs)| if signed_u32(*lhs) < signed_u32(*rhs) { *lhs } else { *rhs }).collect();
    run_vv_binary_u32(IntegerOp::Min, &vs1, &vs2, &expected);
    let expected: Vec<u32> = vs1.iter().zip(vs2.iter()).map(|(lhs, rhs)| if lhs < rhs { *lhs } else { *rhs }).collect();
    run_vv_binary_u32(IntegerOp::Minu, &vs1, &vs2, &expected);
}

fn run_bit_binary_u32(op: BitOp, vs1: &[u32], vs2: &[u32], expected: &[u32]) {
    let mut v = vector_with(Vlmul::M8, Vsew::E64, false, false, (VLEN_BYTE * 8) as u16);
    reg(&mut v, 1, 3, vs1);
    reg(&mut v, 1, 5, vs2);
    v.exec_bit_vv(op, 3, 5, 7, false, 0).unwrap();
    check_reg(&v, 1, 7, expected);
}

#[test]
fn test_vector_op_bit_vv_binary() {
    let elem_count = VLEN_BYTE / 4;
    let vs1: Vec<u32> = (0..elem_count).map(|i| 0x55aa_00ffu32.rotate_left((i * 5) as u32)).collect();
    let vs2: Vec<u32> = (0..elem_count).map(|i| 0xcc33_f0f0u32.rotate_right((i * 3) as u32)).collect();
    let table: [(BitOp, fn(u32, u32) -> u32); 8] = [
        (BitOp::And, |a, b| b & a),
        (BitOp::Nand, |a, b| !(b & a)),
        (BitOp::Andn, |a, b| b & !a),
        (BitOp::Xor, |a, b| b ^ a),
        (BitOp::Or, |a, b| b | a),
        (BitOp::Nor, |a, b| !(b | a)),
        (BitOp::Orn, |a, b| b | !a),
        (BitOp::Xnor, |a, b| !(b ^ a)),
    ];
    for (op, f) in table {
        let expected: Vec<u32> = vs1.iter().zip(vs2.iter()).map(|(a, b)| f(*a, *b)).collect();
        run_bit_binary_u32(op, &vs1, &vs2, &expected);
    }
}

#[test]
fn test_vector_op_bit_vv_honors_mask_tail_and_vstart() {
    let vs1 = [0x1234_5678u32, 0xf0f0_0f0f, 0xaaaa_5555, 0x0101_8080];
    let vs2 = [0xffff_0000u32, 0x3333_cccc, 0x0f0f_f0f0, 0x8000_0001];
    let old_vd = [0x5555_aaaau32, 0x0123_4567, 0xffff_ffff, 0xdead_beef];
    let mask = mask_from_bits((0..VLEN_BYTE * 8).map(|index| index % 3 != 0));
    let mut expected = old_vd;
    for index in 0..VLEN_BYTE * 8 {
        let chunk = index / 32;
        let bit = 1u32 << (index % 32);
        let value = (vs2[chunk] & bit) != 0 && (vs1[chunk] & bit) == 0;
        if index < 17 {
            continue;
        } else if index >= 70 {
            expected[chunk] &= !bit;
        } else if mask_bit(&mask, index) {
            if value {
                expected[chunk] |= bit;
            } else {
                expected[chunk] &= !bit;
            }
        }
    }
    let mut v = vector_with(Vlmul::M8, Vsew::E64, false, true, 70);
    reg(&mut v, 1, 0, &mask);
    reg(&mut v, 1, 3, &vs1);
    reg(&mut v, 1, 5, &vs2);
    reg(&mut v, 1, 7, &old_vd);
    v.exec_bit_vv(BitOp::Andn, 3, 5, 7, true, 17).unwrap();
    check_reg(&v, 1, 7, &expected);
}

#[test]
fn integer_test_test_vector_op_add_vx() {
    let elem_count = VLEN_BYTE * 2 / 2;
    let scalar_x1: u64 = 0x12f0;
    let vs2: Vec<u16> = (0..elem_count).map(|i| u16::MAX.wrapping_sub((i as u16) * 17)).collect();
    let scalar = scalar_x1 as u16;
    let expected: Vec<u16> = vs2.iter().map(|value| value.wrapping_add(scalar)).collect();
    let mut v = vector_with(Vlmul::M2, Vsew::E16, false, false, elem_count as u16);
    reg(&mut v, 2, 8, &vs2);
    v.exec_integer_vx(IntegerOp::Add, scalar_x1, 8, 10, false).unwrap();
    check_reg(&v, 2, 10, &expected);
}

#[test]
fn test_vector_op_integer_vx_binary() {
    let elem_count = VLEN_BYTE / 4;
    let vs2: Vec<u32> = (0..elem_count).map(|i| 0x8000_00f0u32.wrapping_add((i as u32) * 0x0110_0101)).collect();
    let scalar = 0x1234_0005u64;
    let s = scalar as u32;

    let expected: Vec<u32> = vs2.iter().map(|value| value.wrapping_add(s)).collect();
    run_vx_binary_u32(IntegerOp::Addu, scalar, &vs2, &expected);
    let expected: Vec<u32> = vs2.iter().map(|value| value.wrapping_sub(s)).collect();
    run_vx_binary_u32(IntegerOp::Sub, scalar, &vs2, &expected);
    run_vx_binary_u32(IntegerOp::Subu, scalar, &vs2, &expected);
    let expected: Vec<u32> = vs2.iter().map(|value| s.wrapping_sub(*value)).collect();
    run_vx_binary_u32(IntegerOp::RevSub, scalar, &vs2, &expected);
    let expected: Vec<u32> = vs2.iter().map(|value| value & s).collect();
    run_vx_binary_u32(IntegerOp::And, scalar, &vs2, &expected);
    let shift = s & 31;
    let expected: Vec<u32> = vs2.iter().map(|value| value.wrapping_shl(shift)).collect();
    run_vx_binary_u32(IntegerOp::Sll, scalar, &vs2, &expected);
    let expected: Vec<u32> = vs2.iter().map(|value| value.wrapping_shr(shift)).collect();
    run_vx_binary_u32(IntegerOp::Srl, scalar, &vs2, &expected);
    let expected: Vec<u32> = vs2.iter().map(|value| (signed_u32(*value) >> shift) as u32).collect();
    run_vx_binary_u32(IntegerOp::Sra, scalar, &vs2, &expected);
    let expected: Vec<u32> = vs2.iter().map(|value| if signed_u32(*value) > signed_u32(s) { *value } else { s }).collect();
    run_vx_binary_u32(IntegerOp::Max, scalar, &vs2, &expected);
    let expected: Vec<u32> = vs2.iter().map(|value| if *value > s { *value } else { s }).collect();
    run_vx_binary_u32(IntegerOp::Maxu, scalar, &vs2, &expected);
    let expected: Vec<u32> = vs2.iter().map(|value| if signed_u32(*value) < signed_u32(s) { *value } else { s }).collect();
    run_vx_binary_u32(IntegerOp::Min, scalar, &vs2, &expected);
    let expected: Vec<u32> = vs2.iter().map(|value| if *value < s { *value } else { s }).collect();
    run_vx_binary_u32(IntegerOp::Minu, scalar, &vs2, &expected);
}

#[test]
fn test_vector_op_mul_div_e64() {
    let vs2 = [
        0,
        1,
        2,
        u64::MAX,
        0x8000_0000_0000_0000,
        0x7fff_ffff_ffff_ffff,
        0x1234_5678_9abc_def0,
        0xfedc_ba98_7654_3210,
    ];
    let vs1 = [0, 1, u64::MAX, 2, u64::MAX, 0x8000_0000_0000_0000, 3, 0x1000_0000_0000_0001];

    let expected: Vec<u64> = vs1.iter().zip(vs2.iter()).map(|(lhs, rhs)| lhs.wrapping_mul(*rhs)).collect();
    run_vv_binary_u64(IntegerOp::Mul, &vs1, &vs2, &expected);
    let expected: Vec<u64> = vs1.iter().zip(vs2.iter())
        .map(|(lhs, rhs)| ((signed_u64(*lhs) * signed_u64(*rhs)) >> 64) as u64).collect();
    run_vv_binary_u64(IntegerOp::Mulh, &vs1, &vs2, &expected);
    let expected: Vec<u64> = vs1.iter().zip(vs2.iter())
        .map(|(lhs, rhs)| (((*lhs as u128) * (*rhs as u128)) >> 64) as u64).collect();
    run_vv_binary_u64(IntegerOp::Mulhu, &vs1, &vs2, &expected);
    let expected: Vec<u64> = vs1.iter().zip(vs2.iter())
        .map(|(rhs, lhs)| ((signed_u64(*lhs) * (*rhs as u128 as i128)) >> 64) as u64).collect();
    run_vv_binary_u64(IntegerOp::Mulhsu, &vs1, &vs2, &expected);
    let expected: Vec<u64> = vs1.iter().zip(vs2.iter()).map(|(rhs, lhs)| signed_div_u64(*lhs, *rhs)).collect();
    run_vv_binary_u64(IntegerOp::Div, &vs1, &vs2, &expected);
    let expected: Vec<u64> = vs1.iter().zip(vs2.iter())
        .map(|(rhs, lhs)| if *rhs == 0 { u64::MAX } else { lhs / rhs }).collect();
    run_vv_binary_u64(IntegerOp::Divu, &vs1, &vs2, &expected);
    let expected: Vec<u64> = vs1.iter().zip(vs2.iter()).map(|(rhs, lhs)| signed_rem_u64(*lhs, *rhs)).collect();
    run_vv_binary_u64(IntegerOp::Rem, &vs1, &vs2, &expected);
    let expected: Vec<u64> = vs1.iter().zip(vs2.iter())
        .map(|(rhs, lhs)| if *rhs == 0 { *lhs } else { lhs % rhs }).collect();
    run_vv_binary_u64(IntegerOp::Remu, &vs1, &vs2, &expected);

    let scalar = 0xffff_ffff_ffff_fffb;
    let expected: Vec<u64> = vs2.iter().map(|value| value.wrapping_mul(scalar)).collect();
    run_vx_binary_u64(IntegerOp::Mul, scalar, &vs2, &expected);
    let expected: Vec<u64> = vs2.iter().map(|value| ((signed_u64(*value) * signed_u64(scalar)) >> 64) as u64).collect();
    run_vx_binary_u64(IntegerOp::Mulh, scalar, &vs2, &expected);
    let expected: Vec<u64> = vs2.iter().map(|value| (((*value as u128) * (scalar as u128)) >> 64) as u64).collect();
    run_vx_binary_u64(IntegerOp::Mulhu, scalar, &vs2, &expected);
    let expected: Vec<u64> = vs2.iter()
        .map(|value| ((signed_u64(*value) * (scalar as u128 as i128)) >> 64) as u64).collect();
    run_vx_binary_u64(IntegerOp::Mulhsu, scalar, &vs2, &expected);
    let expected: Vec<u64> = vs2.iter().map(|value| signed_div_u64(*value, scalar)).collect();
    run_vx_binary_u64(IntegerOp::Div, scalar, &vs2, &expected);
    let expected: Vec<u64> = vs2.iter().map(|value| value / scalar).collect();
    run_vx_binary_u64(IntegerOp::Divu, scalar, &vs2, &expected);
    let expected: Vec<u64> = vs2.iter().map(|value| signed_rem_u64(*value, scalar)).collect();
    run_vx_binary_u64(IntegerOp::Rem, scalar, &vs2, &expected);
    let expected: Vec<u64> = vs2.iter().map(|value| value % scalar).collect();
    run_vx_binary_u64(IntegerOp::Remu, scalar, &vs2, &expected);
}

#[test]
fn test_vector_op_adc_sbc_vvm() {
    let elem_count = VLEN_BYTE;
    let vs1: Vec<u8> = (0..elem_count).map(|i| 0x11u8.wrapping_add((i as u8).wrapping_mul(13))).collect();
    let vs2: Vec<u8> = (0..elem_count).map(|i| 0xf0u8.wrapping_sub((i as u8).wrapping_mul(7))).collect();
    let carry = mask_from_bits((0..elem_count).map(|i| i % 3 == 1));
    let expected: Vec<u8> = vs1.iter().zip(vs2.iter()).enumerate()
        .map(|(index, (vs1, vs2))| vs2.wrapping_add(*vs1).wrapping_add(mask_bit(&carry, index) as u8)).collect();
    run_vvm_binary_u8(CarryOp::Adc, &vs1, &vs2, &carry, &expected);
    let expected: Vec<u8> = vs1.iter().zip(vs2.iter()).enumerate()
        .map(|(index, (vs1, vs2))| vs2.wrapping_sub(*vs1).wrapping_sub(mask_bit(&carry, index) as u8)).collect();
    run_vvm_binary_u8(CarryOp::Sbc, &vs1, &vs2, &carry, &expected);
}

#[test]
fn test_vector_op_mask_vv() {
    let elem_count = VLEN_BYTE;
    let vs1: Vec<u8> = (0..elem_count).map(|i| [3, 7, 7, 10, 0xf0, 0x80, 0xff, 1][i % 8]).collect();
    let vs2: Vec<u8> = (0..elem_count).map(|i| [3, 8, 6, 10, 0x10, 0x7f, 0xfe, 2][i % 8]).collect();
    let expected = mask_from_bits(vs1.iter().zip(vs2.iter()).map(|(vs1, vs2)| vs2 == vs1));
    run_mask_vv_u8(MaskOp::Compare(CompareOp::Eq), &vs1, &vs2, &expected);
    let expected = mask_from_bits(vs1.iter().zip(vs2.iter()).map(|(vs1, vs2)| vs2 != vs1));
    run_mask_vv_u8(MaskOp::Compare(CompareOp::Ne), &vs1, &vs2, &expected);
    let expected = mask_from_bits(vs1.iter().zip(vs2.iter()).map(|(vs1, vs2)| vs2 < vs1));
    run_mask_vv_u8(MaskOp::Compare(CompareOp::Ltu), &vs1, &vs2, &expected);
}

#[test]
fn test_vector_op_mask_vv_honors_mask_and_tail() {
    let elem_count = VLEN_BYTE;
    let vl = 8;
    let vs1: Vec<u8> = (0..elem_count).map(|i| [1, 2, 3, 4, 5, 6, 7, 8][i % 8]).collect();
    let vs2: Vec<u8> = (0..elem_count).map(|i| [1, 9, 3, 0, 5, 0, 7, 0][i % 8]).collect();
    let pred_mask = mask_from_bits((0..elem_count).map(|i| i % 2 == 0));
    let mut expected = vec![0xff; VLEN_BYTE];
    for index in 0..vl {
        if mask_bit(&pred_mask, index) {
            write_mask_bit(&mut expected, index, vs2[index] == vs1[index]);
        }
    }
    let mut v = vector_with(Vlmul::M1, Vsew::E8, false, false, vl as u16);
    reg(&mut v, 1, 0, &pred_mask);
    reg(&mut v, 1, 24, &[0xffu8; VLEN_BYTE]);
    reg(&mut v, 1, 8, &vs1);
    reg(&mut v, 1, 16, &vs2);
    v.exec_integer_mask_vv(MaskOp::Compare(CompareOp::Eq), 8, 16, 24, true).unwrap();
    check_reg(&v, 1, 24, &expected);
}

#[test]
fn test_vector_op_mask_vx() {
    let elem_count = VLEN_BYTE;
    let vs2: Vec<u8> = (0..elem_count).map(|i| [0x10, 0x40, 0x80, 0xff, 0x7f, 0x01, 0x40, 0x41][i % 8]).collect();
    let scalar: u64 = 0x40;
    let expected = mask_from_bits(vs2.iter().map(|value| *value == scalar as u8));
    run_mask_vx_u8(MaskOp::Compare(CompareOp::Eq), scalar, &vs2, &expected);
    let expected = mask_from_bits(vs2.iter().map(|value| *value != scalar as u8));
    run_mask_vx_u8(MaskOp::Compare(CompareOp::Ne), scalar, &vs2, &expected);
    let expected = mask_from_bits(vs2.iter().map(|value| *value < scalar as u8));
    run_mask_vx_u8(MaskOp::Compare(CompareOp::Ltu), scalar, &vs2, &expected);
    let expected = mask_from_bits(vs2.iter().map(|value| (scalar as u8) > *value));
    run_mask_vx_u8(MaskOp::Compare(CompareOp::Gtu), scalar, &vs2, &expected);
    let signed_scalar: u64 = 0x7f;
    let expected = mask_from_bits(vs2.iter().map(|value| signed_u8(signed_scalar as u8) > signed_u8(*value)));
    run_mask_vx_u8(MaskOp::Compare(CompareOp::Gt), signed_scalar, &vs2, &expected);
}

#[test]
fn test_vector_op_madc_msbc_mask_vvm() {
    let elem_count = VLEN_BYTE;
    let vs1: Vec<u8> = (0..elem_count).map(|i| [1, 2, 0xff, 0x80, 0x7f, 0x10, 0xf0, 0x55][i % 8]).collect();
    let vs2: Vec<u8> = (0..elem_count).map(|i| [0xff, 1, 1, 0x80, 0x80, 0xef, 0x20, 0x54][i % 8]).collect();
    let carry = mask_from_bits((0..elem_count).map(|i| i % 2 == 0));
    let expected = mask_from_bits(vs1.iter().zip(vs2.iter()).enumerate().map(|(index, (vs1, vs2))| {
        (*vs2 as u16 + *vs1 as u16 + mask_bit(&carry, index) as u16) > u8::MAX as u16
    }));
    run_mask_vvm_u8(MaskOp::Madc, &vs1, &vs2, &carry, &expected);
    let expected = mask_from_bits(vs1.iter().zip(vs2.iter()).enumerate().map(|(index, (vs1, vs2))| {
        (*vs2 as u16) < (*vs1 as u16 + mask_bit(&carry, index) as u16)
    }));
    run_mask_vvm_u8(MaskOp::Msbc, &vs1, &vs2, &carry, &expected);
}

#[test]
fn test_vector_op_adc_vvm_honors_tail() {
    let elem_count = VLEN_BYTE;
    let vl = 5;
    let vs1: Vec<u8> = (0..elem_count).map(|i| i as u8).collect();
    let vs2: Vec<u8> = (0..elem_count).map(|i| 0x80u8.wrapping_add(i as u8)).collect();
    let carry = mask_from_bits((0..elem_count).map(|i| i % 2 == 1));
    let mut expected = vec![0xaa; elem_count];
    for index in 0..vl {
        expected[index] = vs2[index].wrapping_add(vs1[index]).wrapping_add(mask_bit(&carry, index) as u8);
    }
    for value in expected.iter_mut().skip(vl) {
        *value = 0;
    }
    let mut v = vector_with(Vlmul::M1, Vsew::E8, false, true, vl as u16);
    reg(&mut v, 1, 0, &carry);
    reg(&mut v, 1, 24, &[0xaau8; VLEN_BYTE]);
    reg(&mut v, 1, 8, &vs1);
    reg(&mut v, 1, 16, &vs2);
    v.exec_integer_vvm(CarryOp::Adc, 8, 16, 0, 24, false).unwrap();
    check_reg(&v, 1, 24, &expected);
}

#[test]
fn integer_test_test_vector_op_zext_vf2() {
    let elem_count = VLEN_BYTE / 2;
    let vs2: Vec<u8> = (0..VLEN_BYTE).map(|i| 0x80u8.wrapping_add(i as u8)).collect();
    let expected: Vec<u16> = vs2.iter().take(elem_count).map(|value| *value as u16).collect();
    let mut v = vector_with(Vlmul::M1, Vsew::E16, false, false, elem_count as u16);
    reg(&mut v, 1, 8, &vs2);
    v.exec_integer_v_ext(false, 2, 8, 10, false, 0).unwrap();
    check_reg(&v, 1, 10, &expected);
}

#[test]
fn integer_test_vector_op_add_vv() {
    let elem_count = VLEN_BYTE * 2 / 4;
    let vs1: Vec<u32> = (0..elem_count).map(|i| (i as u32) * 7 + 3).collect();
    let vs2: Vec<u32> = (0..elem_count).map(|i| u32::MAX.wrapping_sub((i as u32) * 5)).collect();
    let expected: Vec<u32> = vs1.iter().zip(vs2.iter()).map(|(lhs, rhs)| lhs.wrapping_add(*rhs)).collect();
    let mut v = vector_with(Vlmul::M2, Vsew::E32, false, false, elem_count as u16);
    reg(&mut v, 2, 8, &vs1);
    reg(&mut v, 2, 10, &vs2);
    v.exec_integer_vv(IntegerOp::Add, 8, 10, 12, false).unwrap();
    check_reg(&v, 2, 12, &expected);
}

#[test]
fn integer_test_vector_op_add_vx() {
    let elem_count = VLEN_BYTE * 2 / 2;
    let scalar_x1: u64 = 0x12f0;
    let vs2: Vec<u16> = (0..elem_count).map(|i| u16::MAX.wrapping_sub((i as u16) * 17)).collect();
    let scalar = scalar_x1 as u16;
    let expected: Vec<u16> = vs2.iter().map(|value| value.wrapping_add(scalar)).collect();
    let mut v = vector_with(Vlmul::M2, Vsew::E16, false, false, elem_count as u16);
    reg(&mut v, 2, 8, &vs2);
    v.exec_integer_vx(IntegerOp::Add, scalar_x1, 8, 10, false).unwrap();
    check_reg(&v, 2, 10, &expected);
}

#[test]
fn integer_test_vector_op_zext_vf2() {
    let elem_count = VLEN_BYTE / 2;
    let vs2: Vec<u8> = (0..VLEN_BYTE).map(|i| 0x80u8.wrapping_add(i as u8)).collect();
    let expected: Vec<u16> = vs2.iter().take(elem_count).map(|value| *value as u16).collect();
    let mut v = vector_with(Vlmul::M1, Vsew::E16, false, false, elem_count as u16);
    reg(&mut v, 1, 8, &vs2);
    v.exec_integer_v_ext(false, 2, 8, 10, false, 0).unwrap();
    check_reg(&v, 1, 10, &expected);
}
