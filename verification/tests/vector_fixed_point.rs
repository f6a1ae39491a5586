use riscv_emu::vector::fixed_point::{FixedPointOp, NarrowingClipOp};
use riscv_emu::vector::types::{FixedPointRoundingMode, Vlmul, Vsew};
use riscv_emu::vector::unit::Vector;

trait Elem: Copy + PartialEq + std::fmt::Debug {
    const WIDTH: usize;
    fn put(self, out: &mut Vec<u8>);
    fn take(bytes: &[u8]) -> Self;
}

impl Elem for u8 {
    const WIDTH: usize = 1;
    fn put(self, out: &mut Vec<u8>) {
        out.push(self);
    }
    fn take(bytes: &[u8]) -> Self {
        bytes[0]
    }
}

impl Elem for u16 {
    const WIDTH: usize = 2;
    fn put(self, out: &mut Vec<u8>) {
        out.extend_from_slice(&self.to_le_bytes());
    }
    fn take(bytes: &[u8]) -> Self {
        u16::from_le_bytes([bytes[0], bytes[1]])
    }
}

impl Elem for u32 {
    const WIDTH: usize = 4;
    fn put(self, out: &mut Vec<u8>) {
        out.extend_from_slice(&self.to_le_bytes());
    }
    fn take(bytes: &[u8]) -> Self {
        u32::from_le_bytes([bytes[0], bytes[1], bytes[2], bytes[3]])
    }
}

impl Elem for u64 {
    const WIDTH: usize = 8;
    fn put(self, out: &mut Vec<u8>) {
        out.extend_from_slice(&self.to_le_bytes());
    }
    fn take(bytes: &[u8]) -> Self {
        let mut b = [0u8; 8];
        b.copy_from_slice(&bytes[..8]);
        u64::from_le_bytes(b)
    }
}

/// A vector unit configured as `config(vlmul, vsew, mask_agnostic, tail_agnostic, vl)`.
fn vector_with(vlmul: Vlmul, vsew: Vsew, mask_agnostic: bool, tail_agnostic: bool, vl: u16) -> Vector {
    let mut vector = Vector::new();
    vector.set_config((vlmul, vsew, tail_agnostic, mask_agnostic, vl));
    vector
}

/// Writes `values` at the start of the group of `lmul` registers at `idx`.
fn reg<T: Elem>(vector: &mut Vector, lmul: u8, idx: u8, values: &[T]) {
    let mut bytes = Vec::new();
    for v in values {
        v.put(&mut bytes);
    }
    assert!(vector.regs.write_group(lmul, idx, &bytes));
}

/// The elements of the group of `lmul` registers at `idx`.
fn read_reg<T: Elem>(vector: &Vector, lmul: u8, idx: u8) -> Vec<T> {
    let bytes = vector.regs.read_group(lmul, idx).unwrap();
    bytes.chunks(T::WIDTH).map(T::take).collect()
}

/// Checks the whole group of `lmul` registers at `idx` against `expected`.
fn check_reg<T: Elem>(vector: &Vector, lmul: u8, idx: u8, expected: &[T]) {
    let got = read_reg::<T>(vector, lmul, idx);
    assert_eq!(got.len(), expected.len());
    for i in 0..got.len() {
        assert_eq!(got[i], expected[i], "Vector register #{idx} [{i}] incorrect");
    }
}

const VL_E8_M1: u16 = 16;

fn fresh(vector: &mut Vector, round: FixedPointRoundingMode) {
    vector.set_fixed_point_rounding_mode(round);
    vector.clear_fixed_point_accrued_saturation_flag();
}

#[test]
fn test_vector_op_saddu_vv_saturates() {
    let vs1 = [10u8, 2, 100, 0, 0, 0, 0, 0, 0, 0, 0, 0, 0, 0, 0, 0];
    let vs2 = [250u8, 1, 100, 0, 0, 0, 0, 0, 0, 0, 0, 0, 0, 0, 0, 0];
    let expected = [255u8, 3, 200, 0, 0, 0, 0, 0, 0, 0, 0, 0, 0, 0, 0, 0];
    let mut v = vector_with(Vlmul::M1, Vsew::E8, false, false, VL_E8_M1);
    reg(&mut v, 1, 8, &vs1);
    reg(&mut v, 1, 16, &vs2);
    fresh(&mut v, FixedPointRoundingMode::RoundToNearestUp);
    let round = v.fixed_point_rounding_mode();
    let saturated = v.exec_fixed_point_vv(FixedPointOp::Saddu, 8, 16, 24, false, round, 0).unwrap();
    assert!(saturated);
    assert!(v.fixed_point_accrued_saturation_flag());
    check_reg(&v, 1, 24, &expected);
}

#[test]
fn test_vector_op_sadd_vx_saturates_signed_min() {
    let vs2 = [0x85u8, 0x10, 0x7f, 0, 0, 0, 0, 0, 0, 0, 0, 0, 0, 0, 0, 0];
    let expected = [
        0x80u8, 0x00, 0x6f, 0xf0, 0xf0, 0xf0, 0xf0, 0xf0, 0xf0, 0xf0, 0xf0, 0xf0, 0xf0, 0xf0, 0xf0, 0xf0,
    ];
    let mut v = vector_with(Vlmul::M1, Vsew::E8, false, false, VL_E8_M1);
    reg(&mut v, 1, 16, &vs2);
    fresh(&mut v, FixedPointRoundingMode::RoundToNearestUp);
    let round = v.fixed_point_rounding_mode();
    let saturated = v.exec_fixed_point_vx(FixedPointOp::Sadd, 0xf0, 16, 24, false, round, 0).unwrap();
    assert!(saturated);
    check_reg(&v, 1, 24, &expected);
}

fn run_aaddu(round: FixedPointRoundingMode, expected: &[u8]) {
    let vs1 = [0u8, 2, 3, 0, 0, 0, 0, 0, 0, 0, 0, 0, 0, 0, 0, 0];
    let vs2 = [1u8, 3, 4, 0, 0, 0, 0, 0, 0, 0, 0, 0, 0, 0, 0, 0];
    let mut v = vector_with(Vlmul::M1, Vsew::E8, false, false, VL_E8_M1);
    reg(&mut v, 1, 8, &vs1);
    reg(&mut v, 1, 16, &vs2);
    fresh(&mut v, round);
    let round = v.fixed_point_rounding_mode();
    let saturated = v.exec_fixed_point_vv(FixedPointOp::Aaddu, 8, 16, 24, false, round, 0).unwrap();
    assert!(!saturated);
    check_reg(&v, 1, 24, expected);
}

#[test]
fn test_vector_op_aaddu_obeys_rounding_mode() {
    run_aaddu(
        FixedPointRoundingMode::RoundToNearestUp,
        &[1u8, 3, 4, 0, 0, 0, 0, 0, 0, 0, 0, 0, 0, 0, 0, 0],
    );
    run_aaddu(
        FixedPointRoundingMode::RoundDown,
        &[0u8, 2, 3, 0, 0, 0, 0, 0, 0, 0, 0, 0, 0, 0, 0, 0],
    );
}

fn run_vv(op: FixedPointOp, round: FixedPointRoundingMode, vs1: &[u8], vs2: &[u8], expected: &[u8], sat: bool) {
    let mut v = vector_with(Vlmul::M1, Vsew::E8, false, false, VL_E8_M1);
    reg(&mut v, 1, 8, vs1);
    reg(&mut v, 1, 16, vs2);
    fresh(&mut v, round);
    let round = v.fixed_point_rounding_mode();
    let saturated = v.exec_fixed_point_vv(op, 8, 16, 24, false, round, 0).unwrap();
    assert_eq!(saturated, sat);
    check_reg(&v, 1, 24, expected);
}

#[test]
fn test_vector_op_asub_keeps_extra_precision_before_rounding() {
    run_vv(
        FixedPointOp::Asub,
        FixedPointRoundingMode::RoundDown,
        &[0x80u8, 0, 0, 0, 0, 0, 0, 0, 0, 0, 0, 0, 0, 0, 0, 0],
        &[0x7fu8, 0, 0, 0, 0, 0, 0, 0, 0, 0, 0, 0, 0, 0, 0, 0],
        &[0x7fu8, 0, 0, 0, 0, 0, 0, 0, 0, 0, 0, 0, 0, 0, 0, 0],
        false,
    );
}

#[test]
fn test_vector_op_asubu_keeps_negative_difference_before_rounding() {
    run_vv(
        FixedPointOp::Asubu,
        FixedPointRoundingMode::RoundDown,
        &[1u8, 0, 0, 0, 0, 0, 0, 0, 0, 0, 0, 0, 0, 0, 0, 0],
        &[0u8, 0, 0, 0, 0, 0, 0, 0, 0, 0, 0, 0, 0, 0, 0, 0],
        &[0xffu8, 0, 0, 0, 0, 0, 0, 0, 0, 0, 0, 0, 0, 0, 0, 0],
        false,
    );
}

#[test]
fn test_vector_op_smul_rounds_and_saturates() {
    run_vv(
        FixedPointOp::Smul,
        FixedPointRoundingMode::RoundToNearestUp,
        &[0x80u8, 0x40, 0, 0, 0, 0, 0, 0, 0, 0, 0, 0, 0, 0, 0, 0],
        &[0x80u8, 0x40, 0, 0, 0, 0, 0, 0, 0, 0, 0, 0, 0, 0, 0, 0],
        &[0x7fu8, 0x20, 0, 0, 0, 0, 0, 0, 0, 0, 0, 0, 0, 0, 0, 0],
        true,
    );
}

#[test]
fn test_vector_op_ssrl_vi_rounds() {
    let vs2 = [3u8, 4, 5, 0, 0, 0, 0, 0, 0, 0, 0, 0, 0, 0, 0, 0];
    let expected = [2u8, 2, 3, 0, 0, 0, 0, 0, 0, 0, 0, 0, 0, 0, 0, 0];
    let mut v = vector_with(Vlmul::M1, Vsew::E8, false, false, VL_E8_M1);
    reg(&mut v, 1, 16, &vs2);
    fresh(&mut v, FixedPointRoundingMode::RoundToNearestUp);
    let round = v.fixed_point_rounding_mode();
    let saturated = v.exec_fixed_point_vx(FixedPointOp::Ssrl, 1, 16, 24, false, round, 0).unwrap();
    assert!(!saturated);
    check_reg(&v, 1, 24, &expected);
}

#[test]
fn test_vector_op_nclipu_wv_saturates() {
    let vs1 = [0u8, 1, 0, 0, 0, 0, 0, 0, 0, 0, 0, 0, 0, 0, 0, 0];
    let vs2 = [0x01ffu16, 0x01ff, 0x007f, 0, 0, 0, 0, 0, 0, 0, 0, 0, 0, 0, 0, 0];
    let expected = [0xffu8, 0xff, 0x7f, 0, 0, 0, 0, 0, 0, 0, 0, 0, 0, 0, 0, 0];
    let mut v = vector_with(Vlmul::M1, Vsew::E8, false, false, VL_E8_M1);
    reg(&mut v, 1, 8, &vs1);
    reg(&mut v, 2, 16, &vs2);
    fresh(&mut v, FixedPointRoundingMode::RoundToNearestUp);
    let round = v.fixed_point_rounding_mode();
    let saturated = v.exec_fixed_point_narrowing_wv(NarrowingClipOp::Nclipu, 8, 16, 24, false, round, 0).unwrap();
    assert!(saturated);
    check_reg(&v, 1, 24, &expected);
}

#[test]
fn test_vector_op_nclip_wx_saturates_signed() {
    let vs2 = [200u16, (-200i16) as u16, 64u16, 0, 0, 0, 0, 0, 0, 0, 0, 0, 0, 0, 0, 0];
    let expected = [0x7fu8, 0x80, 64, 0, 0, 0, 0, 0, 0, 0, 0, 0, 0, 0, 0, 0];
    let mut v = vector_with(Vlmul::M1, Vsew::E8, false, false, VL_E8_M1);
    reg(&mut v, 2, 16, &vs2);
    fresh(&mut v, FixedPointRoundingMode::RoundDown);
    let round = v.fixed_point_rounding_mode();
    let saturated = v.exec_fixed_point_narrowing_vx(NarrowingClipOp::Nclip, 0, 16, 24, false, round, 0).unwrap();
    assert!(saturated);
    check_reg(&v, 1, 24, &expected);
}

#[test]
fn test_vector_op_nclipu_fractional_lmul_overlap_check() {
    let vs1 = [0u8, 0, 0, 0, 0, 0, 0, 0, 0, 0, 0, 0, 0, 0, 0, 0];
    let vs2 = [1u16, 2, 3, 4, 0, 0, 0, 0];
    let expected = [1u8, 2, 3, 4, 0, 0, 0, 0, 0, 0, 0, 0, 0, 0, 0, 0];
    let mut v = vector_with(Vlmul::Mf2, Vsew::E8, false, false, 4);
    reg(&mut v, 1, 8, &vs1);
    reg(&mut v, 1, 2, &vs2);
    fresh(&mut v, FixedPointRoundingMode::RoundDown);
    let round = v.fixed_point_rounding_mode();
    let saturated = v.exec_fixed_point_narrowing_wv(NarrowingClipOp::Nclipu, 8, 2, 3, false, round, 0).unwrap();
    assert!(!saturated);
    check_reg(&v, 1, 3, &expected);
}

#[test]
fn saturation_flag_accrues_across_instructions() {
    let mut v = vector_with(Vlmul::M1, Vsew::E8, false, false, VL_E8_M1);
    reg(&mut v, 1, 8, &[200u8; 16]);
    reg(&mut v, 1, 16, &[100u8; 16]);
    fresh(&mut v, FixedPointRoundingMode::RoundDown);
    assert!(v.exec_fixed_point_vv(FixedPointOp::Saddu, 8, 16, 24, false, FixedPointRoundingMode::RoundDown, 0).unwrap());
    reg(&mut v, 1, 8, &[1u8; 16]);
    assert!(!v.exec_fixed_point_vv(FixedPointOp::Saddu, 8, 16, 24, false, FixedPointRoundingMode::RoundDown, 0).unwrap());
    assert!(v.fixed_point_accrued_saturation_flag());
    check_reg(&v, 1, 24, &[101u8; 16]);
}
