use riscv_emu::ram::{Ram, BASE_ADDR};
use riscv_emu::vector::mask::write_mask_bit;
use riscv_emu::vector::memory::{decode_whole_register_count, VectorMemException};
use riscv_emu::vector::regfile::VLEN_BYTE;
use riscv_emu::vector::types::{Vlmul, Vsew};
use riscv_emu::vector::unit::{Exception, Vector};

trait Elem: Copy + PartialEq + std::fmt::Debug {
    const WIDTH: usize;
    fn put(self, out: &mut Vec<u8>);
    fn take(bytes: &[u8]) -> Self;
}

impl Elem for u8 {
    const WIDTH: usize = 1;
    fn put(self, out: &mut Vec<u8>) {
        out.push(self);
    }
    fn take(bytes: &[u8]) -> Self {
        bytes[0]
    }
}

impl Elem for u16 {
    const WIDTH: usize = 2;
    fn put(self, out: &mut Vec<u8>) {
        out.extend_from_slice(&self.to_le_bytes());
    }
    fn take(bytes: &[u8]) -> Self {
        u16::from_le_bytes([bytes[0], bytes[1]])
    }
}

impl Elem for u32 {
    const WIDTH: usize = 4;
    fn put(self, out: &mut Vec<u8>) {
        out.extend_from_slice(&self.to_le_bytes());
    }
    fn take(bytes: &[u8]) -> Self {
        u32::from_le_bytes([bytes[0], bytes[1], bytes[2], bytes[3]])
    }
}

impl Elem for u64 {
    const WIDTH: usize = 8;
    fn put(self, out: &mut Vec<u8>) {
        out.extend_from_slice(&self.to_le_bytes());
    }
    fn take(bytes: &[u8]) -> Self {
        let mut b = [0u8; 8];
        b.copy_from_slice(&bytes[..8]);
        u64::from_le_bytes(b)
    }
}

/// A vector unit configured as `config(vlmul, vsew, mask_agnostic, tail_agnostic, vl)`.
fn vector_with(vlmul: Vlmul, vsew: Vsew, mask_agnostic: bool, tail_agnostic: bool, vl: u16) -> Vector {
    let mut vector = Vector::new();
    vector.set_config((vlmul, vsew, tail_agnostic, mask_agnostic, vl));
    vector
}

/// Writes `values` at the start of the group of `lmul` registers at `idx`.
fn reg<T: Elem>(vector: &mut Vector, lmul: u8, idx: u8, values: &[T]) {
    let mut bytes = Vec::new();
    for v in values {
        v.put(&mut bytes);
    }
    assert!(vector.regs.write_group(lmul, idx, &bytes));
}

/// The elements of the group of `lmul` registers at `idx`.
fn read_reg<T: Elem>(vector: &Vector, lmul: u8, idx: u8) -> Vec<T> {
    let bytes = vector.regs.read_group(lmul, idx).unwrap();
    bytes.chunks(T::WIDTH).map(T::take).collect()
}

/// Checks the whole group of `lmul` registers at `idx` against `expected`.
fn check_reg<T: Elem>(vector: &Vector, lmul: u8, idx: u8, expected: &[T]) {
    let got = read_reg::<T>(vector, lmul, idx);
    assert_eq!(got.len(), expected.len());
    for i in 0..got.len() {
        assert_eq!(got[i], expected[i], "Vector register #{idx} [{i}] incorrect");
    }
}

impl Elem for i16 {
    const WIDTH: usize = 2;
    fn put(self, out: &mut Vec<u8>) {
        out.extend_from_slice(&self.to_le_bytes());
    }
    fn take(bytes: &[u8]) -> Self {
        i16::from_le_bytes([bytes[0], bytes[1]])
    }
}

impl Elem for i32 {
    const WIDTH: usize = 4;
    fn put(self, out: &mut Vec<u8>) {
        out.extend_from_slice(&self.to_le_bytes());
    }
    fn take(bytes: &[u8]) -> Self {
        i32::from_le_bytes([bytes[0], bytes[1], bytes[2], bytes[3]])
    }
}

fn mem_write<T: Elem>(ram: &mut Ram, addr: u64, value: T) {
    let mut bytes = Vec::new();
    value.put(&mut bytes);
    for (i, b) in bytes.iter().enumerate() {
        ram.write_byte(*b, addr - BASE_ADDR + i as u64);
    }
}

fn mem_read<T: Elem>(ram: &Ram, addr: u64) -> T {
    let off = (addr - BASE_ADDR) as usize;
    T::take(&ram.as_bytes()[off..off + T::WIDTH])
}

fn even_mask(count: usize) -> Vec<u8> {
    let mut mask = vec![0u8; VLEN_BYTE];
    for i in 0..count {
        write_mask_bit(&mut mask, i, i % 2 == 0);
    }
    mask
}

#[test]
fn test_unit_stride_load() {
    let mut v = vector_with(Vlmul::M2, Vsew::E8, false, false, VLEN_BYTE as u16 * 2);
    let mut ram = Ram::new();
    for i in 0..128u64 {
        mem_write(&mut ram, BASE_ADDR + i, 1 + (i as u8).wrapping_mul(2));
    }

    // Seg = 1
    v.stride_load(2, Vsew::E8, 1, None, false, 0, BASE_ADDR, &ram).unwrap();
    let vector_ref = read_reg::<u8>(&v, 1, 3);
    assert_eq!(vector_ref[2], (1 + VLEN_BYTE * 2) as u8 + 2 * 2);

    // Seg = 2
    v.set_config((Vlmul::M1, Vsew::E8, false, false, VLEN_BYTE as u16));
    v.stride_load(2, Vsew::E8, 2, None, false, 0, BASE_ADDR, &ram).unwrap();
    let vector_ref = read_reg::<u8>(&v, 1, 3);
    assert_eq!(vector_ref[2], 3 + 2 * 4);
}

#[test]
fn test_unit_stride_store() {
    let store_addr = BASE_ADDR + 0x1000;
    let test_values: Vec<u8> = (0..VLEN_BYTE * 2).map(|i| (i * 3 + 1) as u8).collect();
    let mut v = vector_with(Vlmul::M2, Vsew::E8, false, false, VLEN_BYTE as u16 * 2);
    reg(&mut v, 2, 2, &test_values);
    let mut ram = Ram::new();
    v.stride_store(2, Vsew::E8, 1, None, false, 0, store_addr, &mut ram).unwrap();
    for (i, expected) in test_values.iter().copied().enumerate() {
        assert_eq!(mem_read::<u8>(&ram, store_addr + i as u64), expected, "M2 E8 mismatch at index {}", i);
    }

    const SEG_SIZE: u8 = 4;
    let elems_per_seg = VLEN_BYTE * 2 / 4;
    let total_elements = elems_per_seg * SEG_SIZE as usize;
    let test_values_seg: Vec<u32> = (0..total_elements).map(|i| (i.wrapping_add(1)) as u32).collect();
    v.set_config((Vlmul::M2, Vsew::E32, false, false, VLEN_BYTE as u16));
    for seg_idx in 0..SEG_SIZE as usize {
        let start = seg_idx * elems_per_seg;
        let end = start + elems_per_seg;
        reg(&mut v, 2, (2 * seg_idx) as u8, &test_values_seg[start..end]);
    }
    v.stride_store(0, Vsew::E32, SEG_SIZE, None, false, 0, store_addr, &mut ram).unwrap();
    for pos in 0..elems_per_seg {
        for seg_idx in 0..SEG_SIZE as usize {
            let idx = seg_idx * elems_per_seg + pos;
            let addr = store_addr + ((pos * SEG_SIZE as usize + seg_idx) * 4) as u64;
            assert_eq!(mem_read::<u32>(&ram, addr), test_values_seg[idx], "Seg={} mismatch at pos {}, seg {}", SEG_SIZE, pos, seg_idx);
        }
    }
    assert_eq!(mem_read::<u8>(&ram, BASE_ADDR), 0);
}

#[test]
fn test_indexed_ordered_load() {
    let index_arr_base = BASE_ADDR + 0x1000;
    let data_base = BASE_ADDR + 0x2000;
    let mut ram = Ram::new();
    for i in 0..VLEN_BYTE {
        mem_write(&mut ram, index_arr_base + (i * 4) as u64, (i * 4) as u32);
        mem_write(&mut ram, data_base + (i * 4) as u64, (i as u32) + 100);
    }
    let mut v = vector_with(Vlmul::M1, Vsew::E32, false, false, (VLEN_BYTE / 4) as u16);
    v.indexed_ordered_load(0, Vsew::E32, 1, index_arr_base, false, 0, data_base, &ram).unwrap();
    let expected: Vec<u32> = (0..(VLEN_BYTE / 4)).map(|i| i as u32 + 100).collect();
    check_reg(&v, 1, 0, &expected);
}

#[test]
fn test_indexed_ordered_store() {
    let index_arr_base = BASE_ADDR + 0x1000;
    let data_base = BASE_ADDR + 0x2000;
    let element_count = VLEN_BYTE / 4;
    let test_values: Vec<u32> = (0..element_count).map(|i| (i as u32) * 7 + 11).collect();
    let mut ram = Ram::new();
    for i in 0..VLEN_BYTE {
        mem_write(&mut ram, index_arr_base + (i * 4) as u64, (i * 4) as u32);
    }
    let mut v = vector_with(Vlmul::M1, Vsew::E32, false, false, element_count as u16);
    reg(&mut v, 1, 0, &test_values);
    v.indexed_ordered_store(0, Vsew::E32, 1, index_arr_base, false, 0, data_base, &mut ram).unwrap();
    for (i, expected) in test_values.iter().copied().enumerate() {
        assert_eq!(mem_read::<u32>(&ram, data_base + (i * 4) as u64), expected, "indexed store mismatch at index {}", i);
    }
}

#[test]
fn test_mask_unit_stride_load() {
    let base_addr = BASE_ADDR + 0x2000;
    let elem_cnt = VLEN_BYTE * 4 / 4;
    let mask_bytes = even_mask(elem_cnt);
    let init = vec![0xDEAD_BEEF_u32; elem_cnt];
    let mut ram = Ram::new();
    for i in 0..elem_cnt {
        mem_write(&mut ram, base_addr + (i * 4) as u64, (i as u32) + 100);
    }
    let mut v = vector_with(Vlmul::M4, Vsew::E32, false, false, elem_cnt as u16);
    reg(&mut v, 1, 0, &mask_bytes);
    reg(&mut v, 4, 8, &init);
    v.stride_load(8, Vsew::E32, 1, None, true, 0, base_addr, &ram).unwrap();
    let expected: Vec<u32> = (0..elem_cnt).map(|i| if i % 2 == 0 { (i as u32) + 100 } else { 0xDEAD_BEEF_u32 }).collect();
    check_reg(&v, 4, 8, &expected);
}

#[test]
fn test_tail_agnostic_unit_stride_load() {
    let base_addr = BASE_ADDR + 0x2400;
    let elem_cnt = VLEN_BYTE / 4;
    let active_elem_cnt = elem_cnt / 2;
    let init = vec![0xDEAD_BEEF_u32; elem_cnt];
    let mut ram = Ram::new();
    for i in 0..elem_cnt {
        mem_write(&mut ram, base_addr + (i * 4) as u64, (i as u32) + 100);
    }
    let mut v = vector_with(Vlmul::M1, Vsew::E32, false, true, active_elem_cnt as u16);
    reg(&mut v, 1, 8, &init);
    v.stride_load(8, Vsew::E32, 1, None, false, 0, base_addr, &ram).unwrap();
    let expected: Vec<u32> = (0..elem_cnt).map(|i| if i < active_elem_cnt { (i as u32) + 100 } else { 0 }).collect();
    check_reg(&v, 1, 8, &expected);
}

#[test]
fn test_mask_unit_stride_store() {
    let base_addr = BASE_ADDR + 0x2000;
    let elem_cnt = VLEN_BYTE * 4 / 4;
    let mask_bytes = even_mask(elem_cnt);
    let src: Vec<u32> = (0..elem_cnt).map(|i| (i as u32) * 11 + 7).collect();
    let mut ram = Ram::new();
    for i in 0..elem_cnt {
        mem_write(&mut ram, base_addr + (i * 4) as u64, 0u32);
    }
    let mut v = vector_with(Vlmul::M4, Vsew::E32, false, false, elem_cnt as u16);
    reg(&mut v, 1, 0, &mask_bytes);
    reg(&mut v, 4, 8, &src);
    v.stride_store(8, Vsew::E32, 1, None, true, 0, base_addr, &mut ram).unwrap();
    for i in 0..elem_cnt {
        let expected = if i % 2 == 0 { src[i] } else { 0u32 };
        assert_eq!(mem_read::<u32>(&ram, base_addr + (i * 4) as u64), expected, "mask store mismatch at index {}", i);
    }
}

#[test]
fn test_mask_agnostic_unit_stride_store_does_not_touch_masked_elements() {
    let base_addr = BASE_ADDR + 0x2800;
    let elem_cnt = VLEN_BYTE / 4;
    let mask_bytes = even_mask(elem_cnt);
    let src: Vec<u32> = (0..elem_cnt).map(|i| (i as u32) * 11 + 7).collect();
    let mut ram = Ram::new();
    for i in 0..elem_cnt {
        mem_write(&mut ram, base_addr + (i * 4) as u64, 0xCAFE_BABEu32);
    }
    let mut v = vector_with(Vlmul::M1, Vsew::E32, true, false, elem_cnt as u16);
    reg(&mut v, 1, 0, &mask_bytes);
    reg(&mut v, 1, 8, &src);
    v.stride_store(8, Vsew::E32, 1, None, true, 0, base_addr, &mut ram).unwrap();
    for i in 0..elem_cnt {
        let expected = if i % 2 == 0 { src[i] } else { 0xCAFE_BABEu32 };
        assert_eq!(mem_read::<u32>(&ram, base_addr + (i * 4) as u64), expected, "mask agnostic store mismatch at index {}", i);
    }
}

#[test]
fn test_load_whole_register() {
    let base_addr = BASE_ADDR + 0x3000;
    let test_values: Vec<u64> = (0..(VLEN_BYTE * 8 / 8)).map(|i| 0x1000_0000_0000_0000u64 + i as u64).collect();
    let mut ram = Ram::new();
    for (i, value) in test_values.iter().enumerate() {
        mem_write(&mut ram, base_addr + (i * 8) as u64, *value);
    }
    let mut v = vector_with(Vlmul::M1, Vsew::E8, true, true, 1);
    v.load_whole_register(8, 7, 0, base_addr, &ram).unwrap();
    check_reg(&v, 8, 8, &test_values);
}

#[test]
fn test_store_whole_register() {
    let base_addr = BASE_ADDR + 0x4000;
    let test_values: Vec<u64> = (0..(VLEN_BYTE * 8 / 8)).map(|i| 0x2000_0000_0000_0000u64 + (i as u64) * 3).collect();
    let mut v = vector_with(Vlmul::M1, Vsew::E8, true, true, 1);
    reg(&mut v, 8, 8, &test_values);
    let mut ram = Ram::new();
    v.store_whole_register(8, 7, 0, base_addr, &mut ram).unwrap();
    for (i, expected) in test_values.iter().copied().enumerate() {
        assert_eq!(mem_read::<u64>(&ram, base_addr + (i * 8) as u64), expected, "whole register store mismatch at index {}", i);
    }
}

#[test]
fn load_fault_reports_the_element_and_keeps_earlier_ones() {
    // The third element lies past the end of RAM.
    let base_addr = BASE_ADDR + riscv_emu::ram::RAM_SIZE as u64 - 8;
    let mut ram = Ram::new();
    mem_write(&mut ram, base_addr, 0x1111_2222u32);
    mem_write(&mut ram, base_addr + 4, 0x3333_4444u32);
    let mut v = vector_with(Vlmul::M1, Vsew::E32, false, false, 4);
    reg(&mut v, 1, 8, &[9u32, 9, 9, 9]);
    let r = v.stride_load(8, Vsew::E32, 1, None, false, 0, base_addr, &ram);
    assert_eq!(r, Err(VectorMemException::Memory { fault_index: 2, exception: Exception::LoadAccessFault }));
    assert_eq!(r.unwrap_err().fault_index(), Some(2));
    assert_eq!(r.unwrap_err().exception(), Exception::LoadAccessFault);
    check_reg(&v, 1, 8, &[0x1111_2222u32, 0x3333_4444, 9, 9]);
}

#[test]
fn masked_off_elements_do_not_fault() {
    // With a stride of 6 the odd elements are misaligned.
    let ram = Ram::new();
    let mut v = vector_with(Vlmul::M1, Vsew::E32, false, false, 4);
    let r = v.stride_load(8, Vsew::E32, 1, Some(6), false, 0, BASE_ADDR, &ram);
    assert_eq!(r, Err(VectorMemException::Memory { fault_index: 1, exception: Exception::LoadAddressMisaligned }));
    // Masking them off removes the fault.
    let mut v = vector_with(Vlmul::M1, Vsew::E32, false, false, 4);
    reg(&mut v, 1, 0, &even_mask(4));
    v.stride_load(8, Vsew::E32, 1, Some(6), true, 0, BASE_ADDR, &ram).unwrap();
    let mut ram = Ram::new();
    let r = v.stride_store(8, Vsew::E32, 1, Some(6), true, 0, BASE_ADDR + 2, &mut ram);
    assert_eq!(r, Err(VectorMemException::Memory { fault_index: 0, exception: Exception::StoreAddressMisaligned }));
}

#[test]
fn resumed_load_skips_completed_elements() {
    let mut ram = Ram::new();
    for i in 0..4u64 {
        mem_write(&mut ram, BASE_ADDR + i * 4, 100 + i as u32);
    }
    let mut v = vector_with(Vlmul::M1, Vsew::E32, false, false, 4);
    reg(&mut v, 1, 8, &[7u32, 7, 7, 7]);
    v.stride_load(8, Vsew::E32, 1, None, false, 2, BASE_ADDR, &ram).unwrap();
    check_reg(&v, 1, 8, &[7u32, 7, 102, 103]);
}

#[test]
fn illegal_groups_and_counts_are_refused() {
    assert_eq!(decode_whole_register_count(0), Ok(1));
    assert_eq!(decode_whole_register_count(3), Ok(4));
    assert_eq!(decode_whole_register_count(2), Err(Exception::IllegalInstruction));
    let mut v = vector_with(Vlmul::M2, Vsew::E8, false, false, 4);
    let ram = Ram::new();
    assert_eq!(
        v.stride_load(3, Vsew::E8, 1, None, false, 0, BASE_ADDR, &ram),
        Err(VectorMemException::Other(Exception::IllegalInstruction))
    );
    assert_eq!(
        v.load_whole_register(3, 1, 0, BASE_ADDR, &ram),
        Err(VectorMemException::Other(Exception::IllegalInstruction))
    );
    assert_eq!(
        v.load_whole_register(0, 5, 0, BASE_ADDR, &ram),
        Err(VectorMemException::Other(Exception::IllegalInstruction))
    );
}

#[test]
fn segmented_store_read_back_by_load_gives_the_stored_elements() {
    let addr = BASE_ADDR + 0x400;
    let mut ram = Ram::new();
    let mut v = vector_with(Vlmul::M1, Vsew::E16, false, false, (VLEN_BYTE / 2) as u16);
    let field0: Vec<u16> = (0..VLEN_BYTE / 2).map(|i| 0x1000 + i as u16).collect();
    let field1: Vec<u16> = (0..VLEN_BYTE / 2).map(|i| 0x2000 + i as u16).collect();
    reg(&mut v, 1, 4, &field0);
    reg(&mut v, 1, 5, &field1);
    v.stride_store(4, Vsew::E16, 2, None, false, 0, addr, &mut ram).unwrap();
    v.stride_load(8, Vsew::E16, 2, None, false, 0, addr, &ram).unwrap();
    check_reg(&v, 1, 8, &field0);
    check_reg(&v, 1, 9, &field1);
}

#[test]
fn masked_store_read_back_keeps_only_active_elements() {
    let addr = BASE_ADDR + 0x800;
    let mut ram = Ram::new();
    let mut v = vector_with(Vlmul::M1, Vsew::E32, false, false, 4);
    reg(&mut v, 1, 0, &even_mask(4));
    reg(&mut v, 1, 2, &[11u32, 22, 33, 44]);
    v.stride_store(2, Vsew::E32, 1, None, true, 0, addr, &mut ram).unwrap();
    reg(&mut v, 1, 3, &[9u32, 9, 9, 9]);
    v.stride_load(3, Vsew::E32, 1, None, true, 0, addr, &ram).unwrap();
    let got = read_reg::<u32>(&v, 1, 3);
    assert_eq!(&got[..4], &[11u32, 9, 33, 9]);
    assert_eq!(mem_read::<u32>(&ram, addr + 4), 0);
}
