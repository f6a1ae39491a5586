use riscv_emu::address::{parse_address, AddressError};
use riscv_emu::device::{DeviceConfig, DeviceConfigError, VirtIODeviceID};
use riscv_emu::logging::LogLevel;
use riscv_emu::ram::{Ram, RAM_SIZE};
use riscv_emu::utils::{
    check_align, clear_bit, concat_arrays, concat_to_u64, negative_of, read_bit, set_bit, sign_extend,
    sign_extend_u32, wrapping_add_as_signed, TruncateFrom, TruncateToBits,
};
use riscv_emu::vclock::{Timer, VirtualClockRef};
use riscv_emu::vector::regfile::{VectorRegFile, VLEN_BYTE};
use riscv_emu::vector::types::{Vlmul, Vsew, NFIELDS};

#[test]
fn test_sign_extend() {
    assert_eq!(sign_extend(0x123, 12), 0x123);
    assert_eq!(sign_extend(0x7FF, 12), 0x7FF);
    assert_eq!(sign_extend(0xFFF, 12), !0u64);
    assert_eq!(sign_extend(0xF0F, 12), (!0u64 - 0xF0));
}

#[test]
fn test_negative_of() {
    assert_eq!(negative_of(0), 0);
    assert_eq!(negative_of(1), !0u64);
    assert_eq!(negative_of(2), !0u64 - 1);
}

#[test]
fn test_truncate() {
    assert_eq!(u8::truncate_from(0x1234u32), 0x34u8);
    assert_eq!(0x1234567812345678u64.truncate_to_bits(32), 0x12345678u64);
    assert_eq!(0x1234567812345678u64.truncate_to_bits(64), 0x1234567812345678u64);
}

#[test]
fn negating_twice_gives_the_word_back() {
    for x in [0u64, 1, 2, 0x8000_0000_0000_0000, u64::MAX, 0x1234_5678_9abc_def0] {
        assert_eq!(negative_of(negative_of(x)), x);
    }
}

#[test]
fn sign_extension_helpers() {
    assert_eq!(sign_extend_u32(0x8000_0000), 0xffff_ffff_8000_0000);
    assert_eq!(sign_extend_u32(0x7fff_ffff), 0x7fff_ffff);
    assert_eq!(sign_extend(0x80, 8), 0xffff_ffff_ffff_ff80);
    assert_eq!(sign_extend(u64::MAX, 64), u64::MAX);
    assert_eq!(wrapping_add_as_signed(u64::MAX, 2), 1);
}

#[test]
fn alignment_and_bits() {
    assert!(check_align(0x1000, 8));
    assert!(!check_align(0x1004, 8));
    assert!(check_align(0x1003, 1));
    assert!(check_align(0x1002, 2));
    assert!(!check_align(0x1001, 2));
    assert!(check_align(0, 3));
    assert!(!check_align(4, 3));
    let mut word = 0u64;
    set_bit(&mut word, 63);
    set_bit(&mut word, 1);
    assert_eq!(word, 0x8000_0000_0000_0002);
    assert!(read_bit(&word, 63));
    assert!(!read_bit(&word, 2));
    clear_bit(&mut word, 63);
    assert_eq!(word, 2);
    assert_eq!(concat_to_u64(0x1234_5678, 0x9abc_def0), 0x1234_5678_9abc_def0);
    assert_eq!(concat_arrays(&vec!["a", "b"], &vec!["c"]), vec!["a", "b", "c"]);
    assert_eq!(0xabcdu16.truncate_to_bits(4), 0xd);
    assert_eq!(u16::truncate_from(0x1_2345u64), 0x2345);
}

#[test]
fn test_ram_new() {
    let r = Ram::new();
    assert_eq!(r.as_bytes().len(), RAM_SIZE);
    for byte in r.as_bytes().iter() {
        assert_eq!(*byte, 0);
    }
}

#[test]
fn test_insert_section_and_read() {
    let mut r = Ram::new();
    let base = 0x00;
    let section = vec![0x12u8, 0x34, 0x56, 0x78, 0x9A, 0xBC, 0xDE, 0xF0];
    r.insert_section(&section, base);
    for (i, &v) in section.iter().enumerate() {
        assert_eq!(r.as_bytes()[i], v);
    }
    assert_eq!(r.read_byte(base), 0x12);
    assert_eq!(r.read_word(base), 0x3412);
    assert_eq!(r.read_dword(base), 0x78563412);
    assert_eq!(r.read_qword(base), 0xF0DEBC9A78563412);
}

#[test]
fn test_write_byte() {
    let mut ram = Ram::new();
    ram.write_byte(0xAB, 0x00);
    assert_eq!(ram.as_bytes()[0], 0xAB);

    ram.write_word(0x1234, 0x00);
    assert_eq!(ram.as_bytes()[0], 0x34);
    assert_eq!(ram.as_bytes()[1], 0x12);

    ram.write_dword(0x12345678, 0x00);
    assert_eq!(ram.as_bytes()[0], 0x78);
    assert_eq!(ram.as_bytes()[1], 0x56);
    assert_eq!(ram.as_bytes()[2], 0x34);
    assert_eq!(ram.as_bytes()[3], 0x12);

    ram.write_qword(0x1122334455667788, 0x00);
    assert_eq!(ram.as_bytes()[0], 0x88);
    assert_eq!(ram.as_bytes()[1], 0x77);
    assert_eq!(ram.as_bytes()[2], 0x66);
    assert_eq!(ram.as_bytes()[3], 0x55);
    assert_eq!(ram.as_bytes()[4], 0x44);
    assert_eq!(ram.as_bytes()[5], 0x33);
    assert_eq!(ram.as_bytes()[6], 0x22);
    assert_eq!(ram.as_bytes()[7], 0x11);
}

#[test]
fn a_read_gives_back_what_a_write_wrote() {
    let mut ram = Ram::new();
    ram.write_qword(0x0102_0304_0506_0708, 0x40);
    ram.write_word(0xbeef, 0x4a);
    assert_eq!(ram.read_qword(0x40), 0x0102_0304_0506_0708);
    assert_eq!(ram.read_word(0x4a), 0xbeef);
    assert_eq!(ram.read_word(0x48), 0);
    assert_eq!(ram.load(0x44, 4), 0x0102_0304);
    ram.store(0x44, 4, 0xdead_beef);
    assert_eq!(ram.read_dword(0x44), 0xdead_beef);
    assert_eq!(ram.read_dword(0x40), 0x0506_0708);
}

#[test]
fn vector_type_encodings() {
    assert_eq!(Vlmul::from_bits(0), Some(Vlmul::M1));
    assert_eq!(Vlmul::from_bits(7), Some(Vlmul::Mf2));
    assert_eq!(Vlmul::from_bits(4), None);
    assert_eq!(Vlmul::M8.get_lmul(), 8);
    assert_eq!(Vsew::from_bits(3), Some(Vsew::E64));
    assert_eq!(Vsew::from_bits(4), None);
    assert_eq!(Vsew::E32.get_sew(), 4);
    assert_eq!(Vsew::E16.into_byte_width(), 2);
    for v in [Vsew::E8, Vsew::E16, Vsew::E32, Vsew::E64] {
        assert_eq!(Vsew::from_byte_width(v.into_byte_width()), Some(v));
    }
    assert_eq!(Vsew::from_byte_width(3), None);
    assert_eq!(NFIELDS::new(3).encode(), 4);
}

#[test]
fn timer_fires_due_tasks_in_order() {
    let mut timer = Timer::new(VirtualClockRef::new());
    let a = timer.register();
    let b = timer.register();
    let c = timer.register();
    timer.set_due(a, 30);
    timer.set_due(b, 10);
    timer.set_delay(c, 50);
    assert_eq!(timer.next_due(), Some(10));
    timer.advance(5);
    assert!(timer.tick().is_empty());
    timer.set_time(30);
    assert_eq!(timer.tick(), vec![b, a]);
    assert_eq!(timer.next_due(), Some(50));
    timer.advance(20);
    assert_eq!(timer.now(), 50);
    assert_eq!(timer.tick(), vec![c]);
    assert_eq!(timer.next_due(), Some(u64::MAX));
    assert_eq!(Timer::new(VirtualClockRef::new()).next_due(), None);
}

#[test]
fn clock_wraps_around() {
    let mut clock = VirtualClockRef::new();
    clock.set(u64::MAX);
    clock.advance(2);
    assert_eq!(clock.now(), 1);
}

#[test]
fn addresses_parse_like_the_command_line() {
    assert_eq!(parse_address("0x9f00_0000"), Ok(0x9f00_0000));
    assert_eq!(parse_address("  4096\t"), Ok(4096));
    assert_eq!(parse_address("1_000"), Ok(1000));
    assert_eq!(parse_address("0XFF"), Ok(255));
    assert_eq!(parse_address("0X1_0"), Err(AddressError::InvalidDigit));
    assert_eq!(parse_address("+17"), Ok(17));
    assert_eq!(parse_address("0x"), Err(AddressError::Empty));
    assert_eq!(parse_address(""), Err(AddressError::Empty));
    assert_eq!(parse_address("+"), Err(AddressError::InvalidDigit));
    assert_eq!(parse_address("-1"), Err(AddressError::InvalidDigit));
    assert_eq!(parse_address("12a"), Err(AddressError::InvalidDigit));
    assert_eq!(parse_address("0xffff_ffff_ffff_ffff"), Ok(u64::MAX));
    assert_eq!(parse_address("18446744073709551616"), Err(AddressError::Overflow));
    assert_eq!(parse_address("99999999999999999999z"), Err(AddressError::Overflow));
}

#[test]
fn log_level_names() {
    assert_eq!(LogLevel::Trace.name(), "trace");
    assert_eq!(LogLevel::Debug.name(), "debug");
    assert_eq!(LogLevel::Info.name(), "info");
    assert_eq!(LogLevel::Warn.name(), "warn");
    assert_eq!(LogLevel::Error.name(), "error");
}

#[test]
fn vector_type_test() {
    let sew = Vsew::E16.get_sew() as usize;

    let value: Vec<u8> = (0..(2 * VLEN_BYTE)).map(|i| if i % 2 == 0 { 0 } else { i as u8 }).collect();
    let mut regs = VectorRegFile::new();
    assert!(regs.write_group(2, 0, &value));
    assert_eq!(regs.read_elem(3 * sew, sew), (3 * 2 + 1) << 8);

    let value_mut: Vec<u8> = (0..(4 * VLEN_BYTE)).map(|i| if i % 2 == 0 { 0 } else { i as u8 }).collect();
    let base = 4 * VLEN_BYTE;
    assert!(regs.write_group(Vlmul::M4.get_lmul(), 4, &value_mut));
    assert_eq!(regs.read_elem(base + 3 * sew, sew), (3 * 2 + 1) << 8);
    regs.write_elem(base + 3 * sew, sew, 3);
    assert_eq!(regs.read_elem(base + 3 * sew, sew), 3);

    let count = value_mut.len() / sew;
    for i in 0..count {
        regs.write_elem(base + i * sew, sew, (i * 4) as u64);
    }
    for i in 0..count {
        assert_eq!(regs.read_elem(base + i * sew, sew), i as u64 * 4);
    }
}

#[test]
fn device_arguments() {
    assert_eq!(
        DeviceConfig::from_str("virtio-block:/tmp/img_blk"),
        Ok(DeviceConfig { dev_type: VirtIODeviceID::Block, path: "/tmp/img_blk".to_string() })
    );
    assert_eq!(
        DeviceConfig::from_str("virtio-network:a:b"),
        Ok(DeviceConfig { dev_type: VirtIODeviceID::Network, path: "a".to_string() })
    );
    assert_eq!(
        DeviceConfig::from_str("virtio-block:"),
        Ok(DeviceConfig { dev_type: VirtIODeviceID::Block, path: String::new() })
    );
    assert_eq!(DeviceConfig::from_str("virtio-block"), Err(DeviceConfigError::MissingPath));
    assert_eq!(DeviceConfig::from_str("foo:bar"), Err(DeviceConfigError::UnknownType("foo".to_string())));
    assert_eq!(DeviceConfig::from_str(""), Err(DeviceConfigError::UnknownType(String::new())));
    assert_eq!(DeviceConfig::from_str("virtio-blockx:p"), Err(DeviceConfigError::UnknownType("virtio-blockx".to_string())));
}

#[test]
fn clock_advances_compose_with_wrapping() {
    let mut a = VirtualClockRef::new();
    a.set(u64::MAX - 5);
    a.advance(3);
    a.advance(10);
    let mut b = VirtualClockRef::new();
    b.set(u64::MAX - 5);
    b.advance(3u64.wrapping_add(10));
    assert_eq!(a.now(), b.now());
    assert_eq!(a.now(), 7);
    let mut c = VirtualClockRef::new();
    c.set(u64::MAX);
    c.advance(2);
    assert_eq!(c.now(), 1);
}
