use riscv_emu::load::{load_bin, ELFLoader, SymTab};
use riscv_emu::ram::{Ram, BASE_ADDR, RAM_SIZE};
use riscv_emu::signature::{read_signature, signature_range, SignatureError};

fn put16(out: &mut Vec<u8>, v: u16) {
    out.extend_from_slice(&v.to_le_bytes());
}
fn put32(out: &mut Vec<u8>, v: u32) {
    out.extend_from_slice(&v.to_le_bytes());
}
fn put64(out: &mut Vec<u8>, v: u64) {
    out.extend_from_slice(&v.to_le_bytes());
}
fn pad_to(out: &mut Vec<u8>, len: usize) {
    while out.len() < len {
        out.push(0);
    }
}

const TEXT: [u8; 16] = [0x13, 0x05, 0x50, 0x00, 0x93, 0x05, 0x10, 0x00, 0x6f, 0x00, 0x00, 0x00, 0xaa, 0xbb, 0xcc, 0xdd];

/// A small 64-bit RISC-V executable: one loadable segment holding `.text`
/// at `BASE_ADDR + 0x100`, and a symbol table with `main`,
/// `begin_signature` and `end_signature`.
fn tiny_elf() -> Vec<u8> {
    let shstrtab = b"\0.shstrtab\0.symtab\0.strtab\0.text\0";
    let strtab = b"\0main\0begin_signature\0end_signature\0";
    let text_off = 128usize;
    let shstr_off = text_off + TEXT.len();
    let str_off = shstr_off + shstrtab.len();
    let sym_off = (str_off + strtab.len() + 7) / 8 * 8;
    let symbols: [(u32, u64); 4] = [(0, 0), (1, BASE_ADDR + 0x100), (6, BASE_ADDR + 0x200), (22, BASE_ADDR + 0x210)];
    let sh_off = sym_off + symbols.len() * 24;

    let mut f = Vec::new();
    f.extend_from_slice(&[0x7f, b'E', b'L', b'F', 2, 1, 1, 0, 0, 0, 0, 0, 0, 0, 0, 0]);
    put16(&mut f, 2); // executable
    put16(&mut f, 0xf3); // RISC-V
    put32(&mut f, 1);
    put64(&mut f, BASE_ADDR + 0x100); // entry
    put64(&mut f, 64); // program headers
    put64(&mut f, sh_off as u64); // section headers
    put32(&mut f, 0);
    put16(&mut f, 64);
    put16(&mut f, 56);
    put16(&mut f, 1);
    put16(&mut f, 64);
    put16(&mut f, 5);
    put16(&mut f, 2);
    // The loadable segment.
    put32(&mut f, 1);
    put32(&mut f, 5);
    put64(&mut f, text_off as u64);
    put64(&mut f, BASE_ADDR + 0x100);
    put64(&mut f, BASE_ADDR + 0x100);
    put64(&mut f, TEXT.len() as u64);
    put64(&mut f, TEXT.len() as u64);
    put64(&mut f, 8);
    pad_to(&mut f, text_off);
    f.extend_from_slice(&TEXT);
    f.extend_from_slice(shstrtab);
    f.extend_from_slice(strtab);
    pad_to(&mut f, sym_off);
    for (name, value) in symbols {
        put32(&mut f, name);
        f.push(0x12);
        f.push(0);
        put16(&mut f, 1);
        put64(&mut f, value);
        put64(&mut f, 0);
    }
    assert_eq!(f.len(), sh_off);
    // name, type, flags, addr, offset, size, link, info, align, entsize
    let sections: [(u32, u32, u64, u64, u64, u64, u32, u64); 5] = [
        (0, 0, 0, 0, 0, 0, 0, 0),
        (27, 1, 6, BASE_ADDR + 0x100, text_off as u64, TEXT.len() as u64, 0, 0),
        (1, 3, 0, 0, shstr_off as u64, shstrtab.len() as u64, 0, 0),
        (11, 2, 0, 0, sym_off as u64, (symbols.len() * 24) as u64, 4, 24),
        (19, 3, 0, 0, str_off as u64, strtab.len() as u64, 0, 0),
    ];
    for (name, kind, flags, addr, offset, size, link, entsize) in sections {
        put32(&mut f, name);
        put32(&mut f, kind);
        put64(&mut f, flags);
        put64(&mut f, addr);
        put64(&mut f, offset);
        put64(&mut f, size);
        put32(&mut f, link);
        put32(&mut f, if kind == 2 { 1 } else { 0 });
        put64(&mut f, 8);
        put64(&mut f, entsize);
    }
    f
}

#[test]
fn symbol_table_lookups() {
    let t = SymTab::from(&vec![
        ("main".to_string(), 0x8000_0000),
        ("foo".to_string(), 0x8000_0100),
        ("bar".to_string(), 0x8000_0200),
    ]);
    assert_eq!(t.func_addr_by_name("foo"), Some(0x8000_0100));
    assert_eq!(t.func_addr_by_name("baz"), None);
    assert_eq!(t.func_name_by_addr(0x8000_0200), Some(&"bar".to_string()));
    assert_eq!(t.func_name_by_addr(0x8000_0201), None);
    assert_eq!(t.func_name_in_addr_range(0x8000_0150), Some(&"foo".to_string()));
    assert_eq!(t.func_name_in_addr_range(0x8000_0200), Some(&"bar".to_string()));
    assert_eq!(t.func_name_in_addr_range(0x7fff_ffff), None);
    assert_eq!(t.iter().len(), 3);
}

#[test]
fn later_symbols_replace_earlier_ones() {
    let t = SymTab::from(&vec![
        ("a".to_string(), 1),
        ("b".to_string(), 2),
        ("a".to_string(), 3),
        ("c".to_string(), 2),
    ]);
    assert_eq!(t.func_addr_by_name("a"), Some(3));
    assert_eq!(t.func_addr_by_name("b"), None);
    assert_eq!(t.func_addr_by_name("c"), Some(2));
    assert_eq!(t.func_name_by_addr(1), None);
    assert_eq!(t.func_name_by_addr(2), Some(&"c".to_string()));
    let mut all = t.iter();
    all.sort();
    assert_eq!(all, vec![("a".to_string(), 3), ("c".to_string(), 2)]);
}

#[test]
fn raw_images_go_to_the_start_of_ram() {
    let mut ram = Ram::new();
    load_bin(&mut ram, &vec![1, 2, 3, 4]);
    assert_eq!(&ram.as_bytes()[..6], &[1, 2, 3, 4, 0, 0]);
    assert_eq!(ram.as_bytes().len(), RAM_SIZE);
}

#[test]
fn elf_files_are_recognised() {
    assert!(ELFLoader::try_new(vec![1, 2, 3]).is_none());
    assert!(ELFLoader::try_new(tiny_elf()).is_some());
}

#[test]
fn elf_sections_and_segments() {
    let loader = ELFLoader::try_new(tiny_elf()).unwrap();
    assert_eq!(loader.get_section_addr(".text"), Some(BASE_ADDR + 0x100));
    assert_eq!(loader.get_section_addr(".symtab"), Some(0));
    assert_eq!(loader.get_section_addr(".bss"), None);
    let mut ram = Ram::new();
    loader.load_to_ram(&mut ram);
    assert_eq!(&ram.as_bytes()[0x100..0x110], &TEXT);
    assert_eq!(ram.as_bytes()[0xff], 0);
    assert_eq!(ram.as_bytes()[0x110], 0);
}

#[test]
fn checked_loading_refuses_segments_outside_ram() {
    let loader = ELFLoader::try_new(tiny_elf()).unwrap();
    let mut ram = Ram::new();
    assert!(loader.try_load_to_ram(&mut ram));
    assert_eq!(&ram.as_bytes()[0x100..0x110], &TEXT);

    // Move the segment below RAM.
    let mut bad = tiny_elf();
    bad[80..88].copy_from_slice(&0x1000u64.to_le_bytes());
    let loader = ELFLoader::try_new(bad).unwrap();
    let mut ram = Ram::new();
    ram.write_byte(0x5a, 0x100);
    assert!(!loader.try_load_to_ram(&mut ram));
    assert_eq!(ram.as_bytes()[0x100], 0x5a);
    assert_eq!(ram.as_bytes()[0x101], 0);
}

#[test]
fn malformed_files_are_recognised_before_reading() {
    let loader = ELFLoader::try_new(tiny_elf()).unwrap();
    assert!(loader.section_search_safe(".text"));
    assert!(loader.section_search_safe(".bss"));
    assert!(loader.symbol_table_readable());

    // A section header entry smaller than a section header.
    let mut bad = tiny_elf();
    bad[58..60].copy_from_slice(&32u16.to_le_bytes());
    let loader = ELFLoader::try_new(bad).unwrap();
    assert!(!loader.section_search_safe(".text"));
    assert!(!loader.symbol_table_readable());

    // A misaligned program header table.
    let mut bad = tiny_elf();
    bad[32..40].copy_from_slice(&66u64.to_le_bytes());
    let loader = ELFLoader::try_new(bad).unwrap();
    let mut ram = Ram::new();
    assert!(!loader.try_load_to_ram(&mut ram));

    // A symbol name that runs past the end of `.strtab`.
    let mut bad = tiny_elf();
    let len = bad.len();
    let strtab_size_at = len - 64 + 32;
    bad[strtab_size_at..strtab_size_at + 8].copy_from_slice(&3u64.to_le_bytes());
    let loader = ELFLoader::try_new(bad).unwrap();
    assert!(loader.section_search_safe(".strtab"));
    assert!(!loader.symbol_table_readable());
}

#[test]
fn elf_symbol_table() {
    let loader = ELFLoader::try_new(tiny_elf()).unwrap();
    let t = loader.get_symbol_table().unwrap();
    assert_eq!(t.func_addr_by_name("main"), Some(BASE_ADDR + 0x100));
    assert_eq!(t.func_addr_by_name("end_signature"), Some(BASE_ADDR + 0x210));
    assert_eq!(t.func_name_by_addr(BASE_ADDR + 0x200), Some(&"begin_signature".to_string()));
    assert_eq!(t.func_name_in_addr_range(BASE_ADDR + 0x104), Some(&"main".to_string()));
}

#[test]
fn signature_of_an_elf() {
    let loader = ELFLoader::try_new(tiny_elf()).unwrap();
    let t = loader.get_symbol_table().unwrap();
    assert_eq!(signature_range(&t, 4), Ok((BASE_ADDR + 0x200, BASE_ADDR + 0x210, 4)));
    assert_eq!(signature_range(&t, 8), Ok((BASE_ADDR + 0x200, BASE_ADDR + 0x210, 8)));
    assert_eq!(signature_range(&t, 2), Err(SignatureError::UnsupportedGranularity(2)));
    let mut ram = Ram::new();
    ram.write_dword(0xdead_beef, 0x200);
    ram.write_dword(0x1234_5678, 0x20c);
    assert_eq!(
        read_signature(&ram, BASE_ADDR + 0x200, BASE_ADDR + 0x210, 4),
        Ok(vec![0xdead_beef, 0, 0, 0x1234_5678])
    );
    assert_eq!(
        read_signature(&ram, BASE_ADDR + 0x200, BASE_ADDR + 0x210, 8),
        Ok(vec![0xdead_beef, 0x1234_5678_0000_0000])
    );
}

#[test]
fn signature_errors() {
    let t = SymTab::from(&vec![("end_signature".to_string(), 0x10)]);
    assert_eq!(signature_range(&t, 4), Err(SignatureError::NoBegin));
    let t = SymTab::from(&vec![("begin_signature".to_string(), 0x10)]);
    assert_eq!(signature_range(&t, 4), Err(SignatureError::NoEnd));
    let t = SymTab::from(&vec![("begin_signature".to_string(), 0x20), ("end_signature".to_string(), 0x10)]);
    assert_eq!(signature_range(&t, 4), Err(SignatureError::InvalidRange { begin: 0x20, end: 0x10 }));
    let t = SymTab::from(&vec![("begin_signature".to_string(), 0x10), ("end_signature".to_string(), 0x1c)]);
    assert_eq!(signature_range(&t, 8), Err(SignatureError::Misaligned { size: 0xc, step: 8 }));
    let ram = Ram::new();
    assert_eq!(read_signature(&ram, 0x10, 0x1c, 4), Err(SignatureError::ReadFault(0x10)));
    let end = BASE_ADDR + RAM_SIZE as u64 + 8;
    assert_eq!(read_signature(&ram, end - 16, end, 4), Err(SignatureError::ReadFault(end - 8)));
}
