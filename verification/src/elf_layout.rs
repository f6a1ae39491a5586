//! The layout of an ELF file as its bytes give it, read little endian as
//! xmas-elf reads them on a little-endian machine: the header fields,
//! section and program headers, and the conditions under which xmas-elf
//! reads each part of a file without failing an assertion or an index.
//! xmas-elf reads headers, tables and strings in place; the file's bytes lie
//! in a `Vec<u8>`, whose buffer the allocator aligns to at least 8 bytes, so
//! a part is aligned exactly when its offset is a multiple of the alignment
//! of what is read there.

use vstd::prelude::*;
use vstd::utf8::valid_utf8;
use crate::bytes::{le, read_le_bytes};

verus! {

/// Whether the file is of the 64-bit class; a file that xmas-elf accepts is
/// otherwise of the 32-bit class.
pub open spec fn is64(d: Seq<u8>) -> bool {
    d[4] == 2
}

/// The header that xmas-elf accepts is present: the first 16 bytes, a class
/// byte of 1 or 2, and the rest of the header of that class.
pub open spec fn header_ok(d: Seq<u8>) -> bool {
    &&& d.len() >= 16
    &&& (d[4] == 2 && d.len() >= 64) || (d[4] == 1 && d.len() >= 52)
}

/// A header field at `off64` (`n64` bytes) in a 64-bit file, at `off32`
/// (`n32` bytes) in a 32-bit one.
pub open spec fn field(d: Seq<u8>, off64: int, n64: nat, off32: int, n32: nat) -> int {
    if is64(d) {
        le(d, off64, n64) as int
    } else {
        le(d, off32, n32) as int
    }
}

/// The offset of the section header table.
pub open spec fn sh_off(d: Seq<u8>) -> int {
    field(d, 40, 8, 32, 4)
}

/// The size of a section header entry.
pub open spec fn sh_es(d: Seq<u8>) -> int {
    field(d, 58, 2, 46, 2)
}

/// The index of the section that holds the section names.
pub open spec fn sh_strndx(d: Seq<u8>) -> int {
    field(d, 62, 2, 50, 2)
}

/// The offset of the program header table.
pub open spec fn ph_off(d: Seq<u8>) -> int {
    field(d, 32, 8, 28, 4)
}

/// The size of a program header entry.
pub open spec fn ph_es(d: Seq<u8>) -> int {
    field(d, 54, 2, 42, 2)
}

/// The number of program headers.
pub open spec fn ph_cnt(d: Seq<u8>) -> int {
    field(d, 56, 2, 44, 2)
}

/// The alignment of an address-sized word of the file's class.
pub open spec fn word_align(d: Seq<u8>) -> int {
    if is64(d) {
        8
    } else {
        4
    }
}

/// Where section header `i` starts.
pub open spec fn sh_start(d: Seq<u8>, i: int) -> int {
    i * sh_es(d) + sh_off(d)
}

/// Whether section header `i` lies within the file.
pub open spec fn sh_in_file(d: Seq<u8>, i: int) -> bool {
    sh_start(d, i) + sh_es(d) <= d.len()
}

/// Whether xmas-elf reads section header `i` without failing: the index is
/// below `0xff00`, the header's end fits in a `usize`, and a header within
/// the file is at least as large as the header type and aligned.
pub open spec fn sh_safe(d: Seq<u8>, i: int) -> bool {
    &&& 0 <= i < 0xff00
    &&& sh_start(d, i) + sh_es(d) <= usize::MAX
    &&& sh_in_file(d, i) ==> sh_es(d) >= (if is64(d) { 64int } else { 40int }) && sh_start(d, i) % word_align(d) == 0
}

/// The name offset of section `i`.
pub open spec fn sh_name(d: Seq<u8>, i: int) -> int {
    le(d, sh_start(d, i), 4) as int
}

/// The type of section `i`.
pub open spec fn sh_type(d: Seq<u8>, i: int) -> int {
    le(d, sh_start(d, i) + 4, 4) as int
}

/// The file offset of section `i`.
pub open spec fn sh_offset(d: Seq<u8>, i: int) -> int {
    field(d, sh_start(d, i) + 24, 8, sh_start(d, i) + 16, 4)
}

/// The size of section `i`.
pub open spec fn sh_size(d: Seq<u8>, i: int) -> int {
    field(d, sh_start(d, i) + 32, 8, sh_start(d, i) + 20, 4)
}

/// The section types that xmas-elf knows.
pub open spec fn sh_type_known(t: int) -> bool {
    (0 <= t <= 11) || (14 <= t <= 18) || t >= 0x6000_0000
}

/// The index of the first zero byte of `d` in `from .. end`, or `end`.
pub open spec fn first_nul(d: Seq<u8>, from: int, end: int) -> int
    decreases end - from,
{
    if from >= end {
        end
    } else if d[from] == 0 {
        from
    } else {
        first_nul(d, from + 1, end)
    }
}

/// Whether a string starts at `from` and ends with a zero byte before
/// `end`, its bytes valid UTF-8.
pub open spec fn str_ok(d: Seq<u8>, from: int, end: int) -> bool {
    &&& 0 <= from <= end <= d.len()
    &&& first_nul(d, from, end) < end
    &&& valid_utf8(d.subrange(from, first_nul(d, from, end)))
}

/// Whether xmas-elf reads the name of section `i`, a header within the
/// file, without failing: for a known type other than the null type, the
/// name table's index is below `0xff00`, its header is read without
/// failing, and where that header lies in the file and its offset within
/// it, the name starts within the file and is a string that ends there.
pub open spec fn name_safe(d: Seq<u8>, i: int) -> bool {
    let t = sh_type(d, i);
    let s = sh_strndx(d);
    (sh_type_known(t) && t != 0) ==> {
        &&& s < 0xff00
        &&& sh_safe(d, s)
        &&& (sh_in_file(d, s) && sh_offset(d, s) <= d.len()) ==> {
            &&& sh_name(d, i) <= d.len() - sh_offset(d, s)
            &&& str_ok(d, sh_offset(d, s) + sh_name(d, i), d.len() as int)
        }
    }
}

/// Whether the data of section `i` lies within the file.
pub open spec fn raw_safe(d: Seq<u8>, i: int) -> bool {
    &&& sh_offset(d, i) + sh_size(d, i) <= u64::MAX
    &&& sh_offset(d, i) + sh_size(d, i) <= d.len()
}

/// Whether the data of section `i` is `n`-byte records aligned to `a`.
pub open spec fn records(d: Seq<u8>, i: int, n: int, a: int) -> bool {
    raw_safe(d, i) && sh_size(d, i) % n == 0 && sh_offset(d, i) % a == 0
}

/// Whether xmas-elf reads the data of section `i` as its type says without
/// failing.
pub open spec fn data_safe(d: Seq<u8>, i: int) -> bool {
    let t = sh_type(d, i);
    let w = word_align(d);
    if t == 0 || t == 8 || !sh_type_known(t) {
        true
    } else if t == 2 || t == 11 {
        records(d, i, if is64(d) { 24 } else { 16 }, w)
    } else if t == 14 || t == 15 || t == 16 {
        records(d, i, w, w)
    } else if t == 4 {
        records(d, i, if is64(d) { 24 } else { 12 }, w)
    } else if t == 9 || t == 6 {
        records(d, i, if is64(d) { 16 } else { 8 }, w)
    } else if t == 17 {
        raw_safe(d, i) && sh_size(d, i) >= 4 && (sh_size(d, i) - 4) % 4 == 0 && sh_offset(d, i) % 4 == 0
    } else if t == 18 {
        records(d, i, 4, 4)
    } else if t == 7 {
        raw_safe(d, i) && (is64(d) ==> sh_size(d, i) >= 12 && sh_offset(d, i) % 4 == 0)
    } else if t == 5 {
        raw_safe(d, i) && sh_size(d, i) >= 12 && sh_offset(d, i) % 4 == 0
    } else {
        raw_safe(d, i)
    }
}

/// The number of section headers.
pub open spec fn sh_cnt(d: Seq<u8>) -> int {
    field(d, 60, 2, 48, 2)
}

/// The address of section `i`.
pub open spec fn sh_addr(d: Seq<u8>, i: int) -> int {
    field(d, sh_start(d, i) + 16, 8, sh_start(d, i) + 12, 4)
}

/// Where program header `i` starts.
pub open spec fn ph_start(d: Seq<u8>, i: int) -> int {
    ph_off(d) + i * ph_es(d)
}

/// Whether the file has program header `i`, as xmas-elf asks.
pub open spec fn ph_present(d: Seq<u8>, i: int) -> bool {
    0 <= i < ph_cnt(d) && ph_off(d) > 0 && ph_es(d) > 0
}

/// The file offset of program header `i`'s segment.
pub open spec fn ph_offset(d: Seq<u8>, i: int) -> int {
    field(d, ph_start(d, i) + 8, 8, ph_start(d, i) + 4, 4)
}

/// The virtual address of program header `i`'s segment.
pub open spec fn ph_vaddr(d: Seq<u8>, i: int) -> int {
    field(d, ph_start(d, i) + 16, 8, ph_start(d, i) + 8, 4)
}

/// The size in the file of program header `i`'s segment.
pub open spec fn ph_filesz(d: Seq<u8>, i: int) -> int {
    field(d, ph_start(d, i) + 32, 8, ph_start(d, i) + 16, 4)
}

/// Whether xmas-elf reads program header `i` without failing: where the
/// file has program headers and `i` is one of them, the header lies within
/// the file, is at least as large as the header type, and is aligned.
pub open spec fn ph_safe(d: Seq<u8>, i: int) -> bool {
    (0 <= i < ph_cnt(d) && ph_off(d) > 0 && ph_es(d) > 0) ==> {
        &&& ph_off(d) + i * ph_es(d) + ph_es(d) <= d.len()
        &&& ph_es(d) >= (if is64(d) { 56int } else { 32int })
        &&& (ph_off(d) + i * ph_es(d)) % word_align(d) == 0
    }
}

/// Reads a header field as `field` says.
fn read_field(d: &Vec<u8>, off64: usize, n64: usize, off32: usize, n32: usize) -> (r: u64)
    requires
        header_ok(d@),
        off64 + n64 <= 64,
        off32 + n32 <= 52,
        n64 <= 8,
        n32 <= 8,
    ensures
        r == field(d@, off64 as int, n64 as nat, off32 as int, n32 as nat),
        n64 <= 2 && n32 <= 2 ==> r <= 0xffff,
{
    proof {
        crate::bytes::lemma_le_bound(d@, off64 as int, n64 as nat);
        crate::bytes::lemma_le_bound(d@, off32 as int, n32 as nat);
        vstd::arithmetic::power2::lemma2_to64();
        if n64 <= 2 {
            assert(8 * n64 as nat == 0 || 8 * n64 as nat == 8 || 8 * n64 as nat == 16);
        }
        if n32 <= 2 {
            assert(8 * n32 as nat == 0 || 8 * n32 as nat == 8 || 8 * n32 as nat == 16);
        }
    }
    if d[4] == 2 {
        read_le_bytes(d, off64, n64)
    } else {
        read_le_bytes(d, off32, n32)
    }
}

/// Whether section header `i` is read without failing, as `sh_safe` says.
pub fn check_sh_safe(d: &Vec<u8>, i: u64) -> (r: bool)
    requires
        header_ok(d@),
    ensures
        r == sh_safe(d@, i as int),
{
    let off = read_field(d, 40, 8, 32, 4) as u128;
    let es = read_field(d, 58, 2, 46, 2) as u128;
    if i >= 0xff00 {
        return false;
    }
    assert((i as u128) * es <= 0xffff_ffff_ffff_ffff_u128 * 0xffff) by (nonlinear_arith)
        requires
            i <= 0xffff_ffff_ffff_ffff_u128,
            es <= 0xffff,
    ;
    let start = (i as u128) * es + off;
    assert(start == sh_start(d@, i as int));
    if start + es > usize::MAX as u128 {
        return false;
    }
    if start + es <= d.len() as u128 {
        let size: u128 = if d[4] == 2 { 64 } else { 40 };
        let align: u128 = if d[4] == 2 { 8 } else { 4 };
        es >= size && start % align == 0
    } else {
        true
    }
}

/// Whether section header `i` lies within the file, as `sh_in_file` says.
pub fn check_sh_in_file(d: &Vec<u8>, i: u16) -> (r: bool)
    requires
        header_ok(d@),
    ensures
        r == sh_in_file(d@, i as int),
{
    let off = read_field(d, 40, 8, 32, 4) as u128;
    let es = read_field(d, 58, 2, 46, 2) as u128;
    assert((i as u128) * es <= 0xffff_ffff_ffff_ffff_u128 * 0xffff) by (nonlinear_arith)
        requires
            i <= 0xffff_ffff_ffff_ffff_u128,
            es <= 0xffff,
    ;
    let start = (i as u128) * es + off;
    assert(start == sh_start(d@, i as int));
    start + es <= d.len() as u128
}

/// The start, type, name, offset and size of section `i`, a header that
/// lies within the file and is read without failing.
pub fn section_fields(d: &Vec<u8>, i: u16) -> (r: (usize, u64, u64, u64, u64))
    requires
        header_ok(d@),
        sh_safe(d@, i as int),
        sh_in_file(d@, i as int),
    ensures
        r.0 == sh_start(d@, i as int),
        r.1 == sh_type(d@, i as int),
        r.2 == sh_name(d@, i as int),
        r.3 == sh_offset(d@, i as int),
        r.4 == sh_size(d@, i as int),
{
    let off = read_field(d, 40, 8, 32, 4) as u128;
    let es = read_field(d, 58, 2, 46, 2) as u128;
    let start = ((i as u128) * es + off) as usize;
    assert(start == sh_start(d@, i as int));
    let t = read_le_bytes(d, start + 4, 4);
    let n = read_le_bytes(d, start, 4);
    if d[4] == 2 {
        (start, t, n, read_le_bytes(d, start + 24, 8), read_le_bytes(d, start + 32, 8))
    } else {
        (start, t, n, read_le_bytes(d, start + 16, 4), read_le_bytes(d, start + 20, 4))
    }
}

/// Whether the bytes are valid UTF-8, as `core::str::from_utf8` decides.
#[verifier::external_body]
fn utf8_ok(bytes: &[u8]) -> (r: bool)
    ensures
        r == valid_utf8(bytes@),
{
    core::str::from_utf8(bytes).is_ok()
}

/// Whether a string starts at `from` and ends before `end`, as `str_ok`
/// says.
pub fn check_str_ok(d: &Vec<u8>, from: usize, end: usize) -> (r: bool)
    requires
        from <= end <= d@.len(),
    ensures
        r == str_ok(d@, from as int, end as int),
{
    let mut k = from;
    while k < end && d[k] != 0
        invariant
            from <= k <= end <= d@.len(),
            first_nul(d@, from as int, end as int) == first_nul(d@, k as int, end as int),
        decreases end - k,
    {
        k = k + 1;
    }
    if k == end {
        return false;
    }
    let bytes = vstd::slice::slice_subrange(d.as_slice(), from, k);
    utf8_ok(bytes)
}

/// Whether the name of section `i` is read without failing, as `name_safe`
/// says.
pub fn check_name_safe(d: &Vec<u8>, i: u16) -> (r: bool)
    requires
        header_ok(d@),
        sh_safe(d@, i as int),
        sh_in_file(d@, i as int),
    ensures
        r == name_safe(d@, i as int),
{
    let (_, t, name, _, _) = section_fields(d, i);
    let known = t <= 11 || (14 <= t && t <= 18) || t >= 0x6000_0000;
    if !known || t == 0 {
        return true;
    }
    let s = read_field(d, 62, 2, 50, 2);
    if s >= 0xff00 || !check_sh_safe(d, s) {
        return false;
    }
    let s = s as u16;
    if !check_sh_in_file(d, s) {
        return true;
    }
    let (_, _, _, o, _) = section_fields(d, s);
    if o > d.len() as u64 {
        return true;
    }
    if name > d.len() as u64 - o {
        return false;
    }
    check_str_ok(d, (o + name) as usize, d.len())
}

/// Whether the data of section `i` is read without failing, as `data_safe`
/// says.
pub fn check_data_safe(d: &Vec<u8>, i: u16) -> (r: bool)
    requires
        header_ok(d@),
        sh_safe(d@, i as int),
        sh_in_file(d@, i as int),
    ensures
        r == data_safe(d@, i as int),
{
    let (_, t, _, o, z) = section_fields(d, i);
    let wide = d[4] == 2;
    let w: u64 = if wide { 8 } else { 4 };
    let o128 = o as u128;
    let z128 = z as u128;
    let raw = o128 + z128 <= u64::MAX as u128 && o128 + z128 <= d.len() as u128;
    let known = t <= 11 || (14 <= t && t <= 18) || t >= 0x6000_0000;
    if t == 0 || t == 8 || !known {
        true
    } else if t == 2 || t == 11 {
        let n: u64 = if wide { 24 } else { 16 };
        raw && z % n == 0 && o % w == 0
    } else if t == 14 || t == 15 || t == 16 {
        raw && z % w == 0 && o % w == 0
    } else if t == 4 {
        let n: u64 = if wide { 24 } else { 12 };
        raw && z % n == 0 && o % w == 0
    } else if t == 9 || t == 6 {
        let n: u64 = if wide { 16 } else { 8 };
        raw && z % n == 0 && o % w == 0
    } else if t == 17 {
        raw && z >= 4 && (z - 4) % 4 == 0 && o % 4 == 0
    } else if t == 18 {
        raw && z % 4 == 0 && o % 4 == 0
    } else if t == 7 {
        raw && (!wide || (z >= 12 && o % 4 == 0))
    } else if t == 5 {
        raw && z >= 12 && o % 4 == 0
    } else {
        raw
    }
}

/// Whether program header `i` is read without failing, as `ph_safe` says.
pub fn check_ph_safe(d: &Vec<u8>, i: u16) -> (r: bool)
    requires
        header_ok(d@),
    ensures
        r == ph_safe(d@, i as int),
{
    let off = read_field(d, 32, 8, 28, 4) as u128;
    let es = read_field(d, 54, 2, 42, 2) as u128;
    let cnt = read_field(d, 56, 2, 44, 2);
    if !((i as u64) < cnt && off > 0 && es > 0) {
        return true;
    }
    assert((i as u128) * es <= 0xffff_ffff_ffff_ffff_u128 * 0xffff) by (nonlinear_arith)
        requires
            i <= 0xffff_ffff_ffff_ffff_u128,
            es <= 0xffff,
    ;
    let start = off + (i as u128) * es;
    let size: u128 = if d[4] == 2 { 56 } else { 32 };
    let align: u128 = if d[4] == 2 { 8 } else { 4 };
    start + es <= d.len() as u128 && es >= size && start % align == 0
}

} // verus!
