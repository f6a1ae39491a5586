//! Loading programs: symbol tables that map names to addresses both ways,
//! ELF images read through `xmas_elf`, and raw binary images.

use vstd::prelude::*;
use xmas_elf::symbol_table::Entry;
use crate::ram::{Ram, BASE_ADDR, RAM_SIZE};
use crate::bytes::le;
use crate::elf_layout::{
    header_ok, sh_safe, sh_in_file, name_safe, data_safe, raw_safe, ph_safe, ph_cnt, sh_type, sh_size,
    sh_offset, str_ok, is64, check_sh_safe, check_sh_in_file, check_name_safe, check_data_safe, check_ph_safe,
    check_str_ok, sh_cnt, sh_addr, ph_present, ph_vaddr, ph_offset, ph_filesz,
};

verus! {

/// The view of a symbol: its name and its address.
pub open spec fn sym_view(p: (String, u64)) -> (Seq<char>, u64) {
    (p.0@, p.1)
}

/// The views of a list of symbols.
pub open spec fn views(s: Seq<(String, u64)>) -> Seq<(Seq<char>, u64)> {
    s.map_values(|p: (String, u64)| sym_view(p))
}

/// The symbols after inserting `(name, addr)`: any symbol with that name or
/// that address is replaced.
pub open spec fn insert_symbol(s: Set<(Seq<char>, u64)>, name: Seq<char>, addr: u64) -> Set<(Seq<char>, u64)> {
    s.filter(|p: (Seq<char>, u64)| p.0 != name && p.1 != addr).insert((name, addr))
}

/// The symbols after inserting the pairs of `list` in order.
pub open spec fn symbols_of(list: Seq<(Seq<char>, u64)>) -> Set<(Seq<char>, u64)>
    decreases list.len(),
{
    if list.len() == 0 {
        Set::empty()
    } else {
        insert_symbol(symbols_of(list.drop_last()), list.last().0, list.last().1)
    }
}

/// The address of the symbol `name` in `s`, if it has one.
pub open spec fn addr_of(s: Set<(Seq<char>, u64)>, name: Seq<char>) -> Option<u64> {
    if exists|a: u64| #[trigger] s.contains((name, a)) {
        Some(choose|a: u64| #[trigger] s.contains((name, a)))
    } else {
        None
    }
}

/// The name of the symbol at `addr` in `s`, if there is one.
pub open spec fn name_of(s: Set<(Seq<char>, u64)>, addr: u64) -> Option<Seq<char>> {
    if exists|n: Seq<char>| #[trigger] s.contains((n, addr)) {
        Some(choose|n: Seq<char>| #[trigger] s.contains((n, addr)))
    } else {
        None
    }
}

/// `p` is a symbol of `s` at or below `addr`, and no symbol of `s` at or
/// below `addr` lies above it.
pub open spec fn floor_symbol(s: Set<(Seq<char>, u64)>, addr: u64, p: (Seq<char>, u64)) -> bool {
    &&& p.1 <= addr
    &&& s.contains(p)
    &&& forall|q: (Seq<char>, u64)| #[trigger] s.contains(q) && q.1 <= addr ==> q.1 <= p.1
}

/// A table of symbols in which every name and every address occurs once.
pub struct SymTab {
    symbols: Vec<(String, u64)>,
}

impl SymTab {
    /// The symbols, as name and address.
    pub closed spec fn pairs(&self) -> Seq<(Seq<char>, u64)> {
        views(self.symbols@)
    }

    /// The symbols, as a set.
    pub open spec fn contents(&self) -> Set<(Seq<char>, u64)> {
        self.pairs().to_set()
    }

    /// No name and no address occurs twice.
    pub open spec fn wf(&self) -> bool {
        forall|i: int, j: int|
            0 <= i < self.pairs().len() && 0 <= j < self.pairs().len() && i != j ==> self.pairs()[i].0
                != self.pairs()[j].0 && self.pairs()[i].1 != self.pairs()[j].1
    }

    /// In a table, a name has one address and an address one name.
    pub proof fn lemma_unique(&self, p: (Seq<char>, u64), q: (Seq<char>, u64))
        requires
            self.wf(),
            self.contents().contains(p),
            self.contents().contains(q),
            p.0 == q.0 || p.1 == q.1,
        ensures
            p == q,
    {
        let i = choose|i: int| 0 <= i < self.pairs().len() && self.pairs()[i] == p;
        let j = choose|j: int| 0 <= j < self.pairs().len() && self.pairs()[j] == q;
        assert(self.pairs()[i] == p);
        assert(self.pairs()[j] == q);
    }

    /// Inserts `(name, addr)`, replacing any symbol with that name or that
    /// address.
    fn insert(&mut self, name: String, addr: u64)
        requires
            old(self).wf(),
        ensures
            final(self).wf(),
            final(self).contents() == insert_symbol(old(self).contents(), name@, addr),
    {
        let mut kept: Vec<(String, u64)> = Vec::new();
        let mut i: usize = 0;
        let ghost old_pairs = self.pairs();
        while i < self.symbols.len()
            invariant
                i <= self.symbols@.len(),
                old_pairs == self.pairs(),
                forall|a: int, b: int|
                    0 <= a < old_pairs.len() && 0 <= b < old_pairs.len() && a != b ==> old_pairs[a].0 != old_pairs[b].0
                        && old_pairs[a].1 != old_pairs[b].1,
                forall|k: int| 0 <= k < kept@.len() ==> (#[trigger] sym_view(kept@[k])).0 != name@ && sym_view(kept@[k]).1 != addr,
                forall|a: int, b: int|
                    0 <= a < kept@.len() && 0 <= b < kept@.len() && a != b ==> sym_view(kept@[a]).0 != sym_view(kept@[b]).0
                        && sym_view(kept@[a]).1 != sym_view(kept@[b]).1,
                forall|p: (Seq<char>, u64)|
                    views(kept@).contains(p) <==> (exists|k: int|
                        0 <= k < i && #[trigger] old_pairs[k] == p && p.0 != name@ && p.1 != addr),
                forall|k: int|
                    #![trigger kept@[k]]
                    0 <= k < kept@.len() ==> exists|m: int| #![trigger old_pairs[m]] 0 <= m < i && old_pairs[m] == sym_view(kept@[k]),
            decreases self.symbols@.len() - i,
        {
            let (n, a) = &self.symbols[i];
            proof {
                assert(old_pairs[i as int] == sym_view(self.symbols@[i as int]));
            }
            if *n != name && *a != addr {
                let ghost before = kept@;
                kept.push((n.clone(), *a));
                proof {
                    assert(views(kept@) =~= views(before).push(old_pairs[i as int]));
                    assert forall|a1: int, b1: int|
                        0 <= a1 < kept@.len() && 0 <= b1 < kept@.len() && a1 != b1 implies sym_view(kept@[a1]).0
                            != sym_view(kept@[b1]).0 && sym_view(kept@[a1]).1 != sym_view(kept@[b1]).1 by {
                        if a1 == before.len() || b1 == before.len() {
                            let other = if a1 == before.len() { b1 } else { a1 };
                            let m = choose|m: int| 0 <= m < i && #[trigger] old_pairs[m] == sym_view(kept@[other]);
                            assert(m != i);
                        }
                    }
                    assert forall|p: (Seq<char>, u64)|
                        views(kept@).contains(p) <==> (exists|k: int|
                            0 <= k < i + 1 && #[trigger] old_pairs[k] == p && p.0 != name@ && p.1 != addr) by {
                        if views(kept@).contains(p) {
                            let idx = choose|idx: int| 0 <= idx < kept@.len() && #[trigger] views(kept@)[idx] == p;
                            if idx < before.len() {
                                assert(views(before)[idx] == p);
                            }
                        }
                        if exists|k: int| 0 <= k < i + 1 && #[trigger] old_pairs[k] == p && p.0 != name@ && p.1 != addr {
                            let k = choose|k: int| 0 <= k < i + 1 && #[trigger] old_pairs[k] == p && p.0 != name@ && p.1
                                != addr;
                            if k == i {
                                assert(views(kept@)[before.len() as int] == p);
                            } else {
                                assert(views(before).contains(p));
                                let idx = choose|idx: int| 0 <= idx < before.len() && #[trigger] views(before)[idx] == p;
                                assert(views(kept@)[idx] == p);
                            }
                        }
                    }
                }
            } else {
                proof {
                    assert forall|p: (Seq<char>, u64)|
                        views(kept@).contains(p) <==> (exists|k: int|
                            0 <= k < i + 1 && #[trigger] old_pairs[k] == p && p.0 != name@ && p.1 != addr) by {
                        if exists|k: int| 0 <= k < i + 1 && #[trigger] old_pairs[k] == p && p.0 != name@ && p.1 != addr {
                            let k = choose|k: int| 0 <= k < i + 1 && #[trigger] old_pairs[k] == p && p.0 != name@ && p.1
                                != addr;
                            assert(k != i);
                        }
                    }
                }
            }
            i = i + 1;
        }
        let ghost before = kept@;
        proof {
            assert(old_pairs.len() == self.symbols@.len());
        }
        kept.push((name, addr));
        proof {
            let nv = views(kept@);
            assert(nv =~= views(before).push((name@, addr)));
            assert forall|p: (Seq<char>, u64)| nv.to_set().contains(p) <==> insert_symbol(
                old_pairs.to_set(),
                name@,
                addr,
            ).contains(p) by {
                if nv.contains(p) && p != (name@, addr) {
                    let idx = choose|idx: int| 0 <= idx < nv.len() && #[trigger] nv[idx] == p;
                    assert(views(before)[idx] == p);
                    assert(views(before).contains(p));
                }
                if old_pairs.to_set().contains(p) && p.0 != name@ && p.1 != addr {
                    let k = choose|k: int| 0 <= k < old_pairs.len() && old_pairs[k] == p;
                    assert(old_pairs[k] == p);
                    assert(views(before).contains(p));
                    let idx = choose|idx: int| 0 <= idx < before.len() && #[trigger] views(before)[idx] == p;
                    assert(nv[idx] == p);
                }
                if p == (name@, addr) {
                    assert(nv[before.len() as int] == p);
                }
            }
            assert(nv.to_set() =~= insert_symbol(old_pairs.to_set(), name@, addr));
            assert forall|a1: int, b1: int|
                0 <= a1 < nv.len() && 0 <= b1 < nv.len() && a1 != b1 implies nv[a1].0 != nv[b1].0 && nv[a1].1
                    != nv[b1].1 by {
                if a1 < before.len() {
                    assert(nv[a1] == sym_view(before[a1]));
                }
                if b1 < before.len() {
                    assert(nv[b1] == sym_view(before[b1]));
                }
            }
        }
        self.symbols = kept;
    }

    /// The table of the symbols `symbols`, inserted in order: a later
    /// symbol replaces an earlier one with the same name or address.
    pub fn from(symbols: &Vec<(String, u64)>) -> (r: Self)
        ensures
            r.wf(),
            r.contents() == symbols_of(views(symbols@)),
    {
        let mut t = SymTab { symbols: Vec::new() };
        let mut i: usize = 0;
        proof {
            assert(t.contents() =~= Set::<(Seq<char>, u64)>::empty());
            assert(views(symbols@).subrange(0, 0) =~= Seq::<(Seq<char>, u64)>::empty());
        }
        while i < symbols.len()
            invariant
                i <= symbols@.len(),
                t.wf(),
                t.contents() == symbols_of(views(symbols@).subrange(0, i as int)),
            decreases symbols@.len() - i,
        {
            let (name, addr) = &symbols[i];
            t.insert(name.clone(), *addr);
            proof {
                let all = views(symbols@);
                assert(all.subrange(0, i as int + 1).drop_last() =~= all.subrange(0, i as int));
                assert(all.subrange(0, i as int + 1).last() == (name@, *addr));
            }
            i = i + 1;
        }
        proof {
            let all = views(symbols@);
            assert(all.subrange(0, symbols@.len() as int) =~= all);
        }
        t
    }

    /// The address of the symbol `name`.
    pub fn func_addr_by_name(&self, name: &str) -> (r: Option<u64>)
        requires
            self.wf(),
        ensures
            r is Some ==> self.contents().contains((name@, r->0)),
            r is None ==> forall|a: u64| !self.contents().contains((name@, a)),
            r == addr_of(self.contents(), name@),
    {
        let key = name.to_owned();
        let mut i: usize = 0;
        while i < self.symbols.len()
            invariant
                i <= self.symbols@.len(),
                self.wf(),
                key@ == name@,
                forall|k: int| 0 <= k < i ==> #[trigger] self.pairs()[k].0 != name@,
            decreases self.symbols@.len() - i,
        {
            if self.symbols[i].0 == key {
                proof {
                    assert(self.pairs()[i as int] == (name@, self.symbols@[i as int].1));
                    assert(self.pairs().contains((name@, self.symbols@[i as int].1)));
                    let a = self.symbols@[i as int].1;
                    assert(self.contents().contains((name@, a)));
                    let c = choose|c: u64| #[trigger] self.contents().contains((name@, c));
                    self.lemma_unique((name@, a), (name@, c));
                }
                return Some(self.symbols[i].1);
            }
            i = i + 1;
        }
        proof {
            assert forall|a: u64| !self.contents().contains((name@, a)) by {
                if self.pairs().contains((name@, a)) {
                    let k = choose|k: int| 0 <= k < self.pairs().len() && self.pairs()[k] == (name@, a);
                    assert(self.pairs()[k].0 != name@);
                }
            }
        }
        None
    }

    /// The name of the symbol at `addr`.
    pub fn func_name_by_addr(&self, addr: u64) -> (r: Option<&String>)
        requires
            self.wf(),
        ensures
            r is Some ==> self.contents().contains((r->0@, addr)),
            r is None ==> forall|n: Seq<char>| !self.contents().contains((n, addr)),
            r is Some ==> name_of(self.contents(), addr) == Some(r->0@),
            r is None ==> name_of(self.contents(), addr) is None,
    {
        let mut i: usize = 0;
        while i < self.symbols.len()
            invariant
                i <= self.symbols@.len(),
                self.wf(),
                forall|k: int| 0 <= k < i ==> #[trigger] self.pairs()[k].1 != addr,
            decreases self.symbols@.len() - i,
        {
            if self.symbols[i].1 == addr {
                proof {
                    assert(self.pairs()[i as int] == (self.symbols@[i as int].0@, addr));
                    assert(self.pairs().contains((self.symbols@[i as int].0@, addr)));
                    let n = self.symbols@[i as int].0@;
                    assert(self.contents().contains((n, addr)));
                    let c = choose|c: Seq<char>| #[trigger] self.contents().contains((c, addr));
                    self.lemma_unique((n, addr), (c, addr));
                }
                let r = Some(&self.symbols[i].0);
                proof {
                    assert(r->0@ == self.symbols@[i as int].0@);
                }
                return r;
            }
            i = i + 1;
        }
        proof {
            assert forall|n: Seq<char>| !self.contents().contains((n, addr)) by {
                if self.pairs().contains((n, addr)) {
                    let k = choose|k: int| 0 <= k < self.pairs().len() && self.pairs()[k] == (n, addr);
                    assert(self.pairs()[k].1 != addr);
                }
            }
        }
        None
    }

    /// The name of the symbol with the greatest address at or below
    /// `addr`: the function that `addr` falls in.
    pub fn func_name_in_addr_range(&self, addr: u64) -> (r: Option<&String>)
        requires
            self.wf(),
        ensures
            r is Some ==> exists|a: u64| #[trigger] floor_symbol(self.contents(), addr, (r->0@, a)),
            r is None ==> forall|n: Seq<char>, a: u64| a <= addr ==> !#[trigger] self.contents().contains((n, a)),
    {
        let mut best: Option<usize> = None;
        let mut i: usize = 0;
        while i < self.symbols.len()
            invariant
                i <= self.symbols@.len(),
                best is None ==> forall|k: int| 0 <= k < i ==> #[trigger] self.pairs()[k].1 > addr,
                best is Some ==> best->0 < i && self.pairs()[best->0 as int].1 <= addr && forall|k: int|
                    0 <= k < i && #[trigger] self.pairs()[k].1 <= addr ==> self.pairs()[k].1 <= self.pairs()[best->0 as int].1,
            decreases self.symbols@.len() - i,
        {
            let a = self.symbols[i].1;
            proof {
                assert(self.pairs()[i as int].1 == a);
            }
            if a <= addr {
                match best {
                    None => {
                        best = Some(i);
                    },
                    Some(b) => {
                        if a > self.symbols[b].1 {
                            proof {
                                assert(self.pairs()[b as int].1 == self.symbols@[b as int].1);
                            }
                            best = Some(i);
                        } else {
                            proof {
                                assert(self.pairs()[b as int].1 == self.symbols@[b as int].1);
                            }
                        }
                    },
                }
            }
            i = i + 1;
        }
        match best {
            None => {
                proof {
                    assert forall|n: Seq<char>, a: u64| a <= addr implies !#[trigger] self.contents().contains((n, a)) by {
                        if self.pairs().contains((n, a)) {
                            let k = choose|k: int| 0 <= k < self.pairs().len() && self.pairs()[k] == (n, a);
                            assert(self.pairs()[k].1 > addr);
                        }
                    }
                }
                None
            },
            Some(b) => {
                proof {
                    let a = self.pairs()[b as int].1;
                    assert(self.pairs()[b as int] == (self.symbols@[b as int].0@, a));
                    assert(self.pairs().contains((self.symbols@[b as int].0@, a)));
                    assert(self.contents().contains((self.symbols@[b as int].0@, a)));
                    assert forall|q: (Seq<char>, u64)| #[trigger] self.contents().contains(q) && q.1 <= addr implies q.1 <= a by {
                        let k = choose|k: int| 0 <= k < self.pairs().len() && self.pairs()[k] == q;
                        assert(self.pairs()[k].1 <= a);
                    }
                }
                let r = Some(&self.symbols[b].0);
                proof {
                    assert(floor_symbol(self.contents(), addr, (r->0@, self.pairs()[b as int].1)));
                }
                r
            },
        }
    }

    /// Every symbol, as name and address.
    pub fn iter(&self) -> (r: Vec<(String, u64)>)
        ensures
            views(r@) == self.pairs(),
    {
        let mut out: Vec<(String, u64)> = Vec::new();
        let mut i: usize = 0;
        while i < self.symbols.len()
            invariant
                i <= self.symbols@.len(),
                views(out@) == self.pairs().subrange(0, i as int),
            decreases self.symbols@.len() - i,
        {
            let (n, a) = &self.symbols[i];
            let ghost before = out@;
            out.push((n.clone(), *a));
            proof {
                assert(self.pairs()[i as int] == sym_view(self.symbols@[i as int]));
                assert(views(out@) =~= views(before).push(self.pairs()[i as int]));
            }
            i = i + 1;
            proof {
                assert(views(out@) =~= self.pairs().subrange(0, i as int));
            }
        }
        proof {
            assert(self.pairs().subrange(0, self.symbols@.len() as int) =~= self.pairs());
        }
        out
    }
}

/// Whether the file starts with the ELF magic number.
pub open spec fn elf_magic(data: Seq<u8>) -> bool {
    data.len() >= 4 && data[0] == 0x7f && data[1] == 0x45 && data[2] == 0x4c && data[3] == 0x46
}

/// Whether `xmas_elf::ElfFile::new` accepts `data`: the magic number, then a
/// header of the 32-bit or 64-bit class that the file holds whole.
pub open spec fn elf_parses(data: Seq<u8>) -> bool {
    elf_magic(data) && header_ok(data)
}

/// The number of section headers that the ELF header of `data` announces.
pub open spec fn elf_section_count(data: Seq<u8>) -> u16 {
    sh_cnt(data) as u16
}

/// The address of section `index` of `data`, or `None` where xmas-elf cannot
/// read that section header.
pub uninterp spec fn elf_section_address(data: Seq<u8>, index: u16) -> Option<u64>;

/// The name of section `index` of `data`, or `None` where xmas-elf gives an
/// error for it.
pub uninterp spec fn elf_section_name(data: Seq<u8>, index: u16) -> Option<Seq<char>>;

/// The number of program headers that the ELF header of `data` announces.
pub open spec fn elf_program_count(data: Seq<u8>) -> u16 {
    ph_cnt(data) as u16
}

/// Program header `index` of `data` as (is it a `Load` segment, or `None`
/// where its type cannot be read; virtual address; offset in the file; size
/// in the file), or `None` where xmas-elf cannot read that header.
pub uninterp spec fn elf_program_header(data: Seq<u8>, index: u16) -> Option<(Option<bool>, u64, u64, u64)>;

/// The number of entries of section `section` of `data` read as a 64-bit
/// symbol table, or `None` where its data is not one.
pub uninterp spec fn elf_symbol_count(data: Seq<u8>, section: u16) -> Option<usize>;

/// Entry `k` of the 64-bit symbol table in section `section` of `data`: its
/// name (`None` where xmas-elf gives an error for it) and its value.
pub uninterp spec fn elf_symbol(data: Seq<u8>, section: u16, k: usize) -> (Option<Seq<char>>, u64);

/// Calls `xmas_elf::ElfFile::new` and reports whether it succeeded: it
/// checks the length, the magic number and the class byte, and that the
/// header of that class lies within the file.
#[verifier::external_body]
fn elf_check(data: &Vec<u8>) -> (r: bool)
    ensures
        r == elf_parses(data@),
{
    xmas_elf::ElfFile::new(data.as_slice()).is_ok()
}

/// Reads `sh_count` from the header that `xmas_elf::ElfFile::new` parsed,
/// the field at byte 60 (48 in a 32-bit file).
#[verifier::external_body]
fn section_count(data: &Vec<u8>) -> (r: u16)
    requires
        elf_parses(data@),
    ensures
        r == elf_section_count(data@),
        r == sh_cnt(data@),
{
    xmas_elf::ElfFile::new(data.as_slice()).unwrap().header.pt2.sh_count()
}

/// Calls `ElfFile::section_header` and, where it succeeds, the header's
/// `address`, read from the header in place. It succeeds where the header
/// lies within the file; on the inputs that `sh_safe` leaves out xmas-elf
/// fails an assertion.
#[verifier::external_body]
fn section_address(data: &Vec<u8>, index: u16) -> (r: Option<u64>)
    requires
        elf_parses(data@),
        sh_safe(data@, index as int),
    ensures
        r == elf_section_address(data@, index),
        r is Some <==> sh_in_file(data@, index as int),
        r matches Some(a) ==> a == sh_addr(data@, index as int),
{
    let elf = xmas_elf::ElfFile::new(data.as_slice()).unwrap();
    match elf.section_header(index) {
        Ok(sh) => Some(sh.address()),
        Err(_) => None,
    }
}

/// Calls `SectionHeader::get_name` on section `index`, on the inputs on
/// which `name_safe` says that xmas-elf reads the name without failing.
#[verifier::external_body]
fn read_section_name(data: &Vec<u8>, index: u16) -> (r: Option<String>)
    requires
        elf_parses(data@),
        sh_safe(data@, index as int),
        sh_in_file(data@, index as int),
        name_safe(data@, index as int),
    ensures
        match r {
            Some(s) => elf_section_name(data@, index) == Some(s@),
            None => elf_section_name(data@, index) is None,
        },
{
    let elf = xmas_elf::ElfFile::new(data.as_slice()).unwrap();
    let sh = elf.section_header(index).unwrap();
    match sh.get_name(&elf) {
        Ok(name) => Some(name.to_string()),
        Err(_) => None,
    }
}

/// Reads `ph_count` from the header that `xmas_elf::ElfFile::new` parsed.
#[verifier::external_body]
fn program_count(data: &Vec<u8>) -> (r: u16)
    requires
        elf_parses(data@),
    ensures
        r == elf_program_count(data@),
        r == ph_cnt(data@),
{
    xmas_elf::ElfFile::new(data.as_slice()).unwrap().header.pt2.ph_count()
}

/// Calls `ElfFile::program_header` and reads the header's type, virtual
/// address, offset and file size, on the inputs on which `ph_safe` says
/// that xmas-elf reads the header without failing. It succeeds where the
/// file has that header, and reads the fields from the header in place.
#[verifier::external_body]
fn program_header(data: &Vec<u8>, index: u16) -> (r: Option<(Option<bool>, u64, u64, u64)>)
    requires
        elf_parses(data@),
        ph_safe(data@, index as int),
    ensures
        r == elf_program_header(data@, index),
        r is Some <==> ph_present(data@, index as int),
        r matches Some((_, va, off, size)) ==> va == ph_vaddr(data@, index as int) && off == ph_offset(
            data@,
            index as int,
        ) && size == ph_filesz(data@, index as int),
{
    let elf = xmas_elf::ElfFile::new(data.as_slice()).unwrap();
    match elf.program_header(index) {
        Ok(ph) => {
            let load = match ph.get_type() {
                Ok(xmas_elf::program::Type::Load) => Some(true),
                Ok(_) => Some(false),
                Err(_) => None,
            };
            Some((load, ph.virtual_addr(), ph.offset(), ph.file_size()))
        },
        Err(_) => None,
    }
}

/// Calls `SectionHeader::get_data` on section `index`, on the inputs on
/// which `data_safe` says that xmas-elf reads the data without failing, and
/// counts the entries where it is a 64-bit symbol table: a section of the
/// symbol-table type in a 64-bit file, of 24-byte entries.
#[verifier::external_body]
fn symbol_count(data: &Vec<u8>, section: u16) -> (r: Option<usize>)
    requires
        elf_parses(data@),
        sh_safe(data@, section as int),
        sh_in_file(data@, section as int),
        data_safe(data@, section as int),
    ensures
        r == elf_symbol_count(data@, section),
        r matches Some(n) ==> is64(data@) && sh_type(data@, section as int) == 2 && n * 24 == sh_size(
            data@,
            section as int,
        ),
{
    let elf = xmas_elf::ElfFile::new(data.as_slice()).unwrap();
    let sh = elf.section_header(section).unwrap();
    match sh.get_data(&elf) {
        Ok(xmas_elf::sections::SectionData::SymbolTable64(table)) => Some(table.len()),
        Ok(_) => None,
        Err(_) => None,
    }
}

/// Calls `Entry::get_name` and `Entry::value` on entry `k` of the 64-bit
/// symbol table in section `section`, on the inputs on which
/// `strtab_safe` and `entry_name_safe` say that xmas-elf reads the name
/// without failing.
#[verifier::external_body]
fn symbol_entry(data: &Vec<u8>, section: u16, k: usize) -> (r: (Option<String>, u64))
    requires
        elf_parses(data@),
        sh_safe(data@, section as int),
        sh_in_file(data@, section as int),
        data_safe(data@, section as int),
        elf_symbol_count(data@, section) matches Some(n) && k < n,
        strtab_safe(data@),
        entry_name_safe(data@, section as int, k as int),
    ensures
        r.1 == elf_symbol(data@, section, k).1,
        match r.0 {
            Some(s) => elf_symbol(data@, section, k).0 == Some(s@),
            None => elf_symbol(data@, section, k).0 is None,
        },
{
    let elf = xmas_elf::ElfFile::new(data.as_slice()).unwrap();
    let sh = elf.section_header(section).unwrap();
    let table = match sh.get_data(&elf) {
        Ok(xmas_elf::sections::SectionData::SymbolTable64(table)) => Some(table),
        _ => None,
    }.unwrap();
    let entry = &table[k];
    match entry.get_name(&elf) {
        Ok(name) => (Some(name.to_string()), entry.value()),
        Err(_) => (None, entry.value()),
    }
}

/// The index of the first section named `name` among the sections that
/// xmas-elf reads in order from index `i` on; the reading stops at the first
/// header it cannot read.
pub open spec fn find_section(data: Seq<u8>, name: Seq<char>, i: int) -> Option<u16>
    decreases elf_section_count(data) - i,
{
    if i < 0 || i >= elf_section_count(data) || i >= 0xff00 {
        None
    } else if elf_section_address(data, i as u16) is None {
        None
    } else if elf_section_name(data, i as u16) == Some(name) {
        Some(i as u16)
    } else {
        find_section(data, name, i + 1)
    }
}

/// Whether xmas-elf's search for the section named `name`, from header `j`
/// on, reads every header and name that it visits without failing; the
/// search stops at the first header outside the file.
pub open spec fn find_safe(data: Seq<u8>, name: Seq<char>, j: int) -> bool
    decreases elf_section_count(data) - j,
{
    if j < 0 || j >= elf_section_count(data) {
        true
    } else if !sh_safe(data, j) {
        false
    } else if !sh_in_file(data, j) {
        true
    } else if !name_safe(data, j) {
        false
    } else if elf_section_name(data, j as u16) == Some(name) {
        true
    } else {
        find_safe(data, name, j + 1)
    }
}

/// The name offset of entry `k` of the 64-bit symbol table in section `sym`.
pub open spec fn entry_name(data: Seq<u8>, sym: int, k: int) -> int {
    le(data, sh_offset(data, sym) + 24 * k, 4) as int
}

/// Whether xmas-elf finds `.strtab` for a symbol name without failing: its
/// search reads what it visits, and a `.strtab` of the string-table type has
/// its data within the file.
pub open spec fn strtab_safe(data: Seq<u8>) -> bool {
    &&& find_safe(data, ".strtab"@, 0)
    &&& match find_section(data, ".strtab"@, 0) {
        Some(st) => sh_type(data, st as int) == 3 ==> raw_safe(data, st as int),
        None => true,
    }
}

/// Whether xmas-elf reads the name of entry `k` of the symbol table in
/// section `sym` from a `.strtab` of the string-table type without failing:
/// the name starts within that table and ends there.
pub open spec fn entry_name_safe(data: Seq<u8>, sym: int, k: int) -> bool {
    match find_section(data, ".strtab"@, 0) {
        Some(st) => sh_type(data, st as int) == 3 ==> {
            let o = sh_offset(data, st as int);
            let z = sh_size(data, st as int);
            entry_name(data, sym, k) <= z && str_ok(data, o + entry_name(data, sym, k), o + z)
        },
        None => true,
    }
}

/// Whether the symbol table is read without failing: the search for
/// `.symtab` reads what it visits, its data is read, and where it is a
/// 64-bit symbol table with entries, `.strtab` and each entry's name are
/// read.
pub open spec fn symtab_safe(data: Seq<u8>) -> bool {
    &&& find_safe(data, ".symtab"@, 0)
    &&& match find_section(data, ".symtab"@, 0) {
        None => true,
        Some(j) => data_safe(data, j as int) && match elf_symbol_count(data, j) {
            None => true,
            Some(n) => n > 0 ==> strtab_safe(data) && forall|k: int|
                0 <= k < n ==> #[trigger] entry_name_safe(data, j as int, k),
        },
    }
}

/// A section that `find_section` finds lies at or after `i`, below `0xff00`,
/// and has a header that xmas-elf reads.
proof fn lemma_find_section(data: Seq<u8>, name: Seq<char>, i: int)
    ensures
        find_section(data, name, i) matches Some(j) ==> i <= j < 0xff00 && elf_section_address(data, j) is Some,
    decreases elf_section_count(data) - i,
{
    if 0 <= i < elf_section_count(data) && i < 0xff00 && elf_section_address(data, i as u16) is Some
        && elf_section_name(data, i as u16) != Some(name) {
        lemma_find_section(data, name, i + 1);
    }
}

/// Whether a loadable segment `h` lies within a file of `len` bytes and its
/// virtual address range within RAM.
pub open spec fn segment_fits(len: nat, h: (Option<bool>, u64, u64, u64)) -> bool {
    &&& h.2 + h.3 <= len
    &&& BASE_ADDR <= h.1
    &&& h.1 - BASE_ADDR < RAM_SIZE
    &&& h.1 - BASE_ADDR + h.3 <= RAM_SIZE
}

/// RAM `ram` with `bytes` written from offset `start` on.
pub open spec fn place(ram: Seq<u8>, start: int, bytes: Seq<u8>) -> Seq<u8> {
    ram.subrange(0, start) + bytes + ram.subrange(start + bytes.len(), ram.len() as int)
}

/// RAM after the loadable segments of `data`, from program header `i` on,
/// are copied into `ram`; `None` where a header's type cannot be read or a
/// loadable segment does not fit.
pub open spec fn load_from(data: Seq<u8>, ram: Seq<u8>, i: int) -> Option<Seq<u8>>
    decreases elf_program_count(data) - i,
{
    if i < 0 || i >= elf_program_count(data) {
        Some(ram)
    } else {
        match elf_program_header(data, i as u16) {
            None => Some(ram),
            Some(h) => match h.0 {
                None => None,
                Some(false) => load_from(data, ram, i + 1),
                Some(true) => if segment_fits(data.len(), h) {
                    load_from(data, place(ram, h.1 - BASE_ADDR, data.subrange(h.2 as int, h.2 + h.3)), i + 1)
                } else {
                    None
                },
            },
        }
    }
}

/// Whether the loadable segment of program header `k` occupies RAM outside
/// the offsets `start .. start + len`.
pub open spec fn segment_clear_of(data: Seq<u8>, k: int, start: int, len: int) -> bool {
    match elf_program_header(data, k as u16) {
        Some(h) => h.0 == Some(true) ==> (h.1 - BASE_ADDR + h.3 <= start || start + len <= h.1 - BASE_ADDR),
        None => true,
    }
}

/// Placing bytes changes RAM at their offsets and nowhere else.
proof fn lemma_place(ram: Seq<u8>, start: int, bytes: Seq<u8>)
    requires
        0 <= start,
        start + bytes.len() <= ram.len(),
    ensures
        place(ram, start, bytes).len() == ram.len(),
        place(ram, start, bytes).subrange(start, start + bytes.len()) == bytes,
        forall|k: int|
            0 <= k < ram.len() && !(start <= k < start + bytes.len()) ==> #[trigger] place(ram, start, bytes)[k]
                == ram[k],
{
    assert(place(ram, start, bytes).subrange(start, start + bytes.len()) =~= bytes);
}

/// Loading from header `i` on keeps RAM at the offsets that no loadable
/// segment from `i` on occupies.
proof fn lemma_load_keeps(data: Seq<u8>, ram: Seq<u8>, i: int, start: int, len: int)
    requires
        0 <= i,
        ram.len() == RAM_SIZE,
        load_from(data, ram, i) is Some,
        0 <= start,
        0 <= len,
        start + len <= RAM_SIZE,
        forall|k: int| i <= k < elf_program_count(data) ==> #[trigger] segment_clear_of(data, k, start, len),
    ensures
        load_from(data, ram, i)->0.len() == RAM_SIZE,
        load_from(data, ram, i)->0.subrange(start, start + len) == ram.subrange(start, start + len),
    decreases elf_program_count(data) - i,
{
    if i < elf_program_count(data) {
        assert(segment_clear_of(data, i, start, len));
        if let Some(h) = elf_program_header(data, i as u16) {
            if h.0 == Some(false) {
                lemma_load_keeps(data, ram, i + 1, start, len);
            } else if h.0 == Some(true) {
                let bytes = data.subrange(h.2 as int, h.2 + h.3);
                let st = h.1 - BASE_ADDR;
                lemma_place(ram, st, bytes);
                let placed = place(ram, st, bytes);
                lemma_load_keeps(data, placed, i + 1, start, len);
                assert(placed.subrange(start, start + len) =~= ram.subrange(start, start + len));
            }
        }
    }
}

proof fn lemma_load_reaches(data: Seq<u8>, ram: Seq<u8>, i: int, j: int)
    requires
        0 <= i <= j < elf_program_count(data),
        ram.len() == RAM_SIZE,
        load_from(data, ram, i) is Some,
        forall|k: int| i <= k < j ==> #[trigger] elf_program_header(data, k as u16) is Some,
        elf_program_header(data, j as u16) matches Some(h) && h.0 == Some(true),
        ({
            let h = elf_program_header(data, j as u16)->0;
            forall|k: int|
                j < k < elf_program_count(data) ==> #[trigger] segment_clear_of(data, k, h.1 - BASE_ADDR, h.3 as int)
        }),
    ensures
        ({
            let h = elf_program_header(data, j as u16)->0;
            &&& segment_fits(data.len(), h)
            &&& load_from(data, ram, i)->0.subrange(h.1 - BASE_ADDR, h.1 - BASE_ADDR + h.3) == data.subrange(
                h.2 as int,
                h.2 + h.3,
            )
        }),
    decreases j - i,
{
    let hi = elf_program_header(data, i as u16)->0;
    let bytes = data.subrange(hi.2 as int, hi.2 + hi.3);
    let st = hi.1 - BASE_ADDR;
    if i == j {
        lemma_place(ram, st, bytes);
        lemma_load_keeps(data, place(ram, st, bytes), i + 1, st, hi.3 as int);
    } else {
        assert(elf_program_header(data, i as u16) is Some);
        if hi.0 == Some(false) {
            lemma_load_reaches(data, ram, i + 1, j);
        } else {
            lemma_place(ram, st, bytes);
            lemma_load_reaches(data, place(ram, st, bytes), i + 1, j);
        }
    }
}

/// Loading copies every loadable segment into RAM at its virtual address:
/// where loading succeeds, the headers before segment `j` can be read and no
/// later loadable segment overlaps it, RAM from `vaddr - BASE_ADDR` holds
/// the segment's `filesz` bytes from its file offset on.
pub proof fn law_segments_loaded(data: Seq<u8>, ram: Seq<u8>, j: int)
    requires
        ram.len() == RAM_SIZE,
        load_from(data, ram, 0) is Some,
        0 <= j < elf_program_count(data),
        forall|k: int| 0 <= k < j ==> #[trigger] elf_program_header(data, k as u16) is Some,
        elf_program_header(data, j as u16) matches Some(h) && h.0 == Some(true),
        ({
            let h = elf_program_header(data, j as u16)->0;
            forall|k: int|
                j < k < elf_program_count(data) ==> #[trigger] segment_clear_of(data, k, h.1 - BASE_ADDR, h.3 as int)
        }),
    ensures
        ({
            let h = elf_program_header(data, j as u16)->0;
            load_from(data, ram, 0)->0.subrange(h.1 - BASE_ADDR, h.1 - BASE_ADDR + h.3) == data.subrange(
                h.2 as int,
                h.2 + h.3,
            )
        }),
{
    lemma_load_reaches(data, ram, 0, j);
}

/// Whether the loadable segments of `data`, from program header `i` on, can
/// all be copied into RAM: up to the first header that cannot be read, each
/// header is read without failing, its type can be read and each loadable
/// segment fits in the file and in RAM.
pub open spec fn segments_ok(data: Seq<u8>, i: int) -> bool
    decreases elf_program_count(data) - i,
{
    if i < 0 || i >= elf_program_count(data) {
        true
    } else {
        ph_safe(data, i) && match elf_program_header(data, i as u16) {
            None => true,
            Some(h) => match h.0 {
                None => false,
                Some(false) => segments_ok(data, i + 1),
                Some(true) => segment_fits(data.len(), h) && segments_ok(data, i + 1),
            },
        }
    }
}

/// Loading succeeds where the segments can all be loaded, whatever RAM held
/// before.
proof fn lemma_load_from_some(data: Seq<u8>, ram: Seq<u8>, i: int)
    ensures
        segments_ok(data, i) ==> load_from(data, ram, i) is Some,
    decreases elf_program_count(data) - i,
{
    if 0 <= i < elf_program_count(data) {
        if let Some(h) = elf_program_header(data, i as u16) {
            if h.0 == Some(false) {
                lemma_load_from_some(data, ram, i + 1);
            } else if h.0 == Some(true) && segment_fits(data.len(), h) {
                lemma_load_from_some(data, place(ram, h.1 - BASE_ADDR, data.subrange(h.2 as int, h.2 + h.3)), i + 1);
            }
        }
    }
}

/// The symbols of the 64-bit symbol table in section `section`, its first
/// `n` entries, by name and value.
pub open spec fn symbol_list(data: Seq<u8>, section: u16, n: usize) -> Seq<(Seq<char>, u64)> {
    Seq::new(n as nat, |k: int| (elf_symbol(data, section, k as usize).0->0, elf_symbol(data, section, k as usize).1))
}

/// Whether every one of the first `n` entries of that table has a name.
pub open spec fn symbol_names_ok(data: Seq<u8>, section: u16, n: usize) -> bool {
    forall|k: usize| k < n ==> (#[trigger] elf_symbol(data, section, k)).0 is Some
}

/// The bytes `data[start..end]`.
fn copy_range(data: &Vec<u8>, start: usize, end: usize) -> (r: Vec<u8>)
    requires
        start <= end <= data@.len(),
    ensures
        r@ == data@.subrange(start as int, end as int),
{
    let mut out: Vec<u8> = Vec::new();
    let mut i: usize = start;
    while i < end
        invariant
            start <= i <= end <= data@.len(),
            out@ == data@.subrange(start as int, i as int),
        decreases end - i,
    {
        out.push(data[i]);
        i = i + 1;
        proof {
            assert(out@ =~= data@.subrange(start as int, i as int));
        }
    }
    out
}

/// An ELF file that xmas-elf accepts, from which programs and symbols are
/// loaded.
pub struct ELFLoader {
    elf_data: Vec<u8>,
}

impl ELFLoader {
    /// The bytes of the file.
    pub closed spec fn data(&self) -> Seq<u8> {
        self.elf_data@
    }

    /// The file's header is accepted by xmas-elf.
    pub closed spec fn wf(&self) -> bool {
        elf_parses(self.elf_data@) && header_ok(self.elf_data@)
    }

    /// A loader for `elf_data`, or `None` where it is no ELF file.
    pub fn try_new(elf_data: Vec<u8>) -> (r: Option<ELFLoader>)
        ensures
            r is Some <==> elf_parses(elf_data@),
            r is Some ==> r->0.wf() && r->0.data() == elf_data@,
    {
        if !elf_check(&elf_data) {
            return None;
        }
        Some(ELFLoader { elf_data })
    }

    /// The index of the first section named `section_name`.
    fn find_section_index(&self, section_name: &str) -> (r: Option<u16>)
        requires
            self.wf(),
            find_safe(self.data(), section_name@, 0),
        ensures
            r == find_section(self.data(), section_name@, 0),
            r matches Some(j) ==> j < 0xff00 && elf_section_address(self.data(), j) is Some && sh_safe(
                self.data(),
                j as int,
            ) && sh_in_file(self.data(), j as int),
    {
        proof {
            lemma_find_section(self.data(), section_name@, 0);
        }
        let data = &self.elf_data;
        let key = section_name.to_owned();
        let count = section_count(data);
        let mut i: u16 = 0;
        while i < count
            invariant
                key@ == section_name@,
                data@ == self.data(),
                elf_parses(data@),
                header_ok(data@),
                count == elf_section_count(data@),
                find_section(data@, section_name@, 0) == find_section(data@, section_name@, i as int),
                find_safe(data@, section_name@, i as int),
            decreases count - i,
        {
            proof {
                assert(find_safe(data@, section_name@, i as int) == (if !sh_safe(data@, i as int) {
                    false
                } else if !sh_in_file(data@, i as int) {
                    true
                } else if !name_safe(data@, i as int) {
                    false
                } else if elf_section_name(data@, i) == Some(section_name@) {
                    true
                } else {
                    find_safe(data@, section_name@, i + 1)
                }));
                assert(find_section(data@, section_name@, i as int) == (if i >= 0xff00 {
                    None
                } else if elf_section_address(data@, i) is None {
                    None
                } else if elf_section_name(data@, i) == Some(section_name@) {
                    Some(i)
                } else {
                    find_section(data@, section_name@, i + 1)
                }));
            }
            if i >= 0xff00 {
                return None;
            }
            match section_address(data, i) {
                None => {
                    return None;
                },
                Some(_) => {
                    match read_section_name(data, i) {
                        Some(name) => {
                            if name == key {
                                return Some(i);
                            }
                        },
                        None => {},
                    }
                },
            }
            i = i + 1;
        }
        None
    }

    /// Whether the search for the section named `section_name` reads every
    /// header and name it visits without failing, as `find_safe` says.
    pub fn section_search_safe(&self, section_name: &str) -> (r: bool)
        requires
            self.wf(),
        ensures
            r == find_safe(self.data(), section_name@, 0),
    {
        let data = &self.elf_data;
        let key = section_name.to_owned();
        let count = section_count(data);
        let mut i: u16 = 0;
        while i < count
            invariant
                key@ == section_name@,
                data@ == self.data(),
                elf_parses(data@),
                header_ok(data@),
                count == elf_section_count(data@),
                find_safe(data@, section_name@, 0) == find_safe(data@, section_name@, i as int),
            decreases count - i,
        {
            if !check_sh_safe(data, i as u64) {
                return false;
            }
            if !check_sh_in_file(data, i) {
                return true;
            }
            if !check_name_safe(data, i) {
                return false;
            }
            match read_section_name(data, i) {
                Some(name) => {
                    if name == key {
                        return true;
                    }
                },
                None => {},
            }
            i = i + 1;
        }
        true
    }

    /// The address of the first section named `section_name`.
    pub fn get_section_addr(&self, section_name: &str) -> (r: Option<u64>)
        requires
            self.wf(),
            find_safe(self.data(), section_name@, 0),
        ensures
            r == (match find_section(self.data(), section_name@, 0) {
                Some(i) => elf_section_address(self.data(), i),
                None => None,
            }),
    {
        match self.find_section_index(section_name) {
            Some(i) => section_address(&self.elf_data, i),
            None => None,
        }
    }

    /// Copies each loadable segment of the file into `ram` at its virtual
    /// address less `BASE_ADDR`, the program headers in order until the
    /// first that cannot be read.
    pub fn load_to_ram(&self, ram: &mut Ram)
        requires
            self.wf(),
            old(ram)@.len() == RAM_SIZE,
            segments_ok(self.data(), 0),
        ensures
            final(ram)@.len() == RAM_SIZE,
            load_from(self.data(), old(ram)@, 0) is Some,
            final(ram)@ == load_from(self.data(), old(ram)@, 0)->0,
    {
        let data = &self.elf_data;
        let count = program_count(data);
        proof {
            lemma_load_from_some(data@, ram@, 0);
        }
        let mut i: u16 = 0;
        while i < count
            invariant
                data@ == self.data(),
                elf_parses(data@),
                count == elf_program_count(data@),
                ram@.len() == RAM_SIZE,
                header_ok(data@),
                segments_ok(data@, i as int),
                load_from(data@, old(ram)@, 0) == load_from(data@, ram@, i as int),
            decreases count - i,
        {
            proof {
                assert(load_from(data@, ram@, i as int) == (match elf_program_header(data@, i) {
                    None => Some(ram@),
                    Some(h) => match h.0 {
                        None => None,
                        Some(false) => load_from(data@, ram@, i + 1),
                        Some(true) => if segment_fits(data@.len(), h) {
                            load_from(data@, place(ram@, h.1 - BASE_ADDR, data@.subrange(h.2 as int, h.2 + h.3)), i + 1)
                        } else {
                            None
                        },
                    },
                }));
            }
            match program_header(data, i) {
                None => {
                    return;
                },
                Some(h) => {
                    let (load, vaddr, offset, size) = h;
                    match load {
                        None => {
                            proof {
                                assert(false);
                            }
                            return;
                        },
                        Some(false) => {},
                        Some(true) => {
                            let dlen = data.len();
                            proof {
                                assert(h.1 == vaddr && h.2 == offset && h.3 == size);
                                assert(segment_fits(data@.len(), h));
                                assert(offset + size <= dlen);
                            }
                            let bytes = copy_range(data, offset as usize, (offset + size) as usize);
                            ram.insert_section(&bytes, vaddr - BASE_ADDR);
                        },
                    }
                },
            }
            i = i + 1;
        }
    }

    /// Whether every loadable segment can be copied into RAM, as
    /// `segments_ok` says.
    fn segments_loadable(&self) -> (r: bool)
        requires
            self.wf(),
        ensures
            r == segments_ok(self.data(), 0),
    {
        let data = &self.elf_data;
        let count = program_count(data);
        let mut i: u16 = 0;
        while i < count
            invariant
                data@ == self.data(),
                elf_parses(data@),
                count == elf_program_count(data@),
                header_ok(data@),
                segments_ok(data@, 0) == segments_ok(data@, i as int),
            decreases count - i,
        {
            if !check_ph_safe(data, i) {
                return false;
            }
            match program_header(data, i) {
                None => {
                    return true;
                },
                Some(h) => {
                    let (load, vaddr, offset, size) = h;
                    match load {
                        None => {
                            return false;
                        },
                        Some(false) => {},
                        Some(true) => {
                            let dlen = data.len() as u64;
                            if offset > u64::MAX - size || offset + size > dlen || vaddr < BASE_ADDR
                                || vaddr - BASE_ADDR >= RAM_SIZE as u64 || size > RAM_SIZE as u64
                                || vaddr - BASE_ADDR + size > RAM_SIZE as u64 {
                                proof {
                                    assert(h.1 == vaddr && h.2 == offset && h.3 == size);
                                    assert(dlen == data@.len());
                                    assert(!segment_fits(data@.len(), h));
                                }
                                return false;
                            }
                        },
                    }
                },
            }
            i = i + 1;
        }
        true
    }

    /// Copies the loadable segments into `ram` as `load_to_ram` does where
    /// they can all be loaded, and returns whether they could; otherwise
    /// `ram` is left unchanged.
    pub fn try_load_to_ram(&self, ram: &mut Ram) -> (r: bool)
        requires
            self.wf(),
            old(ram)@.len() == RAM_SIZE,
        ensures
            final(ram)@.len() == RAM_SIZE,
            r == segments_ok(self.data(), 0),
            r ==> final(ram)@ == load_from(self.data(), old(ram)@, 0)->0,
            !r ==> final(ram)@ == old(ram)@,
    {
        proof {
            lemma_load_from_some(self.data(), ram@, 0);
        }
        if !self.segments_loadable() {
            return false;
        }
        self.load_to_ram(ram);
        true
    }

    /// Whether the symbol table is read without failing, as `symtab_safe`
    /// says.
    pub fn symbol_table_readable(&self) -> (r: bool)
        requires
            self.wf(),
        ensures
            r == symtab_safe(self.data()),
    {
        let data = &self.elf_data;
        if !self.section_search_safe(".symtab") {
            return false;
        }
        let j = match self.find_section_index(".symtab") {
            Some(j) => j,
            None => {
                return true;
            },
        };
        if !check_data_safe(data, j) {
            return false;
        }
        let n = match symbol_count(data, j) {
            Some(n) => n,
            None => {
                return true;
            },
        };
        if n == 0 {
            return true;
        }
        if !self.section_search_safe(".strtab") {
            return false;
        }
        let st = match self.find_section_index(".strtab") {
            Some(st) => st,
            None => {
                proof {
                    assert forall|k: int| 0 <= k < n implies #[trigger] entry_name_safe(data@, j as int, k) by {}
                }
                return true;
            },
        };
        let (_, t, _, o, z) = crate::elf_layout::section_fields(data, st);
        if t != 3 {
            proof {
                assert forall|k: int| 0 <= k < n implies #[trigger] entry_name_safe(data@, j as int, k) by {}
            }
            return true;
        }
        if (o as u128) + (z as u128) > u64::MAX as u128 || (o as u128) + (z as u128) > data.len() as u128 {
            return false;
        }
        let (_, _, _, sym_off, _) = crate::elf_layout::section_fields(data, j);
        let mut k: usize = 0;
        while k < n
            invariant
                data@ == self.data(),
                k <= n,
                n > 0,
                elf_symbol_count(data@, j) == Some(n),
                n * 24 == sh_size(data@, j as int),
                raw_safe(data@, j as int),
                sym_off == sh_offset(data@, j as int),
                find_section(data@, ".strtab"@, 0) == Some(st),
                find_section(data@, ".symtab"@, 0) == Some(j),
                t == sh_type(data@, st as int),
                t == 3,
                o == sh_offset(data@, st as int),
                z == sh_size(data@, st as int),
                o + z <= data@.len(),
                forall|m: int| 0 <= m < k ==> #[trigger] entry_name_safe(data@, j as int, m),
            decreases n - k,
        {
            assert(sym_off + 24 * k + 4 <= data@.len()) by (nonlinear_arith)
                requires
                    k < n,
                    n * 24 == sh_size(data@, j as int),
                    sym_off + sh_size(data@, j as int) <= data@.len(),
            ;
            let dlen = data.len();
            let pos: u64 = sym_off + 24 * (k as u64);
            assert(pos == sh_offset(data@, j as int) + 24 * k);
            assert(pos + 4 <= dlen);
            let name = crate::bytes::read_le_bytes(data, pos as usize, 4);
            assert(name == entry_name(data@, j as int, k as int));
            if name > z {
                assert(!entry_name_safe(data@, j as int, k as int));
                return false;
            }
            assert(o + z <= dlen);
            if !check_str_ok(data, (o + name) as usize, (o + z) as usize) {
                assert(!entry_name_safe(data@, j as int, k as int));
                return false;
            }
            k = k + 1;
        }
        true
    }

    /// The symbols of the first section named `.symtab`, read as a 64-bit
    /// symbol table; `None` where there is no such section, its data is no
    /// such table, or an entry's name cannot be read.
    pub fn get_symbol_table(&self) -> (r: Option<SymTab>)
        requires
            self.wf(),
            symtab_safe(self.data()),
        ensures
            r is Some <==> (find_section(self.data(), ".symtab"@, 0) matches Some(j) && elf_symbol_count(
                self.data(),
                j,
            ) matches Some(n) && symbol_names_ok(self.data(), j, n)),
            r is Some ==> r->0.wf() && (find_section(self.data(), ".symtab"@, 0) matches Some(j)
                && elf_symbol_count(self.data(), j) matches Some(n) && r->0.contents() == symbols_of(
                symbol_list(self.data(), j, n),
            )),
    {
        let data = &self.elf_data;
        let j = match self.find_section_index(".symtab") {
            Some(j) => j,
            None => {
                return None;
            },
        };
        let n = match symbol_count(data, j) {
            Some(n) => n,
            None => {
                return None;
            },
        };
        let mut list: Vec<(String, u64)> = Vec::new();
        let mut k: usize = 0;
        while k < n
            invariant
                data@ == self.data(),
                find_section(data@, ".symtab"@, 0) == Some(j),
                elf_parses(data@),
                symtab_safe(data@),
                j < 0xff00,
                elf_section_address(data@, j) is Some,
                sh_safe(data@, j as int),
                sh_in_file(data@, j as int),
                elf_symbol_count(data@, j) == Some(n),
                k <= n,
                symbol_names_ok(data@, j, k),
                views(list@) == symbol_list(data@, j, k),
            decreases n - k,
        {
            let (name, value) = symbol_entry(data, j, k);
            match name {
                None => {
                    proof {
                        assert(elf_symbol(data@, j, k).0 is None);
                        assert(!symbol_names_ok(data@, j, n));
                    }
                    return None;
                },
                Some(name) => {
                    let ghost before = list@;
                    let ghost nv = name@;
                    list.push((name, value));
                    proof {
                        assert(views(list@) =~= views(before).push((nv, value)));
                        assert(symbol_list(data@, j, (k + 1) as usize) =~= symbol_list(data@, j, k).push((nv, value)));
                        assert forall|m: usize| m < k + 1 implies (#[trigger] elf_symbol(data@, j, m)).0 is Some by {
                            if m < k {
                                assert(elf_symbol(data@, j, m).0 is Some);
                            }
                        }
                    }
                },
            }
            k = k + 1;
        }
        Some(SymTab::from(&list))
    }
}

/// After the symbols of `list` are inserted in order, the last one is in the
/// table.
pub proof fn law_last_symbol_kept(list: Seq<(Seq<char>, u64)>)
    requires
        list.len() > 0,
    ensures
        symbols_of(list).contains(list.last()),
{
}

/// In a table, looking up a name's address and an address's name agree:
/// the table maps names to addresses one to one.
pub proof fn law_lookups_agree(t: &SymTab, name: Seq<char>, addr: u64)
    requires
        t.wf(),
    ensures
        addr_of(t.contents(), name) == Some(addr) <==> name_of(t.contents(), addr) == Some(name),
{
    if addr_of(t.contents(), name) == Some(addr) {
        assert(t.contents().contains((name, addr)));
        let n = choose|n: Seq<char>| #[trigger] t.contents().contains((n, addr));
        t.lemma_unique((name, addr), (n, addr));
    }
    if name_of(t.contents(), addr) == Some(name) {
        assert(t.contents().contains((name, addr)));
        let a = choose|a: u64| #[trigger] t.contents().contains((name, a));
        t.lemma_unique((name, addr), (name, a));
    }
}

/// Copies the raw image `raw_data` to the start of RAM.
pub fn load_bin(ram: &mut Ram, raw_data: &Vec<u8>)
    requires
        old(ram)@.len() == RAM_SIZE,
        raw_data@.len() <= RAM_SIZE,
    ensures
        final(ram)@ == raw_data@ + old(ram)@.subrange(raw_data@.len() as int, RAM_SIZE as int),
{
    ram.insert_section(raw_data, 0);
    proof {
        assert(old(ram)@.subrange(0, 0) + raw_data@ =~= raw_data@);
    }
}

} // verus!
