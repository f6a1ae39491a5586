//! Byte-addressed RAM of a fixed size. Multi-byte values are stored little
//! endian, at addresses aligned to their size.

use vstd::prelude::*;
use vstd::arithmetic::power2::pow2;
use crate::bytes::{le, read_le_bytes, write_le_bytes};

verus! {

/// The physical address at which RAM starts.
pub const BASE_ADDR: u64 = 0x8000_0000;

/// The size of RAM in bytes: 512 MiB.
pub const RAM_SIZE: usize = 0x2000_0000;

/// The RAM of the machine.
pub struct Ram {
    data: Vec<u8>,
}

impl View for Ram {
    type V = Seq<u8>;

    closed spec fn view(&self) -> Seq<u8> {
        self.data@
    }
}

/// Whether an access of `n` bytes at offset `addr` lies within RAM and is
/// aligned to its size.
pub open spec fn access_ok(addr: int, n: nat) -> bool {
    &&& 0 <= addr
    &&& addr + n <= RAM_SIZE
    &&& addr % (n as int) == 0
}

/// The bytes `s` with the `n` little-endian bytes at `off` replaced by those
/// of `v`.
pub open spec fn store_le(s: Seq<u8>, off: int, n: nat, v: int) -> Seq<u8> {
    Seq::new(
        s.len(),
        |k: int|
            if off <= k < off + n {
                ((v / (pow2(8 * (k - off) as nat) as int)) % 256) as u8
            } else {
                s[k]
            },
    )
}

impl Ram {
    /// RAM with every byte zero.
    pub fn new() -> (r: Self)
        ensures
            r@.len() == RAM_SIZE,
            forall|k: int| 0 <= k < RAM_SIZE ==> r@[k] == 0,
    {
        let data: Vec<u8> = vec![0u8; RAM_SIZE];
        Ram { data }
    }

    /// The contents of RAM.
    pub fn as_bytes(&self) -> (r: &Vec<u8>)
        ensures
            r@ == self@,
    {
        &self.data
    }

    /// Copies `elf_section_data` into RAM from offset `start_addr` on.
    pub fn insert_section(&mut self, elf_section_data: &Vec<u8>, start_addr: u64)
        requires
            old(self)@.len() == RAM_SIZE,
            start_addr < RAM_SIZE,
            start_addr + elf_section_data@.len() <= RAM_SIZE,
        ensures
            final(self)@ == old(self)@.subrange(0, start_addr as int) + elf_section_data@ + old(self)@.subrange(
                start_addr + elf_section_data@.len(),
                RAM_SIZE as int,
            ),
    {
        let start = start_addr as usize;
        let mut i: usize = 0;
        let ghost before = self@;
        while i < elf_section_data.len()
            invariant
                i <= elf_section_data@.len(),
                start + elf_section_data@.len() <= RAM_SIZE,
                self@.len() == RAM_SIZE,
                before.len() == RAM_SIZE,
                forall|j: int| 0 <= j < start ==> self@[j] == before[j],
                forall|j: int| start + i <= j < RAM_SIZE ==> self@[j] == before[j],
                forall|j: int| 0 <= j < i ==> self@[start + j] == elf_section_data@[j],
            decreases elf_section_data@.len() - i,
        {
            self.data.set(start + i, elf_section_data[i]);
            i = i + 1;
        }
        proof {
            assert(self@ =~= before.subrange(0, start_addr as int) + elf_section_data@ + before.subrange(
                start_addr + elf_section_data@.len(),
                RAM_SIZE as int,
            ));
        }
    }

    /// The little-endian value of the `n` bytes at offset `addr`.
    fn read_n(&self, addr: u64, n: usize) -> (r: u64)
        requires
            self@.len() == RAM_SIZE,
            access_ok(addr as int, n as nat),
            n <= 8,
        ensures
            r == le(self@, addr as int, n as nat),
    {
        read_le_bytes(&self.data, addr as usize, n)
    }

    /// Stores `v` little endian in the `n` bytes at offset `addr`.
    fn write_n(&mut self, addr: u64, n: usize, v: u64)
        requires
            old(self)@.len() == RAM_SIZE,
            access_ok(addr as int, n as nat),
            n <= 8,
            v < pow2(8 * n as nat),
        ensures
            final(self)@.len() == RAM_SIZE,
            le(final(self)@, addr as int, n as nat) == v,
            forall|k: int| 0 <= k < RAM_SIZE && (k < addr || k >= addr + n) ==> final(self)@[k] == old(self)@[k],
    {
        write_le_bytes(&mut self.data, addr as usize, n, v)
    }

    /// The byte at offset `addr`.
    pub fn read_byte(&mut self, addr: u64) -> (r: u8)
        requires
            old(self)@.len() == RAM_SIZE,
            access_ok(addr as int, 1),
        ensures
            r == old(self)@[addr as int],
            final(self)@ == old(self)@,
    {
        self.data[addr as usize]
    }

    /// The 16-bit value at offset `addr`.
    pub fn read_word(&mut self, addr: u64) -> (r: u16)
        requires
            old(self)@.len() == RAM_SIZE,
            access_ok(addr as int, 2),
        ensures
            r == le(old(self)@, addr as int, 2),
            final(self)@ == old(self)@,
    {
        proof {
            crate::bytes::lemma_le_bound(self@, addr as int, 2);
            vstd::arithmetic::power2::lemma2_to64();
        }
        self.read_n(addr, 2) as u16
    }

    /// The 32-bit value at offset `addr`.
    pub fn read_dword(&mut self, addr: u64) -> (r: u32)
        requires
            old(self)@.len() == RAM_SIZE,
            access_ok(addr as int, 4),
        ensures
            r == le(old(self)@, addr as int, 4),
            final(self)@ == old(self)@,
    {
        proof {
            crate::bytes::lemma_le_bound(self@, addr as int, 4);
            vstd::arithmetic::power2::lemma2_to64();
        }
        self.read_n(addr, 4) as u32
    }

    /// The 64-bit value at offset `addr`.
    pub fn read_qword(&mut self, addr: u64) -> (r: u64)
        requires
            old(self)@.len() == RAM_SIZE,
            access_ok(addr as int, 8),
        ensures
            r == le(old(self)@, addr as int, 8),
            final(self)@ == old(self)@,
    {
        self.read_n(addr, 8)
    }

    /// Stores the byte `data` at offset `addr`.
    pub fn write_byte(&mut self, data: u8, addr: u64)
        requires
            old(self)@.len() == RAM_SIZE,
            access_ok(addr as int, 1),
        ensures
            final(self)@ == old(self)@.update(addr as int, data),
    {
        self.data.set(addr as usize, data);
    }

    /// Stores the 16-bit `data` little endian at offset `addr`.
    pub fn write_word(&mut self, data: u16, addr: u64)
        requires
            old(self)@.len() == RAM_SIZE,
            access_ok(addr as int, 2),
        ensures
            final(self)@.len() == RAM_SIZE,
            le(final(self)@, addr as int, 2) == data,
            forall|k: int| 0 <= k < RAM_SIZE && (k < addr || k >= addr + 2) ==> final(self)@[k] == old(self)@[k],
    {
        proof {
            vstd::arithmetic::power2::lemma2_to64();
        }
        self.write_n(addr, 2, data as u64)
    }

    /// Stores the 32-bit `data` little endian at offset `addr`.
    pub fn write_dword(&mut self, data: u32, addr: u64)
        requires
            old(self)@.len() == RAM_SIZE,
            access_ok(addr as int, 4),
        ensures
            final(self)@.len() == RAM_SIZE,
            le(final(self)@, addr as int, 4) == data,
            forall|k: int| 0 <= k < RAM_SIZE && (k < addr || k >= addr + 4) ==> final(self)@[k] == old(self)@[k],
    {
        proof {
            vstd::arithmetic::power2::lemma2_to64();
        }
        self.write_n(addr, 4, data as u64)
    }

    /// Stores the 64-bit `data` little endian at offset `addr`.
    pub fn write_qword(&mut self, data: u64, addr: u64)
        requires
            old(self)@.len() == RAM_SIZE,
            access_ok(addr as int, 8),
        ensures
            final(self)@.len() == RAM_SIZE,
            le(final(self)@, addr as int, 8) == data,
            forall|k: int| 0 <= k < RAM_SIZE && (k < addr || k >= addr + 8) ==> final(self)@[k] == old(self)@[k],
    {
        proof {
            vstd::arithmetic::power2::lemma2_to64_rest();
        }
        self.write_n(addr, 8, data)
    }

    /// The little-endian value of the `n` bytes at offset `addr`, for the
    /// access sizes 1, 2, 4 and 8.
    pub fn load(&self, addr: u64, n: usize) -> (r: u64)
        requires
            self@.len() == RAM_SIZE,
            n == 1 || n == 2 || n == 4 || n == 8,
            access_ok(addr as int, n as nat),
        ensures
            r == le(self@, addr as int, n as nat),
    {
        self.read_n(addr, n)
    }

    /// Stores `v` little endian in the `n` bytes at offset `addr`, for the
    /// access sizes 1, 2, 4 and 8.
    pub fn store(&mut self, addr: u64, n: usize, v: u64)
        requires
            old(self)@.len() == RAM_SIZE,
            n == 1 || n == 2 || n == 4 || n == 8,
            access_ok(addr as int, n as nat),
            v < pow2(8 * n as nat),
        ensures
            final(self)@.len() == RAM_SIZE,
            le(final(self)@, addr as int, n as nat) == v,
            forall|k: int| 0 <= k < RAM_SIZE && (k < addr || k >= addr + n) ==> final(self)@[k] == old(self)@[k],
    {
        self.write_n(addr, n, v)
    }
}


/// A store of `n` little-endian bytes that leaves every other byte alone
/// gives `store_le`.
pub proof fn lemma_store_le(old: Seq<u8>, new: Seq<u8>, off: int, n: nat, v: int)
    requires
        new.len() == old.len(),
        0 <= off,
        off + n <= old.len(),
        le(new, off, n) == v,
        forall|k: int| 0 <= k < old.len() && (k < off || k >= off + n) ==> new[k] == old[k],
    ensures
        new == store_le(old, off, n, v),
{
    assert forall|k: int| 0 <= k < old.len() implies new[k] == #[trigger] store_le(old, off, n, v)[k] by {
        if off <= k < off + n {
            crate::bytes::lemma_le_digit(new, off, n, (k - off) as nat);
        }
    }
    assert(new =~= store_le(old, off, n, v));
}

/// A read of the `n` bytes at `off` gives back the value `v` that a store
/// of `n` bytes there just wrote, and the store leaves every other byte as
/// it was.
pub proof fn law_store_then_load(s: Seq<u8>, off: int, n: nat, v: int)
    requires
        0 <= off,
        off + n <= s.len(),
        0 <= v < pow2(8 * n),
    ensures
        store_le(s, off, n, v).len() == s.len(),
        le(store_le(s, off, n, v), off, n) == v,
        forall|k: int| 0 <= k < s.len() && (k < off || k >= off + n) ==> store_le(s, off, n, v)[k] == s[k],
{
    let t = store_le(s, off, n, v);
    assert forall|j: nat| j < n implies t[off + j] == #[trigger] crate::bytes::byte_digit(v, j) by {
        assert(off + j - off == j);
        vstd::arithmetic::power2::lemma_pow2_pos(8 * j);
        vstd::arithmetic::div_mod::lemma_div_pos_is_pos(v, pow2(8 * j) as int);
        vstd::arithmetic::div_mod::lemma_mod_pos_bound(v / (pow2(8 * j) as int), 256);
    }
    crate::bytes::lemma_le_of_digits(t, off, n, v);
}

} // verus!
