//! The vector register file: 32 registers of `VLEN` bits, stored as bytes.
//! Elements are little-endian groups of bytes.

use vstd::prelude::*;
use vstd::arithmetic::power2::*;
use vstd::arithmetic::div_mod::*;
use vstd::arithmetic::mul::*;
pub use crate::bytes::{le, lemma_le_bound, lemma_le_frame, read_le_bytes, write_le_bytes};

verus! {

/// The width of one vector register in bits.
pub const VLEN: usize = 128;

/// The width of one vector register in bytes.
pub const VLEN_BYTE: usize = 16;

/// The number of vector registers.
pub const VREG_COUNT: usize = 32;

/// The size of the register file in bytes.
pub const VREGFILE_BYTES: usize = 512;

/// The `i`-th `w`-byte element of the register group whose first byte is at
/// `base`.
pub open spec fn elem(s: Seq<u8>, base: int, w: nat, i: int) -> nat {
    le(s, base + i * w, w)
}

/// The element widths in bytes.
pub open spec fn valid_width(w: nat) -> bool {
    w == 1 || w == 2 || w == 4 || w == 8
}

/// Whether `idx` names a group of `lmul` registers: `lmul` is a power of two
/// up to 8, `idx` is a multiple of it, and the group ends within the file.
pub open spec fn valid_group(idx: int, lmul: int) -> bool {
    &&& (lmul == 1 || lmul == 2 || lmul == 4 || lmul == 8)
    &&& idx % lmul == 0
    &&& 0 <= idx
    &&& idx + lmul <= 32
}

/// The element bounds: an element of `w` bytes is below `2^(8w)`, and for the
/// element widths that power is at most `2^64`.
pub proof fn lemma_elem_bound(s: Seq<u8>, base: int, w: nat, i: int)
    requires
        valid_width(w),
    ensures
        elem(s, base, w, i) < pow2(8 * w),
        pow2(8 * w) <= 0x1_0000_0000_0000_0000,
        elem(s, base, w, i) <= 0xffff_ffff_ffff_ffff,
{
    lemma_le_bound(s, base + i * w, w);
    lemma2_to64();
    lemma2_to64_rest();
}

/// The byte range of element `i` lies within the group of `count` elements.
pub proof fn lemma_elem_range(base: int, w: nat, i: int, count: int)
    requires
        0 <= i < count,
        w > 0,
    ensures
        base <= base + i * w,
        base + i * w + w <= base + count * w,
{
    lemma_mul_inequality(i + 1, count, w as int);
    lemma_mul_nonnegative(i, w as int);
    lemma_mul_is_distributive_add_other_way(w as int, i, 1);
}

/// Elements `i < j` occupy disjoint byte ranges.
pub proof fn lemma_elem_disjoint(base: int, w: nat, i: int, j: int)
    requires
        i < j,
        w > 0,
    ensures
        base + i * w + w <= base + j * w,
{
    lemma_mul_inequality(i + 1, j, w as int);
    lemma_mul_is_distributive_add_other_way(w as int, i, 1);
}

/// The vector register file.
pub struct VectorRegFile {
    bytes: Vec<u8>,
}

impl View for VectorRegFile {
    type V = Seq<u8>;

    closed spec fn view(&self) -> Seq<u8> {
        self.bytes@
    }
}

impl Clone for VectorRegFile {
    fn clone(&self) -> (r: Self)
        ensures
            r@ == self@,
    {
        VectorRegFile { bytes: self.bytes.clone() }
    }
}

impl VectorRegFile {
    /// A register file with every register zero.
    pub fn new() -> (r: VectorRegFile)
        ensures
            r@.len() == VREGFILE_BYTES,
            forall|k: int| 0 <= k < VREGFILE_BYTES ==> r@[k] == 0,
    {
        let mut bytes: Vec<u8> = Vec::new();
        let mut i: usize = 0;
        while i < VREGFILE_BYTES
            invariant
                i <= VREGFILE_BYTES,
                bytes@.len() == i,
                forall|k: int| 0 <= k < i ==> bytes@[k] == 0,
            decreases VREGFILE_BYTES - i,
        {
            bytes.push(0);
            i = i + 1;
        }
        VectorRegFile { bytes }
    }

    /// The byte at position `k`.
    pub fn byte(&self, k: usize) -> (r: u8)
        requires
            k < self@.len(),
        ensures
            r == self@[k as int],
    {
        self.bytes[k]
    }

    /// Replaces the byte at position `k`.
    pub fn set_byte(&mut self, k: usize, value: u8)
        requires
            k < old(self)@.len(),
        ensures
            final(self)@ == old(self)@.update(k as int, value),
    {
        self.bytes.set(k, value);
    }

    /// The `w`-byte element at byte offset `off`.
    pub fn read_elem(&self, off: usize, w: usize) -> (r: u64)
        requires
            off + w <= self@.len(),
            self@.len() == VREGFILE_BYTES,
            valid_width(w as nat),
        ensures
            r == le(self@, off as int, w as nat),
    {
        read_le_bytes(&self.bytes, off, w)
    }

    /// Stores the `w`-byte element `v` at byte offset `off`.
    pub fn write_elem(&mut self, off: usize, w: usize, v: u64)
        requires
            off + w <= old(self)@.len(),
            old(self)@.len() == VREGFILE_BYTES,
            valid_width(w as nat),
            v < pow2(8 * w as nat),
        ensures
            final(self)@.len() == old(self)@.len(),
            le(final(self)@, off as int, w as nat) == v,
            forall|k: int|
                0 <= k < old(self)@.len() && (k < off || k >= off + w) ==> final(self)@[k] == old(self)@[k],
    {
        write_le_bytes(&mut self.bytes, off, w, v)
    }

    /// The bytes of the group of `lmul` registers starting at register `idx`.
    pub fn read_group(&self, lmul: u8, idx: u8) -> (r: Option<Vec<u8>>)
        requires
            self@.len() == VREGFILE_BYTES,
        ensures
            r is Some <==> valid_group(idx as int, lmul as int),
            r is Some ==> r->0@ == self@.subrange(idx * 16, idx * 16 + lmul * 16),
    {
        if !(lmul == 1 || lmul == 2 || lmul == 4 || lmul == 8) || idx % lmul != 0 || idx as usize + lmul as usize > VREG_COUNT {
            return None;
        }
        let start = idx as usize * VLEN_BYTE;
        let end = start + lmul as usize * VLEN_BYTE;
        let mut out: Vec<u8> = Vec::new();
        let mut k = start;
        while k < end
            invariant
                start <= k <= end,
                end <= VREGFILE_BYTES,
                self@.len() == VREGFILE_BYTES,
                out@ == self@.subrange(start as int, k as int),
            decreases end - k,
        {
            out.push(self.bytes[k]);
            k = k + 1;
            proof {
                assert(out@ =~= self@.subrange(start as int, k as int));
            }
        }
        Some(out)
    }

    /// Overwrites the start of the group of `lmul` registers at register
    /// `idx` with `value`; bytes of the group past `value` keep their values.
    /// Fails, changing nothing, when the group is invalid or `value` is
    /// longer than the group.
    pub fn write_group(&mut self, lmul: u8, idx: u8, value: &Vec<u8>) -> (r: bool)
        requires
            old(self)@.len() == VREGFILE_BYTES,
        ensures
            final(self)@.len() == VREGFILE_BYTES,
            r <==> valid_group(idx as int, lmul as int) && value@.len() <= lmul * 16,
            r ==> final(self)@ == old(self)@.subrange(0, idx * 16) + value@ + old(self)@.subrange(
                idx * 16 + value@.len(),
                VREGFILE_BYTES as int,
            ),
            !r ==> final(self)@ == old(self)@,
    {
        if !(lmul == 1 || lmul == 2 || lmul == 4 || lmul == 8) || idx % lmul != 0 || idx as usize + lmul as usize > VREG_COUNT {
            return false;
        }
        if value.len() > lmul as usize * VLEN_BYTE {
            return false;
        }
        let start = idx as usize * VLEN_BYTE;
        let mut k: usize = 0;
        let ghost before = self@;
        while k < value.len()
            invariant
                k <= value@.len(),
                start + value@.len() <= VREGFILE_BYTES,
                self@.len() == VREGFILE_BYTES,
                before.len() == VREGFILE_BYTES,
                forall|j: int| 0 <= j < start ==> self@[j] == before[j],
                forall|j: int| start + k <= j < VREGFILE_BYTES ==> self@[j] == before[j],
                forall|j: int| 0 <= j < k ==> self@[start + j] == value@[j],
            decreases value@.len() - k,
        {
            self.bytes.set(start + k, value[k]);
            k = k + 1;
        }
        proof {
            assert(self@ =~= before.subrange(0, idx * 16) + value@ + before.subrange(
                idx * 16 + value@.len(),
                VREGFILE_BYTES as int,
            ));
        }
        true
    }
}

} // verus!
