//! Word-level helpers: sign extension, two's complement negation,
//! truncation between widths, and single-bit access.

use vstd::prelude::*;
use vstd::arithmetic::power2::*;
use crate::bits::{wrap, sign_extend_spec};
pub use crate::bits::sign_extend;

verus! {

/// The low 32 bits of `value` read as a two's complement number and
/// extended to 64 bits.
pub fn sign_extend_u32(value: u32) -> (r: u64)
    ensures
        r == sign_extend_spec(value as u64, 32),
{
    sign_extend(value as u64, 32)
}

/// `lhs + rhs`, both read as signed words, wrapped to 64 bits.
pub fn wrapping_add_as_signed(lhs: u64, rhs: u64) -> (r: u64)
    ensures
        r == wrap(lhs + rhs, 64),
{
    proof {
        lemma2_to64_rest();
    }
    lhs.wrapping_add(rhs)
}

/// The two's complement negation of `value`.
pub fn negative_of(value: u64) -> (r: u64)
    ensures
        r == wrap(-value, 64),
{
    proof {
        lemma2_to64_rest();
        assert((!value) as int == 0xffff_ffff_ffff_ffff - value) by (bit_vector);
    }
    (!value).wrapping_add(1)
}

/// Negating a word twice gives the word back.
pub proof fn law_negative_of_involutive(x: u64)
    ensures
        wrap(-wrap(-x, 64), 64) == x,
{
    lemma2_to64_rest();
    if x == 0 {
        assert(wrap(-x, 64) == 0);
    } else {
        assert(wrap(-x, 64) == 0x1_0000_0000_0000_0000 - x) by {
            vstd::arithmetic::div_mod::lemma_fundamental_div_mod_converse(-x, 0x1_0000_0000_0000_0000, -1, 0x1_0000_0000_0000_0000 - x);
        }
        assert(wrap(x - 0x1_0000_0000_0000_0000, 64) == x) by {
            vstd::arithmetic::div_mod::lemma_fundamental_div_mod_converse(x - 0x1_0000_0000_0000_0000, 0x1_0000_0000_0000_0000, -1, x as int);
        }
    }
}

/// Whether `addr` is aligned for an access of `size` bytes, a size of at
/// most 8: sizes 0 and 1 always are, sizes 2, 4 and 8 at multiples of the
/// size, and the other sizes only at address 0.
pub fn check_align(addr: u64, size: usize) -> (r: bool)
    requires
        size <= 8,
    ensures
        r == if size == 0 || size == 1 {
            true
        } else if size == 2 || size == 4 || size == 8 {
            addr as int % size as int == 0
        } else {
            addr == 0
        },
{
    let mask: u64 = if size == 0 || size == 1 {
        0
    } else if size == 2 {
        1
    } else if size == 4 {
        3
    } else if size == 8 {
        7
    } else {
        u64::MAX
    };
    assert((addr & 0u64) == 0) by (bit_vector);
    assert((addr & 1u64) == 0 <==> addr % 2 == 0) by (bit_vector);
    assert((addr & 3u64) == 0 <==> addr % 4 == 0) by (bit_vector);
    assert((addr & 7u64) == 0 <==> addr % 8 == 0) by (bit_vector);
    assert((addr & 0xffff_ffff_ffff_ffffu64) == addr) by (bit_vector);
    (addr & mask) == 0
}

/// The names of `arr1` followed by those of `arr2`.
pub fn concat_arrays(arr1: &Vec<&'static str>, arr2: &Vec<&'static str>) -> (r: Vec<&'static str>)
    requires
        arr1@.len() + arr2@.len() <= usize::MAX,
    ensures
        r@ == arr1@ + arr2@,
{
    let mut ret: Vec<&'static str> = Vec::new();
    let mut i: usize = 0;
    while i < arr1.len()
        invariant
            i <= arr1@.len(),
            ret@ == arr1@.subrange(0, i as int),
        decreases arr1@.len() - i,
    {
        ret.push(arr1[i]);
        i = i + 1;
        proof {
            assert(ret@ =~= arr1@.subrange(0, i as int));
        }
    }
    let mut j: usize = 0;
    while j < arr2.len()
        invariant
            j <= arr2@.len(),
            ret@ == arr1@ + arr2@.subrange(0, j as int),
        decreases arr2@.len() - j,
    {
        ret.push(arr2[j]);
        j = j + 1;
        proof {
            assert(ret@ =~= arr1@ + arr2@.subrange(0, j as int));
        }
    }
    proof {
        assert(arr2@.subrange(0, arr2@.len() as int) =~= arr2@);
        assert(arr1@.subrange(0, arr1@.len() as int) =~= arr1@);
    }
    ret
}

/// The 64-bit word whose high half is `high` and low half is `low`.
pub fn concat_to_u64(high: u32, low: u32) -> (r: u64)
    ensures
        r == high * 0x1_0000_0000 + low,
{
    let h: u64 = (high as u64) << 32;
    let l: u64 = low as u64;
    assert(h == l * 0 + (high as u64) * 0x1_0000_0000) by (bit_vector)
        requires
            h == (high as u64) << 32,
    ;
    assert((h | l) == h + l) by (bit_vector)
        requires
            h == (high as u64) << 32,
            l <= 0xffff_ffff,
    ;
    h | l
}

/// Conversion that keeps the low bits of a value that may not fit.
pub trait TruncateFrom<T>: Sized {
    fn truncate_from(value: T) -> Self;
}

impl TruncateFrom<u8> for u8 {
    fn truncate_from(value: u8) -> (r: u8)
        ensures
            r == value,
    {
        value as u8
    }
}
impl TruncateFrom<u8> for u16 {
    fn truncate_from(value: u8) -> (r: u16)
        ensures
            r == value,
    {
        value as u16
    }
}
impl TruncateFrom<u8> for u32 {
    fn truncate_from(value: u8) -> (r: u32)
        ensures
            r == value,
    {
        value as u32
    }
}
impl TruncateFrom<u8> for u64 {
    fn truncate_from(value: u8) -> (r: u64)
        ensures
            r == value,
    {
        value as u64
    }
}
impl TruncateFrom<u8> for u128 {
    fn truncate_from(value: u8) -> (r: u128)
        ensures
            r == value,
    {
        value as u128
    }
}
impl TruncateFrom<u16> for u8 {
    fn truncate_from(value: u16) -> (r: u8)
        ensures
            r == value % 0x100,
    {
        (value % 0x100) as u8
    }
}
impl TruncateFrom<u16> for u16 {
    fn truncate_from(value: u16) -> (r: u16)
        ensures
            r == value,
    {
        value as u16
    }
}
impl TruncateFrom<u16> for u32 {
    fn truncate_from(value: u16) -> (r: u32)
        ensures
            r == value,
    {
        value as u32
    }
}
impl TruncateFrom<u16> for u64 {
    fn truncate_from(value: u16) -> (r: u64)
        ensures
            r == value,
    {
        value as u64
    }
}
impl TruncateFrom<u16> for u128 {
    fn truncate_from(value: u16) -> (r: u128)
        ensures
            r == value,
    {
        value as u128
    }
}
impl TruncateFrom<u32> for u8 {
    fn truncate_from(value: u32) -> (r: u8)
        ensures
            r == value % 0x100,
    {
        (value % 0x100) as u8
    }
}
impl TruncateFrom<u32> for u16 {
    fn truncate_from(value: u32) -> (r: u16)
        ensures
            r == value % 0x10000,
    {
        (value % 0x10000) as u16
    }
}
impl TruncateFrom<u32> for u32 {
    fn truncate_from(value: u32) -> (r: u32)
        ensures
            r == value,
    {
        value as u32
    }
}
impl TruncateFrom<u32> for u64 {
    fn truncate_from(value: u32) -> (r: u64)
        ensures
            r == value,
    {
        value as u64
    }
}
impl TruncateFrom<u32> for u128 {
    fn truncate_from(value: u32) -> (r: u128)
        ensures
            r == value,
    {
        value as u128
    }
}
impl TruncateFrom<u64> for u8 {
    fn truncate_from(value: u64) -> (r: u8)
        ensures
            r == value % 0x100,
    {
        (value % 0x100) as u8
    }
}
impl TruncateFrom<u64> for u16 {
    fn truncate_from(value: u64) -> (r: u16)
        ensures
            r == value % 0x10000,
    {
        (value % 0x10000) as u16
    }
}
impl TruncateFrom<u64> for u32 {
    fn truncate_from(value: u64) -> (r: u32)
        ensures
            r == value % 0x100000000,
    {
        (value % 0x100000000) as u32
    }
}
impl TruncateFrom<u64> for u64 {
    fn truncate_from(value: u64) -> (r: u64)
        ensures
            r == value,
    {
        value as u64
    }
}
impl TruncateFrom<u64> for u128 {
    fn truncate_from(value: u64) -> (r: u128)
        ensures
            r == value,
    {
        value as u128
    }
}
impl TruncateFrom<u128> for u8 {
    fn truncate_from(value: u128) -> (r: u8)
        ensures
            r == value % 0x100,
    {
        (value % 0x100) as u8
    }
}
impl TruncateFrom<u128> for u16 {
    fn truncate_from(value: u128) -> (r: u16)
        ensures
            r == value % 0x10000,
    {
        (value % 0x10000) as u16
    }
}
impl TruncateFrom<u128> for u32 {
    fn truncate_from(value: u128) -> (r: u32)
        ensures
            r == value % 0x100000000,
    {
        (value % 0x100000000) as u32
    }
}
impl TruncateFrom<u128> for u64 {
    fn truncate_from(value: u128) -> (r: u64)
        ensures
            r == value % 0x10000000000000000,
    {
        (value % 0x10000000000000000) as u64
    }
}
impl TruncateFrom<u128> for u128 {
    fn truncate_from(value: u128) -> (r: u128)
        ensures
            r == value,
    {
        value as u128
    }
}

/// A mask of the low `bits` bits.
fn low_mask(bits: u32) -> (r: u64)
    requires
        bits < 64,
    ensures
        r == vstd::bits::low_bits_mask(bits as nat),
{
    proof {
        vstd::bits::lemma_u64_pow2_no_overflow(bits as nat);
        vstd::bits::lemma_u64_shl_is_mul(1, bits as u64);
    }
    (1u64 << bits) - 1
}

/// Masking with the low `bits` bits keeps the value modulo `2^bits`.
proof fn lemma_mask_is_mod(x: u64, bits: u32)
    requires
        bits < 64,
    ensures
        x & (vstd::bits::low_bits_mask(bits as nat) as u64) == x as int % pow2(bits as nat) as int,
        x as int % pow2(bits as nat) as int <= x,
{
    vstd::bits::lemma_u64_low_bits_mask_is_mod(x, bits as nat);
    vstd::bits::lemma_u64_pow2_no_overflow(bits as nat);
    vstd::arithmetic::div_mod::lemma_mod_decreases(x as nat, pow2(bits as nat));
}

/// Keeping only the low bits of a value.
pub trait TruncateToBits<T>: Sized {
    fn truncate_to_bits(self, bits: u32) -> Self;
}

impl TruncateToBits<u8> for u8 {
    fn truncate_to_bits(self, bits: u32) -> (r: u8)
        ensures
            bits >= 64 ==> r == self,
            bits < 64 ==> r == self as int % pow2(bits as nat) as int,
    {
        if bits >= 64 {
            self
        } else {
            let m = low_mask(bits);
            proof {
                lemma_mask_is_mod(self as u64, bits);
            }
            ((self as u64) & m) as u8
        }
    }
}
impl TruncateToBits<u16> for u16 {
    fn truncate_to_bits(self, bits: u32) -> (r: u16)
        ensures
            bits >= 64 ==> r == self,
            bits < 64 ==> r == self as int % pow2(bits as nat) as int,
    {
        if bits >= 64 {
            self
        } else {
            let m = low_mask(bits);
            proof {
                lemma_mask_is_mod(self as u64, bits);
            }
            ((self as u64) & m) as u16
        }
    }
}
impl TruncateToBits<u32> for u32 {
    fn truncate_to_bits(self, bits: u32) -> (r: u32)
        ensures
            bits >= 64 ==> r == self,
            bits < 64 ==> r == self as int % pow2(bits as nat) as int,
    {
        if bits >= 64 {
            self
        } else {
            let m = low_mask(bits);
            proof {
                lemma_mask_is_mod(self as u64, bits);
            }
            ((self as u64) & m) as u32
        }
    }
}
impl TruncateToBits<u64> for u64 {
    fn truncate_to_bits(self, bits: u32) -> (r: u64)
        ensures
            bits >= 64 ==> r == self,
            bits < 64 ==> r == self as int % pow2(bits as nat) as int,
    {
        if bits >= 64 {
            self
        } else {
            let m = low_mask(bits);
            proof {
                lemma_mask_is_mod(self as u64, bits);
            }
            ((self as u64) & m) as u64
        }
    }
}

/// Sets bit `idx` of `data`.
pub fn set_bit(data: &mut u64, idx: u32)
    requires
        idx < 64,
    ensures
        *final(data) == *old(data) | (1u64 << idx),
{
    *data = *data | (1u64 << idx);
}

/// Clears bit `idx` of `data`.
pub fn clear_bit(data: &mut u64, idx: u32)
    requires
        idx < 64,
    ensures
        *final(data) == *old(data) & !(1u64 << idx),
{
    *data = *data & !(1u64 << idx);
}

/// Whether bit `idx` of `data` is set.
pub fn read_bit(data: &u64, idx: u32) -> (r: bool)
    requires
        idx < 64,
    ensures
        r == ((*data >> idx) & 1 == 1),
{
    let r = (*data & (1u64 << idx)) != 0;
    assert((*data & (1u64 << idx)) != 0 <==> (*data >> idx) & 1 == 1) by (bit_vector)
        requires idx < 64;
    r
}

} // verus!
