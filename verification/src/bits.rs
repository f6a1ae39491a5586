//! Bit-level helpers on machine words: sign extension, two's complement
//! negation, truncation to a bit width, and single-bit access.

use vstd::prelude::*;
use vstd::arithmetic::power2::*;

verus! {

/// 2 to the power `n`, as a 128-bit number.
pub fn pow2_u128(n: u32) -> (r: u128)
    requires
        n < 128,
    ensures
        r == pow2(n as nat),
{
    let mut r: u128 = 1;
    let mut i: u32 = 0;
    proof {
        lemma2_to64();
    }
    while i < n
        invariant
            i <= n,
            n < 128,
            r == pow2(i as nat),
        decreases n - i,
    {
        proof {
            lemma_pow2_unfold((i + 1) as nat);
            lemma_pow2_strictly_increases((i + 1) as nat, 128);
            lemma2_to64_rest();
            lemma_pow2_adds(64, 64);
        }
        r = r * 2;
        i = i + 1;
    }
    r
}

/// The value of the low `from_bits` bits of `value`, read as a two's
/// complement number and extended to 64 bits.
pub open spec fn sign_extend_spec(value: u64, from_bits: nat) -> int {
    let low = value as int % (pow2(from_bits) as int);
    if low >= pow2((from_bits - 1) as nat) {
        low - pow2(from_bits) + pow2(64)
    } else {
        low
    }
}

/// Sign-extends the low `from_bits` bits of `value` to a full 64-bit word.
pub fn sign_extend(value: u64, from_bits: u32) -> (r: u64)
    requires
        1 <= from_bits <= 64,
    ensures
        r == sign_extend_spec(value, from_bits as nat),
{
    let m = pow2_u128(from_bits);
    let half = pow2_u128(from_bits - 1);
    proof {
        lemma_pow2_unfold(from_bits as nat);
        if from_bits < 64 {
            lemma_pow2_strictly_increases(from_bits as nat, 64);
        }
        lemma2_to64();
        lemma2_to64_rest();
    }
    let low = (value as u128) % m;
    if low >= half {
        (low + 0x1_0000_0000_0000_0000u128 - m) as u64
    } else {
        low as u64
    }
}


/// The element widths, in bits, that the machine computes with.
pub open spec fn valid_bits(bits: nat) -> bool {
    bits == 8 || bits == 16 || bits == 32 || bits == 64
}

/// `x` reduced modulo `2^bits`: the bits that a `bits`-wide register keeps.
pub open spec fn wrap(x: int, bits: nat) -> int {
    x % (pow2(bits) as int)
}

/// The two's complement value of the `bits`-wide pattern `a`.
pub open spec fn to_signed(a: int, bits: nat) -> int {
    if a >= pow2((bits - 1) as nat) {
        a - pow2(bits)
    } else {
        a
    }
}

/// The powers of two that the element widths give.
pub proof fn lemma_width_pow2(bits: nat)
    requires
        valid_bits(bits),
    ensures
        pow2(bits) == 2 * pow2((bits - 1) as nat),
        pow2(bits) <= 0x1_0000_0000_0000_0000,
        pow2((bits - 1) as nat) >= 128,
        bits == 8 ==> pow2(bits) == 0x100,
        bits == 16 ==> pow2(bits) == 0x1_0000,
        bits == 32 ==> pow2(bits) == 0x1_0000_0000,
        bits == 64 ==> pow2(bits) == 0x1_0000_0000_0000_0000,
{
    lemma2_to64();
    lemma2_to64_rest();
}

/// The two's complement value of the `bits`-wide element `a`.
pub fn as_signed_i128(a: u64, bits: u32) -> (r: i128)
    requires
        valid_bits(bits as nat),
        a < pow2(bits as nat),
    ensures
        r == to_signed(a as int, bits as nat),
{
    proof {
        lemma_width_pow2(bits as nat);
    }
    let m = pow2_u128(bits);
    let half = pow2_u128(bits - 1);
    if (a as u128) >= half {
        (a as i128) - (m as i128)
    } else {
        a as i128
    }
}

/// The `bits`-wide pattern of the integer `v`.
pub fn from_signed_i128(v: i128, bits: u32) -> (r: u64)
    requires
        valid_bits(bits as nat),
        -0x4000_0000_0000_0000_0000_0000_0000_0000 <= v <= 0x4000_0000_0000_0000_0000_0000_0000_0000,
    ensures
        r == wrap(v as int, bits as nat),
        r < pow2(bits as nat),
{
    proof {
        lemma_width_pow2(bits as nat);
    }
    let m = pow2_u128(bits);
    let c: u128 = 0x4000_0000_0000_0000_0000_0000_0000_0000;
    let u: u128 = if v >= 0 {
        (v as u128) + c
    } else {
        c - ((-v) as u128)
    };
    let r = u % m;
    proof {
        let k = c as int / m as int;
        if bits == 8 {
            assert(m as int * k == c as int);
        } else if bits == 16 {
            assert(m as int * k == c as int);
        } else if bits == 32 {
            assert(m as int * k == c as int);
        } else {
            assert(m as int * k == c as int);
        }
        vstd::arithmetic::div_mod::lemma_mod_multiples_vanish(k, v as int, m as int);
        assert(r as int == wrap(v as int, bits as nat));
    }
    r as u64
}

/// The shift amount that a `bits`-wide shift takes from `value`: its low
/// `log2(bits)` bits.
pub fn shift_amount(value: u64, bits: u32) -> (r: u32)
    requires
        valid_bits(bits as nat),
    ensures
        r == value as int % bits as int,
        r < bits,
{
    (value % (bits as u64)) as u32
}

} // verus!
