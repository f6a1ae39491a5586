//! Little-endian values stored in byte sequences.

use vstd::prelude::*;
use vstd::arithmetic::power2::*;
use vstd::arithmetic::div_mod::*;

verus! {

/// The little-endian value of the `n` bytes of `s` starting at `off`.
pub open spec fn le(s: Seq<u8>, off: int, n: nat) -> nat
    decreases n,
{
    if n == 0 {
        0
    } else {
        s[off] as nat + 256 * le(s, off + 1, (n - 1) as nat)
    }
}

/// A little-endian value of `n` bytes is below `2^(8n)`.
pub proof fn lemma_le_bound(s: Seq<u8>, off: int, n: nat)
    ensures
        le(s, off, n) < pow2(8 * n),
    decreases n,
{
    if n == 0 {
        lemma2_to64();
    } else {
        lemma_le_bound(s, off + 1, (n - 1) as nat);
        lemma_pow2_adds(8, 8 * (n - 1) as nat);
        lemma2_to64();
        assert(8 * n == 8 + 8 * (n - 1) as nat);
        let rest = le(s, off + 1, (n - 1) as nat);
        let p = pow2(8 * (n - 1) as nat);
        assert(s[off] as nat + 256 * rest < 256 * p) by (nonlinear_arith)
            requires
                rest < p,
                s[off] < 256,
        ;
    }
}

/// A little-endian value depends only on its own bytes.
pub proof fn lemma_le_frame(s1: Seq<u8>, s2: Seq<u8>, off: int, n: nat)
    requires
        forall|k: int| off <= k < off + n ==> s1[k] == s2[k],
    ensures
        le(s1, off, n) == le(s2, off, n),
    decreases n,
{
    if n > 0 {
        lemma_le_frame(s1, s2, off + 1, (n - 1) as nat);
    }
}

/// The little-endian value of the `n` bytes starting at `off`.
pub fn read_le_bytes(s: &Vec<u8>, off: usize, n: usize) -> (r: u64)
    requires
        off + n <= s@.len(),
        n <= 8,
    ensures
        r == le(s@, off as int, n as nat),
    decreases n,
{
    if n == 0 {
        0
    } else {
        let len = s.len();
        assert(off + 1 <= len);
        let rest = read_le_bytes(s, off + 1, n - 1);
        proof {
            lemma_le_bound(s@, off + 1, (n - 1) as nat);
            lemma2_to64();
            lemma2_to64_rest();
            if n - 1 < 7 {
                lemma_pow2_strictly_increases(8 * (n - 1) as nat, 56);
            }
        }
        s[off] as u64 + 256 * rest
    }
}

/// Stores `v` little-endian in the `n` bytes starting at `off`.
pub fn write_le_bytes(s: &mut Vec<u8>, off: usize, n: usize, v: u64)
    requires
        off + n <= old(s)@.len(),
        n <= 8,
        v < pow2(8 * n as nat),
    ensures
        final(s)@.len() == old(s)@.len(),
        le(final(s)@, off as int, n as nat) == v,
        forall|k: int|
            0 <= k < old(s)@.len() && (k < off || k >= off + n) ==> final(s)@[k] == old(s)@[k],
    decreases n,
{
    if n > 0 {
        s.set(off, (v % 256) as u8);
        proof {
            lemma_pow2_adds(8, 8 * (n - 1) as nat);
            lemma2_to64();
            assert(8 * n as nat == 8 + 8 * (n - 1) as nat);
            lemma_div_is_ordered(v as int, pow2(8 * n as nat) as int - 1, 256);
            assert(v / 256 < pow2(8 * (n - 1) as nat)) by (nonlinear_arith)
                requires
                    v < 256 * pow2(8 * (n - 1) as nat),
            ;
        }
        let ghost mid = s@;
        let len = s.len();
        assert(off + 1 <= len);
        write_le_bytes(s, off + 1, n - 1, v / 256);
        proof {
            assert(s@[off as int] == mid[off as int]);
        }
    } else {
        proof {
            lemma2_to64();
        }
    }
}



/// Byte `j` of a little-endian value is the value's `j`-th base-256 digit.
pub proof fn lemma_le_digit(s: Seq<u8>, off: int, n: nat, j: nat)
    requires
        j < n,
    ensures
        s[off + j] == (le(s, off, n) as int / (pow2(8 * j) as int)) % 256,
    decreases n,
{
    let rest = le(s, off + 1, (n - 1) as nat);
    let x = le(s, off, n) as int;
    let b = s[off] as int;
    assert(x == 256 * rest + b);
    assert(0 <= b < 256);
    if j == 0 {
        lemma2_to64();
        assert(pow2(8 * j) == 1);
        assert(x / 1 == x) by (nonlinear_arith);
        lemma_mod_multiples_vanish(rest as int, b, 256);
        lemma_small_mod(b as nat, 256);
    } else {
        lemma_le_digit(s, off + 1, (n - 1) as nat, (j - 1) as nat);
        let p = pow2(8 * (j - 1) as nat) as int;
        lemma_pow2_pos(8 * (j - 1) as nat);
        lemma_pow2_adds(8, 8 * (j - 1) as nat);
        lemma2_to64();
        assert(8 * j == 8 + 8 * (j - 1) as nat);
        assert(pow2(8 * j) as int == 256 * p);
        lemma_div_denominator(x, 256, p);
        assert(x / 256 == rest as int) by {
            lemma_fundamental_div_mod_converse(x, 256, rest as int, b);
        }
        assert(off + 1 + (j - 1) == off + j);
    }
}

/// Base-256 digit `j` of `v`.
pub open spec fn byte_digit(v: int, j: nat) -> int {
    (v / (pow2(8 * j) as int)) % 256
}

/// Bytes that hold the base-256 digits of `v` read back, little endian, as
/// `v`.
pub proof fn lemma_le_of_digits(t: Seq<u8>, off: int, n: nat, v: int)
    requires
        0 <= v < pow2(8 * n),
        forall|j: nat| j < n ==> t[off + j] == #[trigger] byte_digit(v, j),
    ensures
        le(t, off, n) == v,
    decreases n,
{
    lemma2_to64();
    if n == 0 {
        assert(pow2(0) == 1);
    } else {
        let q = v / 256;
        lemma_pow2_adds(8, 8 * (n - 1) as nat);
        assert(8 * n == 8 + 8 * (n - 1) as nat);
        let p = pow2(8 * (n - 1) as nat) as int;
        lemma_pow2_pos(8 * (n - 1) as nat);
        assert(0 <= q < p) by {
            lemma_div_pos_is_pos(v, 256);
            lemma_multiply_divide_lt(v, 256, p);
        }
        assert forall|j: nat| j < (n - 1) as nat implies t[(off + 1) + j] == #[trigger] byte_digit(q, j) by {
            let pj = pow2(8 * j) as int;
            lemma_pow2_pos(8 * j);
            lemma_pow2_adds(8, 8 * j);
            assert(8 * (j + 1) == 8 + 8 * j);
            lemma_div_denominator(v, 256, pj);
            assert(t[off + (j + 1) as nat] == byte_digit(v, (j + 1) as nat));
            assert(off + (j + 1) as nat == (off + 1) + j);
        }
        lemma_le_of_digits(t, off + 1, (n - 1) as nat, q);
        assert(t[off + 0nat] == byte_digit(v, 0));
        assert(v / 1 == v) by (nonlinear_arith);
        lemma_fundamental_div_mod(v, 256);
    }
}

} // verus!
