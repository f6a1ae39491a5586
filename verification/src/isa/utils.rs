//! Building blocks shared by instruction decoders: a builder that collects
//! instruction descriptions, and bit-pattern masks.

use vstd::prelude::*;
use vstd::string::*;

verus! {

/// Collects instruction descriptions from several tables.
pub struct ISABuilder<Desc: Clone> {
    instructions: Vec<Desc>,
}

impl<Desc: Clone> ISABuilder<Desc> {
    /// The descriptions collected so far.
    pub closed spec fn descriptions(&self) -> Seq<Desc> {
        self.instructions@
    }

    /// A builder with no descriptions.
    pub fn new() -> (r: Self)
        ensures
            r.descriptions() == Seq::<Desc>::empty(),
    {
        ISABuilder { instructions: Vec::new() }
    }

    /// Appends clones of the descriptions in `desc`.
    pub fn add(self, desc: &[Desc]) -> (r: Self)
        ensures
            r.descriptions().len() == self.descriptions().len() + desc@.len(),
            r.descriptions().subrange(0, self.descriptions().len() as int) == self.descriptions(),
            forall|i: int|
                0 <= i < desc@.len() ==> cloned(desc@[i], #[trigger] r.descriptions()[self.descriptions().len() + i]),
    {
        let mut instructions = self.instructions;
        instructions.extend_from_slice(desc);
        ISABuilder { instructions }
    }

    /// The collected descriptions, in the order they were added.
    pub fn build(self) -> (r: Vec<Desc>)
        ensures
            r@ == self.descriptions(),
    {
        self.instructions
    }
}

/// A fixed-bit pattern: an instruction matches when its bits under `mask`
/// equal `key`.
pub struct DecodeMask {
    pub key: u32,
    pub mask: u32,
}

impl DecodeMask {
    /// Whether `instr` has the pattern's fixed bits.
    pub fn matches(&self, instr: u32) -> (r: bool)
        ensures
            r == ((instr & self.mask) == self.key),
    {
        (instr & self.mask) == self.key
    }
}

/// Whether `c` is one of the pattern characters `0`, `1` and `?`.
pub open spec fn is_pattern_char(c: char) -> bool {
    c == '0' || c == '1' || c == '?'
}

/// The number of pattern characters in `s`, and the key and mask that they
/// spell, the first character giving the highest bit: `1` sets a key bit,
/// `0` and `1` set a mask bit, `?` sets neither. Other characters are
/// ignored.
pub open spec fn pattern_bits(s: Seq<char>) -> (nat, nat, nat)
    decreases s.len(),
{
    if s.len() == 0 {
        (0, 0, 0)
    } else {
        let (len, key, mask) = pattern_bits(s.drop_last());
        let c = s.last();
        if is_pattern_char(c) {
            (len + 1, 2 * key + if c == '1' { 1nat } else { 0nat }, 2 * mask + if c != '?' { 1nat } else { 0nat })
        } else {
            (len, key, mask)
        }
    }
}

/// The key and mask of a pattern are below `2^len`.
proof fn lemma_pattern_bounds(s: Seq<char>)
    ensures
        pattern_bits(s).1 < vstd::arithmetic::power2::pow2(pattern_bits(s).0),
        pattern_bits(s).2 < vstd::arithmetic::power2::pow2(pattern_bits(s).0),
    decreases s.len(),
{
    vstd::arithmetic::power2::lemma_pow2_pos(0);
    vstd::arithmetic::power2::lemma2_to64();
    if s.len() > 0 {
        lemma_pattern_bounds(s.drop_last());
        let len = pattern_bits(s.drop_last()).0;
        vstd::arithmetic::power2::lemma_pow2_unfold(len + 1);
    }
}

/// The mask spelled by a pattern of `0`, `1` and `?` characters; other
/// characters are skipped. The pattern must hold a whole number of bytes of
/// pattern characters, at most 32.
pub fn create_decode_mask(pattern: &str) -> (r: DecodeMask)
    requires
        pattern_bits(pattern@).0 <= 32,
        pattern_bits(pattern@).0 % 8 == 0,
    ensures
        r.key == pattern_bits(pattern@).1,
        r.mask == pattern_bits(pattern@).2,
{
    let n = pattern.unicode_len();
    let mut len: u32 = 0;
    let mut key: u64 = 0;
    let mut mask: u64 = 0;
    let mut i: usize = 0;
    proof {
        vstd::arithmetic::power2::lemma2_to64();
        vstd::arithmetic::power2::lemma2_to64_rest();
    }
    while i < n
        invariant
            i <= n,
            n == pattern@.len(),
            pattern_bits(pattern@).0 <= 32,
            (len as nat, key as nat, mask as nat) == pattern_bits(pattern@.subrange(0, i as int)),
            len <= pattern_bits(pattern@).0,
        decreases n - i,
    {
        let ch = pattern.get_char(i);
        proof {
            let s = pattern@.subrange(0, i as int + 1);
            assert(s.drop_last() =~= pattern@.subrange(0, i as int));
            assert(s.last() == ch);
            vstd::arithmetic::power2::lemma2_to64();
            lemma_pattern_bounds(pattern@.subrange(0, i as int));
            lemma_prefix_len_grows(pattern@, i as int + 1);
            if len < 32 {
                vstd::arithmetic::power2::lemma_pow2_strictly_increases(len as nat, 32);
            }
        }
        if ch == '0' || ch == '1' || ch == '?' {
            len = len + 1;
            key = 2 * key + if ch == '1' { 1 } else { 0 };
            mask = 2 * mask + if ch != '?' { 1 } else { 0 };
        }
        i = i + 1;
    }
    proof {
        assert(pattern@.subrange(0, n as int) =~= pattern@);
        lemma_pattern_bounds(pattern@);
        if len < 32 {
            vstd::arithmetic::power2::lemma_pow2_strictly_increases(len as nat, 32);
        }
    }
    DecodeMask { key: key as u32, mask: mask as u32 }
}

/// The pattern length of a prefix is at most that of the whole sequence.
proof fn lemma_prefix_len_grows(s: Seq<char>, k: int)
    requires
        0 <= k <= s.len(),
    ensures
        pattern_bits(s.subrange(0, k)).0 <= pattern_bits(s).0,
    decreases s.len() - k,
{
    if k < s.len() {
        lemma_prefix_len_grows(s, k + 1);
        let t = s.subrange(0, k + 1);
        assert(t.drop_last() =~= s.subrange(0, k));
    } else {
        assert(s.subrange(0, k) =~= s);
    }
}

} // verus!
