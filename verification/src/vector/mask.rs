//! The element policy of a vector instruction: which elements take the
//! computed value, which keep the old destination value (undisturbed), and
//! which are overwritten with the agnostic value, as decided by the mask in
//! `v0`, the element count `vl`, the start index `vstart`, and the
//! tail/mask agnostic settings.

use vstd::prelude::*;
use crate::vector::regfile::{VectorRegFile, VREGFILE_BYTES, VLEN_BYTE, le, valid_width};
use crate::vector::types::{Vsew, sew_bytes_spec};
use vstd::arithmetic::power2::pow2;

verus! {

/// Bit `k` of the byte `b`.
pub open spec fn byte_bit(b: u8, k: u8) -> bool {
    ((b >> k) & 1u8) == 1u8
}

/// Bit `i` of a mask held in the byte sequence `m`: bit `i % 8` of byte
/// `i / 8`; bits past the end read as clear.
pub open spec fn seq_bit(m: Seq<u8>, i: int) -> bool {
    0 <= i && i / 8 < m.len() && byte_bit(m[i / 8], (i % 8) as u8)
}

/// Bit `i` of the mask register `v0` in the register file `regs`.
pub open spec fn v0_bit(regs: Seq<u8>, i: int) -> bool {
    0 <= i < 8 * VLEN_BYTE && byte_bit(regs[i / 8], (i % 8) as u8)
}

/// Bit `i` of vector register `reg`, read as a mask.
pub open spec fn vreg_bit(regs: Seq<u8>, reg: int, i: int) -> bool {
    0 <= i < 8 * VLEN_BYTE && byte_bit(regs[reg * 16 + i / 8], (i % 8) as u8)
}

/// What happens to one destination element.
#[derive(Clone, Copy, Debug, PartialEq, Eq, Structural)]
pub enum MaskDecision {
    /// The element keeps its old value.
    Undisturbed,
    /// The element takes the computed value.
    Active,
    /// The element takes the agnostic value, all zeros.
    Agnostic,
}

/// The decision for element `i`: elements below `start` are left alone;
/// tail elements (at or past `length`) and masked-off elements are
/// overwritten with zero when the matching agnostic setting holds and left
/// alone otherwise; the rest take the computed value.
pub open spec fn mask_policy(
    enable_mask: bool,
    regs: Seq<u8>,
    start: int,
    length: int,
    mask_agnostic: bool,
    tail_agnostic: bool,
    i: int,
) -> MaskDecision {
    if i < start {
        MaskDecision::Undisturbed
    } else if i >= length {
        if tail_agnostic {
            MaskDecision::Agnostic
        } else {
            MaskDecision::Undisturbed
        }
    } else if !enable_mask || v0_bit(regs, i) {
        MaskDecision::Active
    } else if mask_agnostic {
        MaskDecision::Agnostic
    } else {
        MaskDecision::Undisturbed
    }
}

/// Elements below the start index are left undisturbed, whatever the mask,
/// the element count and the policies: a retried instruction does not redo
/// them.
pub proof fn law_prefix_undisturbed(
    enable_mask: bool,
    regs: Seq<u8>,
    start: int,
    length: int,
    mask_agnostic: bool,
    tail_agnostic: bool,
    i: int,
)
    requires
        i < start,
    ensures
        mask_policy(enable_mask, regs, start, length, mask_agnostic, tail_agnostic, i) == MaskDecision::Undisturbed,
{
}

/// Only elements of the body that the mask selects take the computed value;
/// the others keep their value unless their agnostic setting holds, and
/// then become zero.
pub proof fn law_only_active_computed(
    enable_mask: bool,
    regs: Seq<u8>,
    start: int,
    length: int,
    mask_agnostic: bool,
    tail_agnostic: bool,
    i: int,
)
    ensures
        mask_policy(enable_mask, regs, start, length, mask_agnostic, tail_agnostic, i) == MaskDecision::Active
            <==> (start <= i < length && (!enable_mask || v0_bit(regs, i))),
        mask_policy(enable_mask, regs, start, length, mask_agnostic, tail_agnostic, i) == MaskDecision::Agnostic
            ==> (i >= length && tail_agnostic) || (start <= i < length && mask_agnostic),
{
}

/// The new value of an element under a decision.
pub open spec fn apply_decision(d: MaskDecision, value: int, old: int) -> int {
    match d {
        MaskDecision::Undisturbed => old,
        MaskDecision::Active => value,
        MaskDecision::Agnostic => 0,
    }
}

/// The new value of a mask bit under a decision.
pub open spec fn apply_decision_bit(d: MaskDecision, value: bool, old: bool) -> bool {
    match d {
        MaskDecision::Undisturbed => old,
        MaskDecision::Active => value,
        MaskDecision::Agnostic => false,
    }
}

/// The policy of one vector instruction over its elements.
pub struct VecOpMask {
    mask_bit: Option<Vec<u8>>,
    start: usize,
    length: u16,
    mask_agnostic: bool,
    tail_agnostic: bool,
}

/// Bit `k` of the byte `b`.
pub fn read_byte_bit(b: u8, k: u8) -> (r: bool)
    requires
        k < 8,
    ensures
        r == byte_bit(b, k),
{
    ((b >> k) & 1u8) == 1u8
}

/// The byte `b` with bit `k` set to `value` and the other bits unchanged.
pub fn write_byte_bit(b: u8, k: u8, value: bool) -> (r: u8)
    requires
        k < 8,
    ensures
        forall|j: u8| j < 8 ==> #[trigger] byte_bit(r, j) == if j == k { value } else { byte_bit(b, j) },
{
    let r = if value {
        b | (1u8 << k)
    } else {
        b & !(1u8 << k)
    };
    assert forall|j: u8| j < 8 implies #[trigger] byte_bit(r, j) == if j == k { value } else { byte_bit(b, j) } by {
        lemma_write_bit(b, k, j);
    }
    r
}

proof fn lemma_write_bit(b: u8, k: u8, j: u8)
    by (bit_vector)
    requires
        k < 8,
        j < 8,
    ensures
        (((b | (1u8 << k)) >> j) & 1u8 == 1u8) == (if j == k { true } else { ((b >> j) & 1u8) == 1u8 }),
        (((b & !(1u8 << k)) >> j) & 1u8 == 1u8) == (if j == k { false } else { ((b >> j) & 1u8) == 1u8 }),
{
}

/// Bit `i` of the mask in the byte vector `mask`; bits past its end read as
/// clear.
pub fn read_mask_bit(mask: &Vec<u8>, index: usize) -> (r: bool)
    ensures
        r == seq_bit(mask@, index as int),
{
    if index / 8 < mask.len() {
        read_byte_bit(mask[index / 8], (index % 8) as u8)
    } else {
        false
    }
}

/// Sets bit `i` of the mask in the byte vector `mask` to `value`.
pub fn write_mask_bit(mask: &mut Vec<u8>, index: usize, value: bool)
    requires
        index / 8 < old(mask)@.len(),
    ensures
        final(mask)@.len() == old(mask)@.len(),
        forall|j: int| j != index ==> seq_bit(final(mask)@, j) == seq_bit(old(mask)@, j),
        seq_bit(final(mask)@, index as int) == value,
{
    let byte = mask[index / 8];
    let nb = write_byte_bit(byte, (index % 8) as u8, value);
    mask.set(index / 8, nb);
    proof {
        assert forall|j: int| j != index implies seq_bit(mask@, j) == seq_bit(old(mask)@, j) by {
            if 0 <= j && j / 8 < mask@.len() {
                if j / 8 == index / 8 {
                    assert((j % 8) as u8 != (index % 8) as u8);
                    assert(byte_bit(nb, (j % 8) as u8) == byte_bit(byte, (j % 8) as u8));
                }
            }
        }
        assert(byte_bit(nb, (index % 8) as u8) == value);
    }
}

impl VecOpMask {
    /// The mask bit of element `index`; true everywhere when masking is off.
    pub closed spec fn bit_spec(&self, index: int) -> bool {
        match self.mask_bit {
            None => true,
            Some(m) => seq_bit(m@, index),
        }
    }

    /// The decision for element `index`.
    pub closed spec fn decision(&self, index: int) -> MaskDecision {
        if index < self.start {
            MaskDecision::Undisturbed
        } else if index >= self.length {
            if self.tail_agnostic {
                MaskDecision::Agnostic
            } else {
                MaskDecision::Undisturbed
            }
        } else if self.bit_spec(index) {
            MaskDecision::Active
        } else if self.mask_agnostic {
            MaskDecision::Agnostic
        } else {
            MaskDecision::Undisturbed
        }
    }

    /// The index at which the instruction starts.
    pub closed spec fn start_spec(&self) -> int {
        self.start as int
    }

    /// The element count `vl`.
    pub closed spec fn length_spec(&self) -> int {
        self.length as int
    }

    /// Whether tail elements take the agnostic value.
    pub closed spec fn tail_agnostic_spec(&self) -> bool {
        self.tail_agnostic
    }

    /// The policy of an instruction over `length` elements that starts at
    /// element 0.
    pub fn new(
        vgr: &VectorRegFile,
        length: u16,
        enable_mask: bool,
        mask_agnostic: bool,
        tail_agnostic: bool,
    ) -> (r: VecOpMask)
        requires
            vgr@.len() == VREGFILE_BYTES,
        ensures
            forall|i: int|
                #[trigger] r.decision(i) == mask_policy(
                    enable_mask,
                    vgr@,
                    0,
                    length as int,
                    mask_agnostic,
                    tail_agnostic,
                    i,
                ),
            forall|i: int| #[trigger] r.bit_spec(i) == (!enable_mask || v0_bit(vgr@, i)),
            r.start_spec() == 0,
            r.length_spec() == length,
            r.tail_agnostic_spec() == tail_agnostic,
    {
        Self::new_with_start(vgr, length, enable_mask, mask_agnostic, tail_agnostic, 0)
    }

    /// The policy of an instruction over `length` elements resumed at
    /// element `start`; the elements before it already completed.
    pub fn new_with_start(
        vgr: &VectorRegFile,
        length: u16,
        enable_mask: bool,
        mask_agnostic: bool,
        tail_agnostic: bool,
        start: usize,
    ) -> (r: VecOpMask)
        requires
            vgr@.len() == VREGFILE_BYTES,
        ensures
            forall|i: int|
                #[trigger] r.decision(i) == mask_policy(
                    enable_mask,
                    vgr@,
                    start as int,
                    length as int,
                    mask_agnostic,
                    tail_agnostic,
                    i,
                ),
            forall|i: int| #[trigger] r.bit_spec(i) == (!enable_mask || v0_bit(vgr@, i)),
            r.start_spec() == start,
            r.length_spec() == length,
            r.tail_agnostic_spec() == tail_agnostic,
    {
        let mask_bit = if enable_mask {
            let mut m: Vec<u8> = Vec::new();
            let mut k: usize = 0;
            while k < VLEN_BYTE
                invariant
                    k <= VLEN_BYTE,
                    vgr@.len() == VREGFILE_BYTES,
                    m@ == vgr@.subrange(0, k as int),
                decreases VLEN_BYTE - k,
            {
                m.push(vgr.byte(k));
                k = k + 1;
                proof {
                    assert(m@ =~= vgr@.subrange(0, k as int));
                }
            }
            Some(m)
        } else {
            None
        };
        let r = VecOpMask { mask_bit, start, length, mask_agnostic, tail_agnostic };
        proof {
            assert forall|i: int|
                #[trigger] r.decision(i) == mask_policy(
                    enable_mask,
                    vgr@,
                    start as int,
                    length as int,
                    mask_agnostic,
                    tail_agnostic,
                    i,
                ) by {
                if enable_mask && 0 <= i < length && i >= start {
                    assert(r.bit_spec(i) == v0_bit(vgr@, i));
                }
            }
            assert forall|i: int| #[trigger] r.bit_spec(i) == (!enable_mask || v0_bit(vgr@, i)) by {
                if enable_mask {
                    if 0 <= i < 8 * VLEN_BYTE {
                        assert(i / 8 < VLEN_BYTE);
                    }
                }
            }
        }
        r
    }

    /// The mask bit of element `index`.
    pub fn bit(&self, index: usize) -> (r: bool)
        ensures
            r == self.bit_spec(index as int),
    {
        match &self.mask_bit {
            None => true,
            Some(m) => read_mask_bit(m, index),
        }
    }

    /// Whether element `index` is at or past the start, in the body and
    /// selected by the mask.
    pub fn is_active_body(&self, index: usize) -> (r: bool)
        ensures
            r == (index >= self.start_spec() && self.bit_spec(index as int) && index < self.length_spec()),
            r <==> self.decision(index as int) == MaskDecision::Active,
    {
        index >= self.start && self.bit(index) && index < self.length as usize
    }

    /// The first element that the instruction still has to process.
    pub fn first_pending_index(&self) -> (r: usize)
        ensures
            r == self.start_spec(),
    {
        self.start
    }

    /// The end of the elements that the instruction has to visit within a
    /// destination of `capacity` elements: all of them when tail elements
    /// are agnostic, else up to the element count.
    pub fn write_end(&self, capacity: usize) -> (r: usize)
        ensures
            r == if self.tail_agnostic_spec() {
                capacity as int
            } else if self.length_spec() < capacity {
                self.length_spec()
            } else {
                capacity as int
            },
    {
        if self.tail_agnostic {
            capacity
        } else if (self.length as usize) < capacity {
            self.length as usize
        } else {
            capacity
        }
    }

    /// Whether a memory access may be made for element `index`: only active
    /// body elements access memory.
    pub fn should_access(&self, index: usize) -> (r: bool)
        ensures
            r <==> self.decision(index as int) == MaskDecision::Active,
    {
        self.is_active_body(index)
    }

    /// Whether element `index` is in the body and selected by the mask,
    /// whatever the start.
    pub fn should_access_ignoring_start(&self, index: usize) -> (r: bool)
        ensures
            r == (self.bit_spec(index as int) && index < self.length_spec()),
    {
        self.bit(index) && index < self.length as usize
    }

    /// Whether element `index` is below the element count.
    pub fn is_body_index(&self, index: usize) -> (r: bool)
        ensures
            r == (index < self.length_spec()),
    {
        index < self.length as usize
    }

    /// The decision for element `index`.
    pub fn decide(&self, index: usize) -> (r: MaskDecision)
        ensures
            r == self.decision(index as int),
    {
        if index < self.start {
            MaskDecision::Undisturbed
        } else if index >= self.length as usize {
            if self.tail_agnostic {
                MaskDecision::Agnostic
            } else {
                MaskDecision::Undisturbed
            }
        } else if self.bit(index) {
            MaskDecision::Active
        } else if self.mask_agnostic {
            MaskDecision::Agnostic
        } else {
            MaskDecision::Undisturbed
        }
    }

    /// The value that element `index` takes when the computed value is
    /// `value`, or `None` when it keeps its old value.
    pub fn mask_value(&self, value: u64, index: usize) -> (r: Option<u64>)
        ensures
            r == match self.decision(index as int) {
                MaskDecision::Undisturbed => None,
                MaskDecision::Active => Some(value),
                MaskDecision::Agnostic => Some(0u64),
            },
    {
        match self.decide(index) {
            MaskDecision::Undisturbed => None,
            MaskDecision::Active => Some(value),
            MaskDecision::Agnostic => Some(0),
        }
    }

    /// The value that mask bit `index` takes when the computed bit is
    /// `value`, or `None` when it keeps its old value.
    pub fn mask_bit_value(&self, value: bool, index: usize) -> (r: Option<bool>)
        ensures
            r == match self.decision(index as int) {
                MaskDecision::Undisturbed => None,
                MaskDecision::Active => Some(value),
                MaskDecision::Agnostic => Some(false),
            },
    {
        match self.decide(index) {
            MaskDecision::Undisturbed => None,
            MaskDecision::Active => Some(value),
            MaskDecision::Agnostic => Some(false),
        }
    }

    /// Writes the computed `w`-byte element `value` of index `index`, at byte
    /// offset `off` of the register file, as the policy decides.
    pub fn element_load(&self, regs: &mut VectorRegFile, off: usize, w: usize, value: u64, index: usize)
        requires
            old(regs)@.len() == VREGFILE_BYTES,
            off + w <= VREGFILE_BYTES,
            valid_width(w as nat),
            value < pow2(8 * w as nat),
        ensures
            final(regs)@.len() == VREGFILE_BYTES,
            le(final(regs)@, off as int, w as nat) == apply_decision(
                self.decision(index as int),
                value as int,
                le(old(regs)@, off as int, w as nat) as int,
            ),
            forall|k: int|
                0 <= k < VREGFILE_BYTES && (k < off || k >= off + w) ==> final(regs)@[k] == old(regs)@[k],
    {
        match self.mask_value(value, index) {
            Some(v) => {
                proof {
                    vstd::arithmetic::power2::lemma_pow2_pos(8 * w as nat);
                }
                regs.write_elem(off, w, v);
            },
            None => {},
        }
    }

    /// Writes the agnostic value into element `index` when the policy says
    /// so; nothing is computed for it.
    pub fn element_load_default(&self, regs: &mut VectorRegFile, off: usize, w: usize, index: usize)
        requires
            old(regs)@.len() == VREGFILE_BYTES,
            off + w <= VREGFILE_BYTES,
            valid_width(w as nat),
        ensures
            final(regs)@.len() == VREGFILE_BYTES,
            le(final(regs)@, off as int, w as nat) == apply_decision(
                self.decision(index as int),
                0,
                le(old(regs)@, off as int, w as nat) as int,
            ),
            forall|k: int|
                0 <= k < VREGFILE_BYTES && (k < off || k >= off + w) ==> final(regs)@[k] == old(regs)@[k],
    {
        proof {
            vstd::arithmetic::power2::lemma_pow2_pos(8 * w as nat);
        }
        self.element_load(regs, off, w, 0, index)
    }

    /// As `element_load_default`, with the element width given by `sew`.
    pub fn element_load_default_by_sew(&self, regs: &mut VectorRegFile, off: usize, index: usize, sew: Vsew)
        requires
            old(regs)@.len() == VREGFILE_BYTES,
            off + sew_bytes_spec(sew) <= VREGFILE_BYTES,
        ensures
            final(regs)@.len() == VREGFILE_BYTES,
            le(final(regs)@, off as int, sew_bytes_spec(sew)) == apply_decision(
                self.decision(index as int),
                0,
                le(old(regs)@, off as int, sew_bytes_spec(sew)) as int,
            ),
            forall|k: int|
                0 <= k < VREGFILE_BYTES && (k < off || k >= off + sew_bytes_spec(sew)) ==> final(regs)@[k]
                    == old(regs)@[k],
    {
        let w = sew.get_sew() as usize;
        self.element_load_default(regs, off, w, index)
    }

    /// Writes the computed bit `value` into bit `index` of the packed mask
    /// `mask`, as the policy decides. Only a bit that the policy writes
    /// needs to lie inside `mask`.
    pub fn mask_bit_load(&self, mask: &mut Vec<u8>, index: usize, value: bool)
        requires
            self.decision(index as int) != MaskDecision::Undisturbed ==> index / 8 < old(mask)@.len(),
        ensures
            self.decision(index as int) == MaskDecision::Undisturbed ==> final(mask)@ == old(mask)@,
            final(mask)@.len() == old(mask)@.len(),
            forall|j: int| j != index ==> seq_bit(final(mask)@, j) == seq_bit(old(mask)@, j),
            seq_bit(final(mask)@, index as int) == apply_decision_bit(
                self.decision(index as int),
                value,
                seq_bit(old(mask)@, index as int),
            ),
    {
        match self.mask_bit_value(value, index) {
            Some(v) => write_mask_bit(mask, index, v),
            None => {},
        }
    }
}

} // verus!
