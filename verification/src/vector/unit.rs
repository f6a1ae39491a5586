//! The vector unit: its configuration registers and register file, and the
//! machinery that every vector instruction shares for reading source groups
//! and writing destination elements under the element policy.

use vstd::prelude::*;
use vstd::arithmetic::power2::pow2;
use vstd::arithmetic::mul::{lemma_mul_is_distributive_add_other_way, lemma_mul_inequality};
use crate::vector::regfile::{
    VectorRegFile, VREGFILE_BYTES, VLEN_BYTE, VREG_COUNT, le, elem, valid_width, valid_group,
    lemma_le_frame, lemma_elem_bound, lemma_elem_range, lemma_elem_disjoint,
};
use crate::vector::mask::{VecOpMask, MaskDecision, apply_decision};
use crate::vector::types::{VectorConfig, Vlmul, Vsew, lmul_spec, sew_bytes_spec, FixedPointRoundingMode};

verus! {

/// The exceptions that vector instructions raise.
#[derive(Clone, Copy, Debug, PartialEq, Eq, Structural)]
pub enum Exception {
    /// The instruction is not legal in the current configuration, or names
    /// an invalid register group.
    IllegalInstruction,
    /// A load touched memory that cannot be read.
    LoadAccessFault,
    /// A store touched memory that cannot be written.
    StoreAccessFault,
    /// A load address was not aligned to the access size.
    LoadAddressMisaligned,
    /// A store address was not aligned to the access size.
    StoreAddressMisaligned,
}

/// The vector unit.
pub struct Vector {
    pub config: VectorConfig,
    pub regs: VectorRegFile,
}

/// `new` agrees with `old` at every byte outside `[lo, hi)`.
pub open spec fn unchanged_outside(old: Seq<u8>, new: Seq<u8>, lo: int, hi: int) -> bool {
    &&& new.len() == old.len()
    &&& forall|k: int| 0 <= k < old.len() && (k < lo || k >= hi) ==> new[k] == old[k]
}

/// The number of `w`-byte elements in a group of `lmul` registers.
pub open spec fn group_count(lmul: nat, w: nat) -> int {
    (lmul * VLEN_BYTE) as int / w as int
}

impl Vector {
    /// The register file has its full size.
    pub open spec fn wf(&self) -> bool {
        self.regs@.len() == VREGFILE_BYTES
    }

    /// The element width in bytes.
    pub open spec fn sew_bytes(&self) -> nat {
        sew_bytes_spec(self.config.vsew)
    }

    /// The number of registers in a group.
    pub open spec fn lmul(&self) -> nat {
        lmul_spec(self.config.vlmul)
    }

    /// The decision for element `i` of an instruction started at `start`.
    pub open spec fn policy(&self, enable_mask: bool, start: int, i: int) -> MaskDecision {
        crate::vector::mask::mask_policy(
            enable_mask,
            self.regs@,
            start,
            self.config.vl as int,
            self.config.mask_agnostic,
            self.config.tail_agnostic,
            i,
        )
    }

    /// A unit in its reset configuration with every register zero.
    pub fn new() -> (r: Vector)
        ensures
            r.wf(),
            r.config.vlmul == Vlmul::M1,
            r.config.vsew == Vsew::E8,
            !r.config.tail_agnostic,
            !r.config.mask_agnostic,
            !r.config.fixed_point_accrued_saturation_flag,
            r.config.fixed_point_rounding_mode == FixedPointRoundingMode::RoundToNearestUp,
            r.config.vl == 0,
            forall|k: int| 0 <= k < VREGFILE_BYTES ==> r.regs@[k] == 0,
    {
        Vector { config: VectorConfig::new(), regs: VectorRegFile::new() }
    }

    /// Sets `LMUL`, `SEW`, the tail and mask policies and `vl` together.
    pub fn set_config(&mut self, vlmul_vsew_ta_ma_vl: (Vlmul, Vsew, bool, bool, u16))
        ensures
            final(self).config.vlmul == vlmul_vsew_ta_ma_vl.0,
            final(self).config.vsew == vlmul_vsew_ta_ma_vl.1,
            final(self).config.tail_agnostic == vlmul_vsew_ta_ma_vl.2,
            final(self).config.mask_agnostic == vlmul_vsew_ta_ma_vl.3,
            final(self).config.vl == vlmul_vsew_ta_ma_vl.4,
            final(self).config.fixed_point_accrued_saturation_flag == old(
                self,
            ).config.fixed_point_accrued_saturation_flag,
            final(self).config.fixed_point_rounding_mode == old(self).config.fixed_point_rounding_mode,
            final(self).regs@ == old(self).regs@,
    {
        let (vlmul, vsew, ta, ma, vl) = vlmul_vsew_ta_ma_vl;
        self.config.vlmul = vlmul;
        self.config.vsew = vsew;
        self.config.tail_agnostic = ta;
        self.config.mask_agnostic = ma;
        self.config.vl = vl;
    }
}

/// Whether `idx` names a group of `lmul` registers.
pub fn check_group(idx: u8, lmul: u8) -> (r: bool)
    ensures
        r == valid_group(idx as int, lmul as int),
{
    (lmul == 1 || lmul == 2 || lmul == 4 || lmul == 8) && idx % lmul == 0 && (idx as usize) + (lmul as usize) <= VREG_COUNT
}

/// The facts about a valid group of `lmul` registers holding `w`-byte
/// elements.
pub proof fn lemma_group(idx: int, lmul: int, w: nat)
    requires
        valid_group(idx, lmul),
        valid_width(w),
    ensures
        idx * 16 + lmul * 16 <= VREGFILE_BYTES,
        group_count(lmul as nat, w) * w == lmul * 16,
        group_count(lmul as nat, w) <= 128,
        group_count(lmul as nat, w) >= 2,
{
}

/// The `count` elements of `w` bytes of the group at byte `base`.
pub fn read_elems(regs: &VectorRegFile, base: usize, w: usize, count: usize) -> (r: Vec<u64>)
    requires
        regs@.len() == VREGFILE_BYTES,
        valid_width(w as nat),
        base + count * w <= VREGFILE_BYTES,
    ensures
        r@.len() == count,
        forall|i: int| 0 <= i < count ==> #[trigger] r@[i] == elem(regs@, base as int, w as nat, i),
        forall|i: int| 0 <= i < count ==> #[trigger] r@[i] < pow2(8 * w as nat),
{
    let mut out: Vec<u64> = Vec::new();
    let mut i: usize = 0;
    let mut off: usize = base;
    while i < count
        invariant
            i <= count,
            off == base + i * w,
            valid_width(w as nat),
            base + count * w <= VREGFILE_BYTES,
            regs@.len() == VREGFILE_BYTES,
            out@.len() == i,
            forall|j: int| 0 <= j < i ==> #[trigger] out@[j] == elem(regs@, base as int, w as nat, j),
            forall|j: int| 0 <= j < i ==> #[trigger] out@[j] < pow2(8 * w as nat),
        decreases count - i,
    {
        proof {
            lemma_elem_range(base as int, w as nat, i as int, count as int);
            lemma_elem_bound(regs@, base as int, w as nat, i as int);
        }
        let v = regs.read_elem(off, w);
        out.push(v);
        proof {
            lemma_mul_is_distributive_add_other_way(w as int, i as int, 1);
        }
        i = i + 1;
        off = off + w;
    }
    out
}

/// Writes `results[i]` into element `i` of the `w`-byte group at byte
/// `base`, as `mask` decides.
pub fn store_results(regs: &mut VectorRegFile, base: usize, w: usize, results: &Vec<u64>, mask: &VecOpMask)
    requires
        old(regs)@.len() == VREGFILE_BYTES,
        valid_width(w as nat),
        base + results@.len() * w <= VREGFILE_BYTES,
        forall|i: int| 0 <= i < results@.len() ==> #[trigger] results@[i] < pow2(8 * w as nat),
    ensures
        final(regs)@.len() == VREGFILE_BYTES,
        forall|i: int|
            0 <= i < results@.len() ==> #[trigger] elem(final(regs)@, base as int, w as nat, i)
                == apply_decision(mask.decision(i), results@[i] as int, elem(old(regs)@, base as int, w as nat, i) as int),
        unchanged_outside(old(regs)@, final(regs)@, base as int, base + results@.len() * w),
{
    let mut i: usize = 0;
    let mut off: usize = base;
    let count = results.len();
    while i < count
        invariant
            i <= count,
            count == results@.len(),
            off == base + i * w,
            valid_width(w as nat),
            base + count * w <= VREGFILE_BYTES,
            regs@.len() == VREGFILE_BYTES,
            forall|j: int| 0 <= j < count ==> #[trigger] results@[j] < pow2(8 * w as nat),
            forall|j: int|
                0 <= j < i ==> #[trigger] elem(regs@, base as int, w as nat, j) == apply_decision(
                    mask.decision(j),
                    results@[j] as int,
                    elem(old(regs)@, base as int, w as nat, j) as int,
                ),
            forall|k: int| 0 <= k < VREGFILE_BYTES && (k < base || k >= off) ==> regs@[k] == old(regs)@[k],
        decreases count - i,
    {
        proof {
            lemma_elem_range(base as int, w as nat, i as int, count as int);
        }
        let ghost before = regs@;
        mask.element_load(regs, off, w, results[i], i);
        proof {
            assert forall|k: int| off <= k < off + w implies before[k] == old(regs)@[k] by {
                lemma_mul_inequality(0, i as int, w as int);
            }
            lemma_le_frame(before, old(regs)@, off as int, w as nat);
            assert(elem(regs@, base as int, w as nat, i as int) == le(regs@, off as int, w as nat));
            assert(elem(regs@, base as int, w as nat, i as int) == apply_decision(
                mask.decision(i as int),
                results@[i as int] as int,
                elem(old(regs)@, base as int, w as nat, i as int) as int,
            ));
            assert forall|j: int|
                0 <= j < i + 1 implies #[trigger] elem(regs@, base as int, w as nat, j) == apply_decision(
                    mask.decision(j),
                    results@[j] as int,
                    elem(old(regs)@, base as int, w as nat, j) as int,
                ) by {
                if j < i {
                    assert(elem(before, base as int, w as nat, j) == apply_decision(
                        mask.decision(j),
                        results@[j] as int,
                        elem(old(regs)@, base as int, w as nat, j) as int,
                    ));
                    lemma_elem_disjoint(base as int, w as nat, j, i as int);
                    lemma_mul_inequality(0, j, w as int);
                    lemma_le_frame(regs@, before, base + j * w, w as nat);
                    assert(elem(regs@, base as int, w as nat, j) == elem(before, base as int, w as nat, j));
                }
            }
            lemma_mul_is_distributive_add_other_way(w as int, i as int, 1);
        }
        i = i + 1;
        off = off + w;
    }
}

} // verus!
