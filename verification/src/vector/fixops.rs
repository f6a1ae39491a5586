//! The fixed-point vector instructions: saturating and averaging
//! arithmetic, fractional multiply, scaling shifts and narrowing clips.
//! Each one records its rounding mode in the configuration and raises the
//! accrued saturation flag when some element saturated.

use vstd::prelude::*;
use vstd::arithmetic::power2::pow2;
use crate::bits::valid_bits;
use crate::vector::regfile::{VLEN_BYTE, valid_group};
use crate::vector::mask::VecOpMask;
use crate::vector::types::{VectorConfig, FixedPointRoundingMode};
use crate::vector::unit::{Vector, Exception, check_group, lemma_group, read_elems, store_results, group_count};
use crate::vector::arith::{
    elem_of, scalar_of, truncate_scalar, updated, lemma_updated, groups_overlap, vector_register_group_overlaps,
    narrowing_src_lmul, narrowing_source_lmul, lemma_narrow_counts,
};
use crate::vector::fixed_point::{
    FixedPointOp, NarrowingClipOp, fixed_point_binary, fixed_point_binary_spec, narrowing_clip, narrowing_clip_spec,
};

verus! {

/// The configuration after a fixed-point instruction that used the rounding
/// mode `round` and saturated when `saturated` holds.
pub open spec fn after_fixed_point(c: VectorConfig, round: FixedPointRoundingMode, saturated: bool) -> VectorConfig {
    VectorConfig {
        fixed_point_rounding_mode: round,
        fixed_point_accrued_saturation_flag: c.fixed_point_accrued_saturation_flag || saturated,
        ..c
    }
}

impl Vector {
    /// The rounding mode of the fixed-point instructions.
    pub fn fixed_point_rounding_mode(&self) -> (r: FixedPointRoundingMode)
        ensures
            r == self.config.fixed_point_rounding_mode,
    {
        self.config.fixed_point_rounding_mode
    }

    /// Whether a fixed-point instruction saturated since the flag was last
    /// cleared.
    pub fn fixed_point_accrued_saturation_flag(&self) -> (r: bool)
        ensures
            r == self.config.fixed_point_accrued_saturation_flag,
    {
        self.config.fixed_point_accrued_saturation_flag
    }

    /// Sets the rounding mode of the fixed-point instructions.
    pub fn set_fixed_point_rounding_mode(&mut self, round: FixedPointRoundingMode)
        ensures
            final(self).config == (VectorConfig { fixed_point_rounding_mode: round, ..old(self).config }),
            final(self).regs@ == old(self).regs@,
    {
        self.config.fixed_point_rounding_mode = round;
    }

    /// Clears the accrued saturation flag.
    pub fn clear_fixed_point_accrued_saturation_flag(&mut self)
        ensures
            final(self).config == (VectorConfig { fixed_point_accrued_saturation_flag: false, ..old(self).config }),
            final(self).regs@ == old(self).regs@,
    {
        self.config.fixed_point_accrued_saturation_flag = false;
    }

    /// `vsaddu.vv` and the other single-width fixed-point instructions: element `i` of `vd` becomes `op(vs2[i], vs1[i])` under the rounding mode `round`. Returns whether some element saturated.
    #[verifier::rlimit(40)]
    pub fn exec_fixed_point_vv(&mut self, op: FixedPointOp, vs1: u8, vs2: u8, vd: u8, enable_mask: bool, round: FixedPointRoundingMode, vstart: usize) -> (r: Result<bool, Exception>)
        requires
            old(self).wf(),
        ensures
            final(self).wf(),
            r is Ok <==> valid_group(vs1 as int, old(self).lmul() as int) && valid_group(vs2 as int, old(self).lmul() as int) && valid_group(vd as int, old(self).lmul() as int),
            r is Err ==> final(self).regs@ == old(self).regs@ && final(self).config == old(self).config,
            r is Ok ==> final(self).config == after_fixed_point(old(self).config, round, r->Ok_0),
            r is Ok ==> (r->Ok_0 <==> exists|i: int| 0 <= i < group_count(old(self).lmul(), old(self).sew_bytes()) && (#[trigger] fixed_point_binary_spec(op, 8 * old(self).sew_bytes(), elem_of(*old(self), vs2 as int, old(self).sew_bytes(), i), elem_of(*old(self), vs1 as int, old(self).sew_bytes(), i), round)).1),
            r is Ok ==> updated(
                *old(self),
                final(self).regs@,
                vd as int,
                old(self).sew_bytes(),
                group_count(old(self).lmul(), old(self).sew_bytes()),
                enable_mask,
                vstart as int,
                |i: int| fixed_point_binary_spec(op, 8 * old(self).sew_bytes(), elem_of(*old(self), vs2 as int, old(self).sew_bytes(), i), elem_of(*old(self), vs1 as int, old(self).sew_bytes(), i), round).0,
            ),
    {
        let lmul = self.config.vlmul.get_lmul();
        let w = self.config.vsew.get_sew() as usize;
        if !check_group(vs1, lmul) || !check_group(vs2, lmul) || !check_group(vd, lmul) {
            return Err(Exception::IllegalInstruction);
        }
        proof {
            lemma_group(vs1 as int, lmul as int, w as nat);
            lemma_group(vs2 as int, lmul as int, w as nat);
            lemma_group(vd as int, lmul as int, w as nat);
        }
        let count = (lmul as usize * VLEN_BYTE) / w;
        let bits = (8 * w) as u32;
        let a = read_elems(&self.regs, vs2 as usize * VLEN_BYTE, w, count);
        let b = read_elems(&self.regs, vs1 as usize * VLEN_BYTE, w, count);
        let mask = VecOpMask::new_with_start(&self.regs, self.config.vl, enable_mask, self.config.mask_agnostic, self.config.tail_agnostic, vstart);
        let mut results: Vec<u64> = Vec::new();
        let mut saturated = false;
        let mut i: usize = 0;
        while i < count
            invariant
                i <= count,
                count == a@.len(),
                bits == 8 * w,
                valid_bits(bits as nat),
                forall|j: int| 0 <= j < count ==> #[trigger] a@[j] < pow2(bits as nat),
                count == b@.len(),
                forall|j: int| 0 <= j < count ==> #[trigger] b@[j] < pow2(bits as nat),
                results@.len() == i,
                forall|j: int| 0 <= j < i ==> #[trigger] results@[j] == fixed_point_binary_spec(op, bits as nat, a@[j] as int, b@[j] as int, round).0,
                forall|j: int| 0 <= j < i ==> #[trigger] results@[j] < pow2(8 * w as nat),
                saturated <==> exists|j: int| 0 <= j < i && (#[trigger] fixed_point_binary_spec(op, bits as nat, a@[j] as int, b@[j] as int, round)).1,
            decreases count - i,
        {
            let (v, s) = fixed_point_binary(op, bits, a[i], b[i], round);
            results.push(v);
            if s {
                saturated = true;
            }
            proof {
                assert(results@[i as int] == v);
            }
            i = i + 1;
        }
        proof {
            if saturated {
                let j = choose|j: int| 0 <= j < count && (#[trigger] fixed_point_binary_spec(op, bits as nat, a@[j] as int, b@[j] as int, round)).1;
                assert((fixed_point_binary_spec(op, 8 * old(self).sew_bytes(), elem_of(*old(self), vs2 as int, old(self).sew_bytes(), j), elem_of(*old(self), vs1 as int, old(self).sew_bytes(), j), round)).1);
            } else {
                assert forall|k: int| 0 <= k < count implies !(#[trigger] fixed_point_binary_spec(op, 8 * old(self).sew_bytes(), elem_of(*old(self), vs2 as int, old(self).sew_bytes(), k), elem_of(*old(self), vs1 as int, old(self).sew_bytes(), k), round)).1 by {
                    assert(!(fixed_point_binary_spec(op, bits as nat, a@[k] as int, b@[k] as int, round)).1);
                }
            }
        }
        store_results(&mut self.regs, vd as usize * VLEN_BYTE, w, &results, &mask);
        self.config.fixed_point_rounding_mode = round;
        if saturated {
            self.config.fixed_point_accrued_saturation_flag = true;
        }
        proof {
            lemma_updated(
                *old(self),
                self.regs@,
                mask,
                results@,
                vd as int,
                w as nat,
                enable_mask,
                vstart as int,
                |i: int| fixed_point_binary_spec(op, 8 * old(self).sew_bytes(), elem_of(*old(self), vs2 as int, old(self).sew_bytes(), i), elem_of(*old(self), vs1 as int, old(self).sew_bytes(), i), round).0,
            );
        }
        Ok(saturated)
    }

    /// The `.vx` forms of the single-width fixed-point instructions: element `i` of `vd` becomes `op(vs2[i], x1)`, with `x1` truncated to the element width.
    #[verifier::rlimit(40)]
    pub fn exec_fixed_point_vx(&mut self, op: FixedPointOp, x1: u64, vs2: u8, vd: u8, enable_mask: bool, round: FixedPointRoundingMode, vstart: usize) -> (r: Result<bool, Exception>)
        requires
            old(self).wf(),
        ensures
            final(self).wf(),
            r is Ok <==> valid_group(vs2 as int, old(self).lmul() as int) && valid_group(vd as int, old(self).lmul() as int),
            r is Err ==> final(self).regs@ == old(self).regs@ && final(self).config == old(self).config,
            r is Ok ==> final(self).config == after_fixed_point(old(self).config, round, r->Ok_0),
            r is Ok ==> (r->Ok_0 <==> exists|i: int| 0 <= i < group_count(old(self).lmul(), old(self).sew_bytes()) && (#[trigger] fixed_point_binary_spec(op, 8 * old(self).sew_bytes(), elem_of(*old(self), vs2 as int, old(self).sew_bytes(), i), scalar_of(x1, 8 * old(self).sew_bytes()), round)).1),
            r is Ok ==> updated(
                *old(self),
                final(self).regs@,
                vd as int,
                old(self).sew_bytes(),
                group_count(old(self).lmul(), old(self).sew_bytes()),
                enable_mask,
                vstart as int,
                |i: int| fixed_point_binary_spec(op, 8 * old(self).sew_bytes(), elem_of(*old(self), vs2 as int, old(self).sew_bytes(), i), scalar_of(x1, 8 * old(self).sew_bytes()), round).0,
            ),
    {
        let lmul = self.config.vlmul.get_lmul();
        let w = self.config.vsew.get_sew() as usize;
        if !check_group(vs2, lmul) || !check_group(vd, lmul) {
            return Err(Exception::IllegalInstruction);
        }
        proof {
            lemma_group(vs2 as int, lmul as int, w as nat);
            lemma_group(vd as int, lmul as int, w as nat);
        }
        let count = (lmul as usize * VLEN_BYTE) / w;
        let bits = (8 * w) as u32;
        let a = read_elems(&self.regs, vs2 as usize * VLEN_BYTE, w, count);
        let scalar = truncate_scalar(x1, w);
        let mask = VecOpMask::new_with_start(&self.regs, self.config.vl, enable_mask, self.config.mask_agnostic, self.config.tail_agnostic, vstart);
        let mut results: Vec<u64> = Vec::new();
        let mut saturated = false;
        let mut i: usize = 0;
        while i < count
            invariant
                i <= count,
                count == a@.len(),
                bits == 8 * w,
                valid_bits(bits as nat),
                forall|j: int| 0 <= j < count ==> #[trigger] a@[j] < pow2(bits as nat),
                scalar < pow2(bits as nat),
                results@.len() == i,
                forall|j: int| 0 <= j < i ==> #[trigger] results@[j] == fixed_point_binary_spec(op, bits as nat, a@[j] as int, scalar as int, round).0,
                forall|j: int| 0 <= j < i ==> #[trigger] results@[j] < pow2(8 * w as nat),
                saturated <==> exists|j: int| 0 <= j < i && (#[trigger] fixed_point_binary_spec(op, bits as nat, a@[j] as int, scalar as int, round)).1,
            decreases count - i,
        {
            let (v, s) = fixed_point_binary(op, bits, a[i], scalar, round);
            results.push(v);
            if s {
                saturated = true;
            }
            proof {
                assert(results@[i as int] == v);
            }
            i = i + 1;
        }
        proof {
            if saturated {
                let j = choose|j: int| 0 <= j < count && (#[trigger] fixed_point_binary_spec(op, bits as nat, a@[j] as int, scalar as int, round)).1;
                assert((fixed_point_binary_spec(op, 8 * old(self).sew_bytes(), elem_of(*old(self), vs2 as int, old(self).sew_bytes(), j), scalar_of(x1, 8 * old(self).sew_bytes()), round)).1);
            } else {
                assert forall|k: int| 0 <= k < count implies !(#[trigger] fixed_point_binary_spec(op, 8 * old(self).sew_bytes(), elem_of(*old(self), vs2 as int, old(self).sew_bytes(), k), scalar_of(x1, 8 * old(self).sew_bytes()), round)).1 by {
                    assert(!(fixed_point_binary_spec(op, bits as nat, a@[k] as int, scalar as int, round)).1);
                }
            }
        }
        store_results(&mut self.regs, vd as usize * VLEN_BYTE, w, &results, &mask);
        self.config.fixed_point_rounding_mode = round;
        if saturated {
            self.config.fixed_point_accrued_saturation_flag = true;
        }
        proof {
            lemma_updated(
                *old(self),
                self.regs@,
                mask,
                results@,
                vd as int,
                w as nat,
                enable_mask,
                vstart as int,
                |i: int| fixed_point_binary_spec(op, 8 * old(self).sew_bytes(), elem_of(*old(self), vs2 as int, old(self).sew_bytes(), i), scalar_of(x1, 8 * old(self).sew_bytes()), round).0,
            );
        }
        Ok(saturated)
    }

    /// `vnclipu.wv`, `vnclip.wv`: element `i` of `vd` becomes the double-width `vs2[i]` shifted right by the low bits of `vs1[i]`, rounded and clipped to the element width. Only as many elements as the source group holds are written.
    #[verifier::rlimit(40)]
    pub fn exec_fixed_point_narrowing_wv(&mut self, op: NarrowingClipOp, vs1: u8, vs2: u8, vd: u8, enable_mask: bool, round: FixedPointRoundingMode, vstart: usize) -> (r: Result<bool, Exception>)
        requires
            old(self).wf(),
        ensures
            final(self).wf(),
            r is Ok <==> old(self).sew_bytes() <= 4 && narrowing_src_lmul(old(self).config.vlmul) <= 8 && !groups_overlap(vd as int, old(self).lmul() as int, vs2 as int, narrowing_src_lmul(old(self).config.vlmul) as int) && valid_group(vs1 as int, old(self).lmul() as int) && valid_group(vs2 as int, narrowing_src_lmul(old(self).config.vlmul) as int) && valid_group(vd as int, old(self).lmul() as int),
            r is Err ==> final(self).regs@ == old(self).regs@ && final(self).config == old(self).config,
            r is Ok ==> final(self).config == after_fixed_point(old(self).config, round, r->Ok_0),
            r is Ok ==> (r->Ok_0 <==> exists|i: int| 0 <= i < group_count(narrowing_src_lmul(old(self).config.vlmul), 2 * old(self).sew_bytes()) && (#[trigger] narrowing_clip_spec(op, 8 * old(self).sew_bytes(), elem_of(*old(self), vs2 as int, 2 * old(self).sew_bytes(), i), elem_of(*old(self), vs1 as int, old(self).sew_bytes(), i), round)).1),
            r is Ok ==> updated(
                *old(self),
                final(self).regs@,
                vd as int,
                old(self).sew_bytes(),
                group_count(narrowing_src_lmul(old(self).config.vlmul), 2 * old(self).sew_bytes()),
                enable_mask,
                vstart as int,
                |i: int| narrowing_clip_spec(op, 8 * old(self).sew_bytes(), elem_of(*old(self), vs2 as int, 2 * old(self).sew_bytes(), i), elem_of(*old(self), vs1 as int, old(self).sew_bytes(), i), round).0,
            ),
    {
        let lmul = self.config.vlmul.get_lmul();
        let w = self.config.vsew.get_sew() as usize;
        if w > 4 {
            return Err(Exception::IllegalInstruction);
        }
        let src_lmul = narrowing_source_lmul(self.config.vlmul);
        if src_lmul > 8 || vector_register_group_overlaps(vd, lmul, vs2, src_lmul) {
            return Err(Exception::IllegalInstruction);
        }
        if !check_group(vs1, lmul) || !check_group(vs2, src_lmul) || !check_group(vd, lmul) {
            return Err(Exception::IllegalInstruction);
        }
        proof {
            lemma_group(vs1 as int, lmul as int, w as nat);
            lemma_group(vs2 as int, src_lmul as int, 2 * w as nat);
            lemma_group(vd as int, lmul as int, w as nat);
            lemma_narrow_counts(self.config.vlmul, w as nat);
        }
        let count = (src_lmul as usize * VLEN_BYTE) / (2 * w);
        let bits = (8 * w) as u32;
        let a = read_elems(&self.regs, vs2 as usize * VLEN_BYTE, 2 * w, count);
        let b = read_elems(&self.regs, vs1 as usize * VLEN_BYTE, w, count);
        let mask = VecOpMask::new_with_start(&self.regs, self.config.vl, enable_mask, self.config.mask_agnostic, self.config.tail_agnostic, vstart);
        assert(8 * 2 * w == 2 * bits && 8 * w == bits);
        assert(pow2(8 * 2 * w as nat) == pow2(2 * bits as nat));
        let mut results: Vec<u64> = Vec::new();
        let mut saturated = false;
        let mut i: usize = 0;
        while i < count
            invariant
                i <= count,
                count == a@.len(),
                bits == 8 * w,
                bits == 8 || bits == 16 || bits == 32,
                pow2(8 * 2 * w as nat) == pow2(2 * bits as nat),
                forall|j: int| 0 <= j < count ==> #[trigger] a@[j] < pow2(2 * bits as nat),
                count == b@.len(),
                results@.len() == i,
                forall|j: int| 0 <= j < i ==> #[trigger] results@[j] == narrowing_clip_spec(op, bits as nat, a@[j] as int, b@[j] as int, round).0,
                forall|j: int| 0 <= j < i ==> #[trigger] results@[j] < pow2(8 * w as nat),
                saturated <==> exists|j: int| 0 <= j < i && (#[trigger] narrowing_clip_spec(op, bits as nat, a@[j] as int, b@[j] as int, round)).1,
            decreases count - i,
        {
            let (v, s) = narrowing_clip(op, bits, a[i], b[i], round);
            results.push(v);
            if s {
                saturated = true;
            }
            proof {
                assert(results@[i as int] == v);
            }
            i = i + 1;
        }
        proof {
            if saturated {
                let j = choose|j: int| 0 <= j < count && (#[trigger] narrowing_clip_spec(op, bits as nat, a@[j] as int, b@[j] as int, round)).1;
                assert((narrowing_clip_spec(op, 8 * old(self).sew_bytes(), elem_of(*old(self), vs2 as int, 2 * old(self).sew_bytes(), j), elem_of(*old(self), vs1 as int, old(self).sew_bytes(), j), round)).1);
            } else {
                assert forall|k: int| 0 <= k < count implies !(#[trigger] narrowing_clip_spec(op, 8 * old(self).sew_bytes(), elem_of(*old(self), vs2 as int, 2 * old(self).sew_bytes(), k), elem_of(*old(self), vs1 as int, old(self).sew_bytes(), k), round)).1 by {
                    assert(!(narrowing_clip_spec(op, bits as nat, a@[k] as int, b@[k] as int, round)).1);
                }
            }
        }
        store_results(&mut self.regs, vd as usize * VLEN_BYTE, w, &results, &mask);
        self.config.fixed_point_rounding_mode = round;
        if saturated {
            self.config.fixed_point_accrued_saturation_flag = true;
        }
        proof {
            lemma_updated(
                *old(self),
                self.regs@,
                mask,
                results@,
                vd as int,
                w as nat,
                enable_mask,
                vstart as int,
                |i: int| narrowing_clip_spec(op, 8 * old(self).sew_bytes(), elem_of(*old(self), vs2 as int, 2 * old(self).sew_bytes(), i), elem_of(*old(self), vs1 as int, old(self).sew_bytes(), i), round).0,
            );
        }
        Ok(saturated)
    }

    /// `vnclipu.wx`, `vnclip.wx`: as the `.wv` forms, with the shift taken from `x1` truncated to the element width.
    #[verifier::rlimit(40)]
    pub fn exec_fixed_point_narrowing_vx(&mut self, op: NarrowingClipOp, x1: u64, vs2: u8, vd: u8, enable_mask: bool, round: FixedPointRoundingMode, vstart: usize) -> (r: Result<bool, Exception>)
        requires
            old(self).wf(),
        ensures
            final(self).wf(),
            r is Ok <==> old(self).sew_bytes() <= 4 && narrowing_src_lmul(old(self).config.vlmul) <= 8 && !groups_overlap(vd as int, old(self).lmul() as int, vs2 as int, narrowing_src_lmul(old(self).config.vlmul) as int) && valid_group(vs2 as int, narrowing_src_lmul(old(self).config.vlmul) as int) && valid_group(vd as int, old(self).lmul() as int),
            r is Err ==> final(self).regs@ == old(self).regs@ && final(self).config == old(self).config,
            r is Ok ==> final(self).config == after_fixed_point(old(self).config, round, r->Ok_0),
            r is Ok ==> (r->Ok_0 <==> exists|i: int| 0 <= i < group_count(narrowing_src_lmul(old(self).config.vlmul), 2 * old(self).sew_bytes()) && (#[trigger] narrowing_clip_spec(op, 8 * old(self).sew_bytes(), elem_of(*old(self), vs2 as int, 2 * old(self).sew_bytes(), i), scalar_of(x1, 8 * old(self).sew_bytes()), round)).1),
            r is Ok ==> updated(
                *old(self),
                final(self).regs@,
                vd as int,
                old(self).sew_bytes(),
                group_count(narrowing_src_lmul(old(self).config.vlmul), 2 * old(self).sew_bytes()),
                enable_mask,
                vstart as int,
                |i: int| narrowing_clip_spec(op, 8 * old(self).sew_bytes(), elem_of(*old(self), vs2 as int, 2 * old(self).sew_bytes(), i), scalar_of(x1, 8 * old(self).sew_bytes()), round).0,
            ),
    {
        let lmul = self.config.vlmul.get_lmul();
        let w = self.config.vsew.get_sew() as usize;
        if w > 4 {
            return Err(Exception::IllegalInstruction);
        }
        let src_lmul = narrowing_source_lmul(self.config.vlmul);
        if src_lmul > 8 || vector_register_group_overlaps(vd, lmul, vs2, src_lmul) {
            return Err(Exception::IllegalInstruction);
        }
        if !check_group(vs2, src_lmul) || !check_group(vd, lmul) {
            return Err(Exception::IllegalInstruction);
        }
        proof {
            lemma_group(vs2 as int, src_lmul as int, 2 * w as nat);
            lemma_group(vd as int, lmul as int, w as nat);
            lemma_narrow_counts(self.config.vlmul, w as nat);
        }
        let count = (src_lmul as usize * VLEN_BYTE) / (2 * w);
        let bits = (8 * w) as u32;
        let a = read_elems(&self.regs, vs2 as usize * VLEN_BYTE, 2 * w, count);
        let scalar = truncate_scalar(x1, w);
        let mask = VecOpMask::new_with_start(&self.regs, self.config.vl, enable_mask, self.config.mask_agnostic, self.config.tail_agnostic, vstart);
        assert(8 * 2 * w == 2 * bits && 8 * w == bits);
        assert(pow2(8 * 2 * w as nat) == pow2(2 * bits as nat));
        let mut results: Vec<u64> = Vec::new();
        let mut saturated = false;
        let mut i: usize = 0;
        while i < count
            invariant
                i <= count,
                count == a@.len(),
                bits == 8 * w,
                bits == 8 || bits == 16 || bits == 32,
                pow2(8 * 2 * w as nat) == pow2(2 * bits as nat),
                forall|j: int| 0 <= j < count ==> #[trigger] a@[j] < pow2(2 * bits as nat),
                results@.len() == i,
                forall|j: int| 0 <= j < i ==> #[trigger] results@[j] == narrowing_clip_spec(op, bits as nat, a@[j] as int, scalar as int, round).0,
                forall|j: int| 0 <= j < i ==> #[trigger] results@[j] < pow2(8 * w as nat),
                saturated <==> exists|j: int| 0 <= j < i && (#[trigger] narrowing_clip_spec(op, bits as nat, a@[j] as int, scalar as int, round)).1,
            decreases count - i,
        {
            let (v, s) = narrowing_clip(op, bits, a[i], scalar, round);
            results.push(v);
            if s {
                saturated = true;
            }
            proof {
                assert(results@[i as int] == v);
            }
            i = i + 1;
        }
        proof {
            if saturated {
                let j = choose|j: int| 0 <= j < count && (#[trigger] narrowing_clip_spec(op, bits as nat, a@[j] as int, scalar as int, round)).1;
                assert((narrowing_clip_spec(op, 8 * old(self).sew_bytes(), elem_of(*old(self), vs2 as int, 2 * old(self).sew_bytes(), j), scalar_of(x1, 8 * old(self).sew_bytes()), round)).1);
            } else {
                assert forall|k: int| 0 <= k < count implies !(#[trigger] narrowing_clip_spec(op, 8 * old(self).sew_bytes(), elem_of(*old(self), vs2 as int, 2 * old(self).sew_bytes(), k), scalar_of(x1, 8 * old(self).sew_bytes()), round)).1 by {
                    assert(!(narrowing_clip_spec(op, bits as nat, a@[k] as int, scalar as int, round)).1);
                }
            }
        }
        store_results(&mut self.regs, vd as usize * VLEN_BYTE, w, &results, &mask);
        self.config.fixed_point_rounding_mode = round;
        if saturated {
            self.config.fixed_point_accrued_saturation_flag = true;
        }
        proof {
            lemma_updated(
                *old(self),
                self.regs@,
                mask,
                results@,
                vd as int,
                w as nat,
                enable_mask,
                vstart as int,
                |i: int| narrowing_clip_spec(op, 8 * old(self).sew_bytes(), elem_of(*old(self), vs2 as int, 2 * old(self).sew_bytes(), i), scalar_of(x1, 8 * old(self).sew_bytes()), round).0,
            );
        }
        Ok(saturated)
    }
}

} // verus!
