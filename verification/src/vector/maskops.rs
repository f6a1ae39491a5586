//! The vector instructions that read or write mask registers: carry and
//! merge forms that read one bit of a mask per element, the comparisons and
//! carry-outs that write one mask bit per element, and the logical
//! operations between mask registers.

use vstd::prelude::*;
use vstd::arithmetic::power2::pow2;
use crate::bits::valid_bits;
use crate::vector::regfile::{VectorRegFile, VLEN_BYTE, VREGFILE_BYTES, elem, valid_group, valid_width};
use crate::vector::mask::{
    VecOpMask, MaskDecision, apply_decision_bit, vreg_bit, seq_bit, byte_bit, read_mask_bit, v0_bit,
};
use crate::vector::unit::{Vector, Exception, check_group, lemma_group, read_elems, store_results, group_count, unchanged_outside};
use crate::vector::arith::{elem_of, read_mask_reg, scalar_of, truncate_scalar, updated, lemma_updated, groups_overlap, vector_register_group_overlaps};
use crate::vector::integer::{CarryOp, carry_op, carry_op_spec, MaskOp, mask_op, mask_op_spec};

verus! {

/// The element policy of an instruction, applied to the mask bits `f(i)`
/// written into bits `0..count` of register `vd`; the other bits of `vd`
/// and every other register keep their values.
pub open spec fn mask_updated(
    old: Vector,
    new_regs: Seq<u8>,
    vd: int,
    count: int,
    enable_mask: bool,
    start: int,
    f: spec_fn(int) -> bool,
) -> bool {
    &&& forall|i: int|
        0 <= i < count ==> #[trigger] vreg_bit(new_regs, vd, i) == apply_decision_bit(
            old.policy(enable_mask, start, i),
            f(i),
            vreg_bit(old.regs@, vd, i),
        )
    &&& forall|i: int| count <= i < 128 ==> #[trigger] vreg_bit(new_regs, vd, i) == vreg_bit(old.regs@, vd, i)
    &&& unchanged_outside(old.regs@, new_regs, vd * 16, vd * 16 + 16)
}

/// Writes `values[i]` into bit `i` of register `vd`, as `mask` decides.
pub fn store_mask_bits(regs: &mut VectorRegFile, vd: u8, values: &Vec<bool>, mask: &VecOpMask)
    requires
        old(regs)@.len() == VREGFILE_BYTES,
        vd < 32,
        values@.len() <= 128,
    ensures
        final(regs)@.len() == VREGFILE_BYTES,
        forall|i: int|
            0 <= i < values@.len() ==> #[trigger] vreg_bit(final(regs)@, vd as int, i) == apply_decision_bit(
                mask.decision(i),
                values@[i],
                vreg_bit(old(regs)@, vd as int, i),
            ),
        forall|i: int| values@.len() <= i < 128 ==> #[trigger] vreg_bit(final(regs)@, vd as int, i) == vreg_bit(old(regs)@, vd as int, i),
        unchanged_outside(old(regs)@, final(regs)@, vd * 16, vd * 16 + 16),
{
    let mut m = read_mask_reg(regs, vd);
    let mut i: usize = 0;
    while i < values.len()
        invariant
            i <= values@.len(),
            values@.len() <= 128,
            m@.len() == 16,
            forall|j: int|
                0 <= j < i ==> #[trigger] seq_bit(m@, j) == apply_decision_bit(
                    mask.decision(j),
                    values@[j],
                    vreg_bit(old(regs)@, vd as int, j),
                ),
            forall|j: int| i <= j < 128 ==> #[trigger] seq_bit(m@, j) == vreg_bit(old(regs)@, vd as int, j),
        decreases values@.len() - i,
    {
        mask.mask_bit_load(&mut m, i, values[i]);
        i = i + 1;
    }
    let ghost before = regs@;
    let ok = regs.write_group(1, vd, &m);
    proof {
        assert(ok);
        assert forall|i: int| 0 <= i < 128 implies #[trigger] vreg_bit(regs@, vd as int, i) == seq_bit(m@, i) by {
            assert(regs@[vd * 16 + i / 8] == m@[i / 8]);
        }
    }
}

/// What `store_mask_bits` guarantees, restated over the policy of the unit
/// that built the mask.
pub proof fn lemma_mask_updated(
    old: Vector,
    new_regs: Seq<u8>,
    mask: VecOpMask,
    values: Seq<bool>,
    vd: int,
    enable_mask: bool,
    start: int,
    f: spec_fn(int) -> bool,
)
    requires
        forall|i: int| #[trigger] mask.decision(i) == old.policy(enable_mask, start, i),
        forall|i: int| 0 <= i < values.len() ==> #[trigger] values[i] == f(i),
        forall|i: int|
            0 <= i < values.len() ==> #[trigger] vreg_bit(new_regs, vd, i) == apply_decision_bit(
                mask.decision(i),
                values[i],
                vreg_bit(old.regs@, vd, i),
            ),
        forall|i: int| values.len() <= i < 128 ==> #[trigger] vreg_bit(new_regs, vd, i) == vreg_bit(old.regs@, vd, i),
        unchanged_outside(old.regs@, new_regs, vd * 16, vd * 16 + 16),
    ensures
        mask_updated(old, new_regs, vd, values.len() as int, enable_mask, start, f),
{
    assert forall|i: int| 0 <= i < values.len() implies #[trigger] vreg_bit(new_regs, vd, i) == apply_decision_bit(
        old.policy(enable_mask, start, i),
        f(i),
        vreg_bit(old.regs@, vd, i),
    ) by {
        assert(mask.decision(i) == old.policy(enable_mask, start, i));
        assert(values[i] == f(i));
    }
}

impl Vector {
    /// `vadc.vvm`, `vsbc.vvm`, `vmerge.vvm`: element `i` of `vd` becomes
    /// `op(vs2[i], vs1[i], v0[i])`, where `v0[i]` is bit `i` of register
    /// `v0`.
    pub fn exec_integer_vvm(&mut self, op: CarryOp, vs1: u8, vs2: u8, v0: u8, vd: u8, enable_mask: bool) -> (r: Result<(), Exception>)
        requires
            old(self).wf(),
        ensures
            final(self).wf(),
            final(self).config == old(self).config,
            r is Ok <==> valid_group(vs1 as int, old(self).lmul() as int) && valid_group(vs2 as int, old(self).lmul() as int)
                && v0 < 32 && valid_group(vd as int, old(self).lmul() as int),
            r is Err ==> final(self).regs@ == old(self).regs@,
            r is Ok ==> updated(
                *old(self),
                final(self).regs@,
                vd as int,
                old(self).sew_bytes(),
                group_count(old(self).lmul(), old(self).sew_bytes()),
                enable_mask,
                0,
                |i: int|
                    carry_op_spec(
                        op,
                        8 * old(self).sew_bytes(),
                        elem_of(*old(self), vs2 as int, old(self).sew_bytes(), i),
                        elem_of(*old(self), vs1 as int, old(self).sew_bytes(), i),
                        vreg_bit(old(self).regs@, v0 as int, i),
                    ),
            ),
    {
        let lmul = self.config.vlmul.get_lmul();
        let w = self.config.vsew.get_sew() as usize;
        if !check_group(vs1, lmul) || !check_group(vs2, lmul) || v0 >= 32 || !check_group(vd, lmul) {
            return Err(Exception::IllegalInstruction);
        }
        proof {
            lemma_group(vs1 as int, lmul as int, w as nat);
            lemma_group(vs2 as int, lmul as int, w as nat);
            lemma_group(vd as int, lmul as int, w as nat);
        }
        let count = (lmul as usize * VLEN_BYTE) / w;
        let bits = (8 * w) as u32;
        let a = read_elems(&self.regs, vs2 as usize * VLEN_BYTE, w, count);
        let b = read_elems(&self.regs, vs1 as usize * VLEN_BYTE, w, count);
        let carry = read_mask_reg(&self.regs, v0);
        let mask = VecOpMask::new(&self.regs, self.config.vl, enable_mask, self.config.mask_agnostic, self.config.tail_agnostic);
        let mut results: Vec<u64> = Vec::new();
        let mut i: usize = 0;
        while i < count
            invariant
                i <= count,
                count <= 128,
                count == a@.len(),
                count == b@.len(),
                valid_bits(bits as nat),
                bits == 8 * w,
                carry@.len() == 16,
                forall|j: int| 0 <= j < count ==> #[trigger] a@[j] < pow2(bits as nat),
                forall|j: int| 0 <= j < count ==> #[trigger] b@[j] < pow2(bits as nat),
                results@.len() == i,
                forall|j: int| 0 <= j < i ==> #[trigger] results@[j] == carry_op_spec(op, bits as nat, a@[j] as int, b@[j] as int, seq_bit(carry@, j)),
                forall|j: int| 0 <= j < i ==> #[trigger] results@[j] < pow2(bits as nat),
            decreases count - i,
        {
            let c = read_mask_bit(&carry, i);
            let v = carry_op(op, bits, a[i], b[i], c);
            results.push(v);
            i = i + 1;
        }
        store_results(&mut self.regs, vd as usize * VLEN_BYTE, w, &results, &mask);
        proof {
            lemma_updated(
                *old(self),
                self.regs@,
                mask,
                results@,
                vd as int,
                w as nat,
                enable_mask,
                0,
                |i: int|
                    carry_op_spec(
                        op,
                        8 * old(self).sew_bytes(),
                        elem_of(*old(self), vs2 as int, old(self).sew_bytes(), i),
                        elem_of(*old(self), vs1 as int, old(self).sew_bytes(), i),
                        vreg_bit(old(self).regs@, v0 as int, i),
                    ),
            );
        }
        Ok(())
    }

    /// `vadc.vxm`, `vsbc.vxm`, `vmerge.vxm`: element `i` of `vd` becomes
    /// `op(vs2[i], x1, v0[i])`, with `x1` truncated to the element width.
    pub fn exec_integer_vxm(&mut self, op: CarryOp, x1: u64, vs2: u8, v0: u8, vd: u8, enable_mask: bool) -> (r: Result<(), Exception>)
        requires
            old(self).wf(),
        ensures
            final(self).wf(),
            final(self).config == old(self).config,
            r is Ok <==> valid_group(vs2 as int, old(self).lmul() as int) && v0 < 32 && valid_group(vd as int, old(self).lmul() as int),
            r is Err ==> final(self).regs@ == old(self).regs@,
            r is Ok ==> updated(
                *old(self),
                final(self).regs@,
                vd as int,
                old(self).sew_bytes(),
                group_count(old(self).lmul(), old(self).sew_bytes()),
                enable_mask,
                0,
                |i: int|
                    carry_op_spec(
                        op,
                        8 * old(self).sew_bytes(),
                        elem_of(*old(self), vs2 as int, old(self).sew_bytes(), i),
                        scalar_of(x1, 8 * old(self).sew_bytes()),
                        vreg_bit(old(self).regs@, v0 as int, i),
                    ),
            ),
    {
        let lmul = self.config.vlmul.get_lmul();
        let w = self.config.vsew.get_sew() as usize;
        if !check_group(vs2, lmul) || v0 >= 32 || !check_group(vd, lmul) {
            return Err(Exception::IllegalInstruction);
        }
        proof {
            lemma_group(vs2 as int, lmul as int, w as nat);
            lemma_group(vd as int, lmul as int, w as nat);
        }
        let count = (lmul as usize * VLEN_BYTE) / w;
        let bits = (8 * w) as u32;
        let scalar = truncate_scalar(x1, w);
        let a = read_elems(&self.regs, vs2 as usize * VLEN_BYTE, w, count);
        let carry = read_mask_reg(&self.regs, v0);
        let mask = VecOpMask::new(&self.regs, self.config.vl, enable_mask, self.config.mask_agnostic, self.config.tail_agnostic);
        let mut results: Vec<u64> = Vec::new();
        let mut i: usize = 0;
        while i < count
            invariant
                i <= count,
                count <= 128,
                count == a@.len(),
                valid_bits(bits as nat),
                bits == 8 * w,
                scalar < pow2(bits as nat),
                carry@.len() == 16,
                forall|j: int| 0 <= j < count ==> #[trigger] a@[j] < pow2(bits as nat),
                results@.len() == i,
                forall|j: int| 0 <= j < i ==> #[trigger] results@[j] == carry_op_spec(op, bits as nat, a@[j] as int, scalar as int, seq_bit(carry@, j)),
                forall|j: int| 0 <= j < i ==> #[trigger] results@[j] < pow2(bits as nat),
            decreases count - i,
        {
            let c = read_mask_bit(&carry, i);
            let v = carry_op(op, bits, a[i], scalar, c);
            results.push(v);
            i = i + 1;
        }
        store_results(&mut self.regs, vd as usize * VLEN_BYTE, w, &results, &mask);
        proof {
            lemma_updated(
                *old(self),
                self.regs@,
                mask,
                results@,
                vd as int,
                w as nat,
                enable_mask,
                0,
                |i: int|
                    carry_op_spec(
                        op,
                        8 * old(self).sew_bytes(),
                        elem_of(*old(self), vs2 as int, old(self).sew_bytes(), i),
                        scalar_of(x1, 8 * old(self).sew_bytes()),
                        vreg_bit(old(self).regs@, v0 as int, i),
                    ),
            );
        }
        Ok(())
    }
}

impl Vector {
    /// `vmadc.vv`, `vmsbc.vv` and the comparisons `vms<op>.vv`: bit `i` of register `vd` becomes `op(vs2[i], vs1[i])`, with no carry in.
    pub fn exec_integer_mask_vv(&mut self, op: MaskOp, vs1: u8, vs2: u8, vd: u8, enable_mask: bool) -> (r: Result<(), Exception>)
        requires
            old(self).wf(),
        ensures
            final(self).wf(),
            final(self).config == old(self).config,
            r is Ok <==> valid_group(vs1 as int, old(self).lmul() as int) && valid_group(vs2 as int, old(self).lmul() as int) && vd < 32,
            r is Err ==> final(self).regs@ == old(self).regs@,
            r is Ok ==> mask_updated(
                *old(self),
                final(self).regs@,
                vd as int,
                group_count(old(self).lmul(), old(self).sew_bytes()),
                enable_mask,
                0,
                |i: int| mask_op_spec(op, 8 * old(self).sew_bytes(), elem_of(*old(self), vs2 as int, old(self).sew_bytes(), i), elem_of(*old(self), vs1 as int, old(self).sew_bytes(), i), false),
            ),
    {
        let lmul = self.config.vlmul.get_lmul();
        let w = self.config.vsew.get_sew() as usize;
        if !check_group(vs1, lmul) || !check_group(vs2, lmul) || vd >= 32 {
            return Err(Exception::IllegalInstruction);
        }
        proof {
            lemma_group(vs1 as int, lmul as int, w as nat);
            lemma_group(vs2 as int, lmul as int, w as nat);
        }
        let count = (lmul as usize * VLEN_BYTE) / w;
        let bits = (8 * w) as u32;
        let a = read_elems(&self.regs, vs2 as usize * VLEN_BYTE, w, count);
        let b = read_elems(&self.regs, vs1 as usize * VLEN_BYTE, w, count);
        let mask = VecOpMask::new(&self.regs, self.config.vl, enable_mask, self.config.mask_agnostic, self.config.tail_agnostic);
        let mut values: Vec<bool> = Vec::new();
        let mut i: usize = 0;
        while i < count
            invariant
                i <= count,
                count <= 128,
                valid_bits(bits as nat),
                bits == 8 * w,
                count == a@.len(),
                forall|j: int| 0 <= j < count ==> #[trigger] a@[j] < pow2(bits as nat),
                count == b@.len(),
                forall|j: int| 0 <= j < count ==> #[trigger] b@[j] < pow2(bits as nat),
                values@.len() == i,
                forall|j: int| 0 <= j < i ==> #[trigger] values@[j] == mask_op_spec(op, bits as nat, a@[j] as int, b@[j] as int, false),
            decreases count - i,
        {
            let v = mask_op(op, bits, a[i], b[i], false);
            values.push(v);
            i = i + 1;
        }
        store_mask_bits(&mut self.regs, vd, &values, &mask);
        proof {
            lemma_mask_updated(
                *old(self),
                self.regs@,
                mask,
                values@,
                vd as int,
                enable_mask,
                0,
                |i: int| mask_op_spec(op, 8 * old(self).sew_bytes(), elem_of(*old(self), vs2 as int, old(self).sew_bytes(), i), elem_of(*old(self), vs1 as int, old(self).sew_bytes(), i), false),
            );
        }
        Ok(())
    }

    /// `vmadc.vx`, `vmsbc.vx` and `vms<op>.vx`: bit `i` of register `vd` becomes `op(vs2[i], x1)`, with `x1` truncated to the element width and no carry in.
    pub fn exec_integer_mask_vx(&mut self, op: MaskOp, x1: u64, vs2: u8, vd: u8, enable_mask: bool) -> (r: Result<(), Exception>)
        requires
            old(self).wf(),
        ensures
            final(self).wf(),
            final(self).config == old(self).config,
            r is Ok <==> valid_group(vs2 as int, old(self).lmul() as int) && vd < 32,
            r is Err ==> final(self).regs@ == old(self).regs@,
            r is Ok ==> mask_updated(
                *old(self),
                final(self).regs@,
                vd as int,
                group_count(old(self).lmul(), old(self).sew_bytes()),
                enable_mask,
                0,
                |i: int| mask_op_spec(op, 8 * old(self).sew_bytes(), elem_of(*old(self), vs2 as int, old(self).sew_bytes(), i), scalar_of(x1, 8 * old(self).sew_bytes()), false),
            ),
    {
        let lmul = self.config.vlmul.get_lmul();
        let w = self.config.vsew.get_sew() as usize;
        if !check_group(vs2, lmul) || vd >= 32 {
            return Err(Exception::IllegalInstruction);
        }
        proof {
            lemma_group(vs2 as int, lmul as int, w as nat);
        }
        let count = (lmul as usize * VLEN_BYTE) / w;
        let bits = (8 * w) as u32;
        let a = read_elems(&self.regs, vs2 as usize * VLEN_BYTE, w, count);
        let scalar = truncate_scalar(x1, w);
        let mask = VecOpMask::new(&self.regs, self.config.vl, enable_mask, self.config.mask_agnostic, self.config.tail_agnostic);
        let mut values: Vec<bool> = Vec::new();
        let mut i: usize = 0;
        while i < count
            invariant
                i <= count,
                count <= 128,
                valid_bits(bits as nat),
                bits == 8 * w,
                count == a@.len(),
                forall|j: int| 0 <= j < count ==> #[trigger] a@[j] < pow2(bits as nat),
                scalar < pow2(bits as nat),
                values@.len() == i,
                forall|j: int| 0 <= j < i ==> #[trigger] values@[j] == mask_op_spec(op, bits as nat, a@[j] as int, scalar as int, false),
            decreases count - i,
        {
            let v = mask_op(op, bits, a[i], scalar, false);
            values.push(v);
            i = i + 1;
        }
        store_mask_bits(&mut self.regs, vd, &values, &mask);
        proof {
            lemma_mask_updated(
                *old(self),
                self.regs@,
                mask,
                values@,
                vd as int,
                enable_mask,
                0,
                |i: int| mask_op_spec(op, 8 * old(self).sew_bytes(), elem_of(*old(self), vs2 as int, old(self).sew_bytes(), i), scalar_of(x1, 8 * old(self).sew_bytes()), false),
            );
        }
        Ok(())
    }

    /// `vmadc.vvm`, `vmsbc.vvm`: bit `i` of register `vd` becomes `op(vs2[i], vs1[i], v0[i])`, the carry in being bit `i` of register `v0`.
    pub fn exec_integer_mask_vvm(&mut self, op: MaskOp, vs1: u8, vs2: u8, v0: u8, vd: u8, enable_mask: bool) -> (r: Result<(), Exception>)
        requires
            old(self).wf(),
        ensures
            final(self).wf(),
            final(self).config == old(self).config,
            r is Ok <==> valid_group(vs1 as int, old(self).lmul() as int) && valid_group(vs2 as int, old(self).lmul() as int) && v0 < 32 && vd < 32,
            r is Err ==> final(self).regs@ == old(self).regs@,
            r is Ok ==> mask_updated(
                *old(self),
                final(self).regs@,
                vd as int,
                group_count(old(self).lmul(), old(self).sew_bytes()),
                enable_mask,
                0,
                |i: int| mask_op_spec(op, 8 * old(self).sew_bytes(), elem_of(*old(self), vs2 as int, old(self).sew_bytes(), i), elem_of(*old(self), vs1 as int, old(self).sew_bytes(), i), vreg_bit(old(self).regs@, v0 as int, i)),
            ),
    {
        let lmul = self.config.vlmul.get_lmul();
        let w = self.config.vsew.get_sew() as usize;
        if !check_group(vs1, lmul) || !check_group(vs2, lmul) || v0 >= 32 || vd >= 32 {
            return Err(Exception::IllegalInstruction);
        }
        proof {
            lemma_group(vs1 as int, lmul as int, w as nat);
            lemma_group(vs2 as int, lmul as int, w as nat);
        }
        let count = (lmul as usize * VLEN_BYTE) / w;
        let bits = (8 * w) as u32;
        let a = read_elems(&self.regs, vs2 as usize * VLEN_BYTE, w, count);
        let b = read_elems(&self.regs, vs1 as usize * VLEN_BYTE, w, count);
        let carry = read_mask_reg(&self.regs, v0);
        let mask = VecOpMask::new(&self.regs, self.config.vl, enable_mask, self.config.mask_agnostic, self.config.tail_agnostic);
        let mut values: Vec<bool> = Vec::new();
        let mut i: usize = 0;
        while i < count
            invariant
                i <= count,
                count <= 128,
                valid_bits(bits as nat),
                bits == 8 * w,
                count == a@.len(),
                forall|j: int| 0 <= j < count ==> #[trigger] a@[j] < pow2(bits as nat),
                count == b@.len(),
                forall|j: int| 0 <= j < count ==> #[trigger] b@[j] < pow2(bits as nat),
                carry@.len() == 16,
                values@.len() == i,
                forall|j: int| 0 <= j < i ==> #[trigger] values@[j] == mask_op_spec(op, bits as nat, a@[j] as int, b@[j] as int, seq_bit(carry@, j)),
            decreases count - i,
        {
            let v = mask_op(op, bits, a[i], b[i], read_mask_bit(&carry, i));
            values.push(v);
            i = i + 1;
        }
        store_mask_bits(&mut self.regs, vd, &values, &mask);
        proof {
            lemma_mask_updated(
                *old(self),
                self.regs@,
                mask,
                values@,
                vd as int,
                enable_mask,
                0,
                |i: int| mask_op_spec(op, 8 * old(self).sew_bytes(), elem_of(*old(self), vs2 as int, old(self).sew_bytes(), i), elem_of(*old(self), vs1 as int, old(self).sew_bytes(), i), vreg_bit(old(self).regs@, v0 as int, i)),
            );
        }
        Ok(())
    }

    /// `vmadc.vxm`, `vmsbc.vxm`: bit `i` of register `vd` becomes `op(vs2[i], x1, v0[i])`.
    pub fn exec_integer_mask_vxm(&mut self, op: MaskOp, x1: u64, vs2: u8, v0: u8, vd: u8, enable_mask: bool) -> (r: Result<(), Exception>)
        requires
            old(self).wf(),
        ensures
            final(self).wf(),
            final(self).config == old(self).config,
            r is Ok <==> valid_group(vs2 as int, old(self).lmul() as int) && v0 < 32 && vd < 32,
            r is Err ==> final(self).regs@ == old(self).regs@,
            r is Ok ==> mask_updated(
                *old(self),
                final(self).regs@,
                vd as int,
                group_count(old(self).lmul(), old(self).sew_bytes()),
                enable_mask,
                0,
                |i: int| mask_op_spec(op, 8 * old(self).sew_bytes(), elem_of(*old(self), vs2 as int, old(self).sew_bytes(), i), scalar_of(x1, 8 * old(self).sew_bytes()), vreg_bit(old(self).regs@, v0 as int, i)),
            ),
    {
        let lmul = self.config.vlmul.get_lmul();
        let w = self.config.vsew.get_sew() as usize;
        if !check_group(vs2, lmul) || v0 >= 32 || vd >= 32 {
            return Err(Exception::IllegalInstruction);
        }
        proof {
            lemma_group(vs2 as int, lmul as int, w as nat);
        }
        let count = (lmul as usize * VLEN_BYTE) / w;
        let bits = (8 * w) as u32;
        let a = read_elems(&self.regs, vs2 as usize * VLEN_BYTE, w, count);
        let scalar = truncate_scalar(x1, w);
        let carry = read_mask_reg(&self.regs, v0);
        let mask = VecOpMask::new(&self.regs, self.config.vl, enable_mask, self.config.mask_agnostic, self.config.tail_agnostic);
        let mut values: Vec<bool> = Vec::new();
        let mut i: usize = 0;
        while i < count
            invariant
                i <= count,
                count <= 128,
                valid_bits(bits as nat),
                bits == 8 * w,
                count == a@.len(),
                forall|j: int| 0 <= j < count ==> #[trigger] a@[j] < pow2(bits as nat),
                scalar < pow2(bits as nat),
                carry@.len() == 16,
                values@.len() == i,
                forall|j: int| 0 <= j < i ==> #[trigger] values@[j] == mask_op_spec(op, bits as nat, a@[j] as int, scalar as int, seq_bit(carry@, j)),
            decreases count - i,
        {
            let v = mask_op(op, bits, a[i], scalar, read_mask_bit(&carry, i));
            values.push(v);
            i = i + 1;
        }
        store_mask_bits(&mut self.regs, vd, &values, &mask);
        proof {
            lemma_mask_updated(
                *old(self),
                self.regs@,
                mask,
                values@,
                vd as int,
                enable_mask,
                0,
                |i: int| mask_op_spec(op, 8 * old(self).sew_bytes(), elem_of(*old(self), vs2 as int, old(self).sew_bytes(), i), scalar_of(x1, 8 * old(self).sew_bytes()), vreg_bit(old(self).regs@, v0 as int, i)),
            );
        }
        Ok(())
    }
}


/// The logical operations between mask registers, as `op(vs2, vs1)`.
#[derive(Clone, Copy, Debug, PartialEq, Eq, Structural)]
pub enum BitOp {
    And,
    Nand,
    /// `vs2 & !vs1`.
    Andn,
    Xor,
    Or,
    Nor,
    /// `vs2 | !vs1`.
    Orn,
    Xnor,
}

/// One logical operation on the bits `a` (of `vs2`) and `b` (of `vs1`).
pub open spec fn bit_op_spec(op: BitOp, a: bool, b: bool) -> bool {
    match op {
        BitOp::And => a && b,
        BitOp::Nand => !(a && b),
        BitOp::Andn => a && !b,
        BitOp::Xor => a != b,
        BitOp::Or => a || b,
        BitOp::Nor => !(a || b),
        BitOp::Orn => a || !b,
        BitOp::Xnor => a == b,
    }
}

/// One logical operation on two mask bits.
pub fn bit_op(op: BitOp, a: bool, b: bool) -> (r: bool)
    ensures
        r == bit_op_spec(op, a, b),
{
    match op {
        BitOp::And => a && b,
        BitOp::Nand => !(a && b),
        BitOp::Andn => a && !b,
        BitOp::Xor => a != b,
        BitOp::Or => a || b,
        BitOp::Nor => !(a || b),
        BitOp::Orn => a || !b,
        BitOp::Xnor => a == b,
    }
}

/// Whether source bit `j` of register `vs2` takes part in a mask scan: it
/// is set, below `vl`, and selected by `v0` when masking is on.
pub open spec fn scanned_bit(regs: Seq<u8>, vs2: int, enable_mask: bool, vl: int, j: int) -> bool {
    &&& j < vl
    &&& (!enable_mask || v0_bit(regs, j))
    &&& vreg_bit(regs, vs2, j)
}

/// The number of bits `j < n` that take part in a mask scan.
pub open spec fn count_scanned(regs: Seq<u8>, vs2: int, enable_mask: bool, vl: int, n: nat) -> nat
    decreases n,
{
    if n == 0 {
        0
    } else {
        count_scanned(regs, vs2, enable_mask, vl, (n - 1) as nat) + if scanned_bit(
            regs,
            vs2,
            enable_mask,
            vl,
            n - 1,
        ) {
            1nat
        } else {
            0nat
        }
    }
}

/// A scan over `n` bits counts at most `n` of them, and counts none exactly
/// when no bit below `n` takes part.
pub proof fn lemma_count_scanned(regs: Seq<u8>, vs2: int, enable_mask: bool, vl: int, n: nat)
    ensures
        count_scanned(regs, vs2, enable_mask, vl, n) <= n,
        count_scanned(regs, vs2, enable_mask, vl, n) == 0 <==> forall|j: int|
            0 <= j < n ==> !#[trigger] scanned_bit(regs, vs2, enable_mask, vl, j),
    decreases n,
{
    if n > 0 {
        lemma_count_scanned(regs, vs2, enable_mask, vl, (n - 1) as nat);
        if count_scanned(regs, vs2, enable_mask, vl, n) == 0 {
            assert forall|j: int| 0 <= j < n implies !#[trigger] scanned_bit(regs, vs2, enable_mask, vl, j) by {
                if j < n - 1 {
                } else {
                }
            }
        }
    }
}

/// The set-before-first, set-including-first and set-only-first mask
/// instructions.
#[derive(Clone, Copy, Debug, PartialEq, Eq, Structural)]
pub enum MaskUnaryOp {
    /// `vmsbf.m`: set before the first set bit.
    Msbf,
    /// `vmsif.m`: set up to and including the first set bit.
    Msif,
    /// `vmsof.m`: set only at the first set bit.
    Msof,
}

/// The result bit `i` of a mask scan, given whether an earlier bit was
/// already found (`seen`) and the source bit `src` at `i`.
pub open spec fn mask_unary_spec(op: MaskUnaryOp, seen: bool, src: bool) -> bool {
    match op {
        MaskUnaryOp::Msbf => !seen && !src,
        MaskUnaryOp::Msif => !seen,
        MaskUnaryOp::Msof => !seen && src,
    }
}

/// The instructions that read a mask register into a scalar.
#[derive(Clone, Copy, Debug, PartialEq, Eq, Structural)]
pub enum MaskToScalarOp {
    /// `vcpop.m`: the number of set bits.
    Cpop,
    /// `vfirst.m`: the index of the first set bit, or all ones when none is.
    First,
}

impl Vector {
    /// `vm<op>.mm`: bit `i` of register `vd` becomes `op(vs2[i], vs1[i])`
    /// for every bit of the register, resuming at bit `vstart`.
    pub fn exec_bit_vv(&mut self, op: BitOp, vs1: u8, vs2: u8, vd: u8, enable_mask: bool, vstart: usize) -> (r: Result<(), Exception>)
        requires
            old(self).wf(),
        ensures
            final(self).wf(),
            final(self).config == old(self).config,
            r is Ok <==> vs1 < 32 && vs2 < 32 && vd < 32,
            r is Err ==> final(self).regs@ == old(self).regs@,
            r is Ok ==> mask_updated(
                *old(self),
                final(self).regs@,
                vd as int,
                128,
                enable_mask,
                vstart as int,
                |i: int| bit_op_spec(op, vreg_bit(old(self).regs@, vs2 as int, i), vreg_bit(old(self).regs@, vs1 as int, i)),
            ),
    {
        if vs1 >= 32 || vs2 >= 32 || vd >= 32 {
            return Err(Exception::IllegalInstruction);
        }
        let a = read_mask_reg(&self.regs, vs2);
        let b = read_mask_reg(&self.regs, vs1);
        let mask = VecOpMask::new_with_start(
            &self.regs,
            self.config.vl,
            enable_mask,
            self.config.mask_agnostic,
            self.config.tail_agnostic,
            vstart,
        );
        let mut values: Vec<bool> = Vec::new();
        let mut i: usize = 0;
        while i < 128
            invariant
                i <= 128,
                values@.len() == i,
                forall|j: int| 0 <= j < 128 ==> #[trigger] seq_bit(a@, j) == vreg_bit(old(self).regs@, vs2 as int, j),
                forall|j: int| 0 <= j < 128 ==> #[trigger] seq_bit(b@, j) == vreg_bit(old(self).regs@, vs1 as int, j),
                forall|j: int|
                    0 <= j < i ==> #[trigger] values@[j] == bit_op_spec(
                        op,
                        vreg_bit(old(self).regs@, vs2 as int, j),
                        vreg_bit(old(self).regs@, vs1 as int, j),
                    ),
            decreases 128 - i,
        {
            let v = bit_op(op, read_mask_bit(&a, i), read_mask_bit(&b, i));
            values.push(v);
            i = i + 1;
        }
        store_mask_bits(&mut self.regs, vd, &values, &mask);
        proof {
            lemma_mask_updated(
                *old(self),
                self.regs@,
                mask,
                values@,
                vd as int,
                enable_mask,
                vstart as int,
                |i: int| bit_op_spec(op, vreg_bit(old(self).regs@, vs2 as int, i), vreg_bit(old(self).regs@, vs1 as int, i)),
            );
        }
        Ok(())
    }

    /// `vmsbf.m`, `vmsif.m`, `vmsof.m`: bit `i` of register `vd` is computed
    /// from whether a source bit of `vs2` below `i` takes part in the scan
    /// (set, below `vl` and selected by the mask), and from source bit `i`.
    /// The scan covers the bits before `vstart` too. `vd` may not be `vs2`.
    pub fn exec_mask_unary(&mut self, op: MaskUnaryOp, vs2: u8, vd: u8, enable_mask: bool, vstart: usize) -> (r: Result<(), Exception>)
        requires
            old(self).wf(),
        ensures
            final(self).wf(),
            final(self).config == old(self).config,
            r is Ok <==> vs2 < 32 && vd < 32 && vd != vs2,
            r is Err ==> final(self).regs@ == old(self).regs@,
            r is Ok ==> mask_updated(
                *old(self),
                final(self).regs@,
                vd as int,
                128,
                enable_mask,
                vstart as int,
                |i: int|
                    mask_unary_spec(
                        op,
                        count_scanned(old(self).regs@, vs2 as int, enable_mask, old(self).config.vl as int, i as nat) > 0,
                        vreg_bit(old(self).regs@, vs2 as int, i),
                    ),
            ),
    {
        if vs2 >= 32 || vd >= 32 || vd == vs2 {
            return Err(Exception::IllegalInstruction);
        }
        let a = read_mask_reg(&self.regs, vs2);
        let m0 = read_mask_reg(&self.regs, 0);
        let vl = self.config.vl;
        let mask = VecOpMask::new_with_start(
            &self.regs,
            self.config.vl,
            enable_mask,
            self.config.mask_agnostic,
            self.config.tail_agnostic,
            vstart,
        );
        let ghost regs = old(self).regs@;
        let mut seen = false;
        let mut values: Vec<bool> = Vec::new();
        let mut i: usize = 0;
        while i < 128
            invariant
                i <= 128,
                values@.len() == i,
                regs.len() == VREGFILE_BYTES,
                forall|j: int| 0 <= j < 128 ==> #[trigger] seq_bit(a@, j) == vreg_bit(regs, vs2 as int, j),
                forall|j: int| 0 <= j < 128 ==> #[trigger] seq_bit(m0@, j) == vreg_bit(regs, 0, j),
                seen == (count_scanned(regs, vs2 as int, enable_mask, vl as int, i as nat) > 0),
                forall|j: int|
                    0 <= j < i ==> #[trigger] values@[j] == mask_unary_spec(
                        op,
                        count_scanned(regs, vs2 as int, enable_mask, vl as int, j as nat) > 0,
                        vreg_bit(regs, vs2 as int, j),
                    ),
            decreases 128 - i,
        {
            let src = read_mask_bit(&a, i);
            let v = match op {
                MaskUnaryOp::Msbf => !seen && !src,
                MaskUnaryOp::Msif => !seen,
                MaskUnaryOp::Msof => !seen && src,
            };
            values.push(v);
            let selected = !enable_mask || read_mask_bit(&m0, i);
            proof {
                assert(vreg_bit(regs, 0, i as int) == v0_bit(regs, i as int));
                assert(count_scanned(regs, vs2 as int, enable_mask, vl as int, (i + 1) as nat) == count_scanned(
                    regs,
                    vs2 as int,
                    enable_mask,
                    vl as int,
                    i as nat,
                ) + if scanned_bit(regs, vs2 as int, enable_mask, vl as int, i as int) {
                    1nat
                } else {
                    0nat
                });
            }
            if i < vl as usize && selected && src {
                seen = true;
            }
            i = i + 1;
        }
        store_mask_bits(&mut self.regs, vd, &values, &mask);
        proof {
            lemma_mask_updated(
                *old(self),
                self.regs@,
                mask,
                values@,
                vd as int,
                enable_mask,
                vstart as int,
                |i: int|
                    mask_unary_spec(
                        op,
                        count_scanned(old(self).regs@, vs2 as int, enable_mask, old(self).config.vl as int, i as nat) > 0,
                        vreg_bit(old(self).regs@, vs2 as int, i),
                    ),
            );
        }
        Ok(())
    }
}


/// A count of at most 127 fits any element width.
proof fn lemma_small_fits(v: int, w: nat)
    requires
        0 <= v < 128,
        w == 1 || w == 2 || w == 4 || w == 8,
    ensures
        v < pow2(8 * w),
{
    vstd::arithmetic::power2::lemma2_to64();
    if w > 1 {
        vstd::arithmetic::power2::lemma_pow2_strictly_increases(8, 8 * w);
    }
}

impl Vector {
    /// `vcpop.m` and `vfirst.m` on register `vs2`: the number of source bits
    /// that take part in the scan, or the index of the first of them (all
    /// ones when there is none).
    pub fn exec_mask_to_x(&self, op: MaskToScalarOp, vs2: u8, enable_mask: bool) -> (r: Result<u64, Exception>)
        requires
            self.wf(),
        ensures
            r is Ok <==> vs2 < 32,
            r is Ok && op == MaskToScalarOp::Cpop ==> r->Ok_0 == count_scanned(self.regs@, vs2 as int, enable_mask, self.config.vl as int, 128),
            r is Ok && op == MaskToScalarOp::First ==> {
                let x = r->Ok_0;
                &&& (x == u64::MAX <==> count_scanned(self.regs@, vs2 as int, enable_mask, self.config.vl as int, 128) == 0)
                &&& x != u64::MAX ==> x < 128 && scanned_bit(self.regs@, vs2 as int, enable_mask, self.config.vl as int, x as int)
                    && count_scanned(self.regs@, vs2 as int, enable_mask, self.config.vl as int, x as nat) == 0
            },
    {
        if vs2 >= 32 {
            return Err(Exception::IllegalInstruction);
        }
        let a = read_mask_reg(&self.regs, vs2);
        let m0 = read_mask_reg(&self.regs, 0);
        let vl = self.config.vl;
        let ghost regs = self.regs@;
        let mut count: u64 = 0;
        let mut first: u64 = u64::MAX;
        let mut i: usize = 0;
        while i < 128
            invariant
                i <= 128,
                regs.len() == VREGFILE_BYTES,
                forall|j: int| 0 <= j < 128 ==> #[trigger] seq_bit(a@, j) == vreg_bit(regs, vs2 as int, j),
                forall|j: int| 0 <= j < 128 ==> #[trigger] seq_bit(m0@, j) == vreg_bit(regs, 0, j),
                count == count_scanned(regs, vs2 as int, enable_mask, vl as int, i as nat),
                count <= i,
                (first == u64::MAX <==> count == 0),
                first != u64::MAX ==> first < i && scanned_bit(regs, vs2 as int, enable_mask, vl as int, first as int)
                    && count_scanned(regs, vs2 as int, enable_mask, vl as int, first as nat) == 0,
            decreases 128 - i,
        {
            let src = read_mask_bit(&a, i);
            let selected = !enable_mask || read_mask_bit(&m0, i);
            proof {
                assert(vreg_bit(regs, 0, i as int) == v0_bit(regs, i as int));
            }
            if i < vl as usize && selected && src {
                if first == u64::MAX {
                    first = i as u64;
                }
                count = count + 1;
            }
            i = i + 1;
        }
        match op {
            MaskToScalarOp::Cpop => Ok(count),
            MaskToScalarOp::First => Ok(first),
        }
    }

    /// `viota.m`: element `i` of `vd` becomes the number of set bits of
    /// register `vs2` below `i`, whatever the mask; the mask and `vstart`
    /// only decide which elements are written. `vd` may not overlap `vs2`.
    pub fn exec_mask_to_vector(&mut self, vs2: u8, vd: u8, enable_mask: bool, vstart: usize) -> (r: Result<(), Exception>)
        requires
            old(self).wf(),
        ensures
            final(self).wf(),
            final(self).config == old(self).config,
            r is Ok <==> vs2 < 32 && valid_group(vd as int, old(self).lmul() as int) && !groups_overlap(
                vd as int,
                old(self).lmul() as int,
                vs2 as int,
                1,
            ),
            r is Err ==> final(self).regs@ == old(self).regs@,
            r is Ok ==> updated(
                *old(self),
                final(self).regs@,
                vd as int,
                old(self).sew_bytes(),
                group_count(old(self).lmul(), old(self).sew_bytes()),
                enable_mask,
                vstart as int,
                |i: int| count_scanned(old(self).regs@, vs2 as int, false, 128, i as nat) as int,
            ),
    {
        let lmul = self.config.vlmul.get_lmul();
        let w = self.config.vsew.get_sew() as usize;
        if vs2 >= 32 || !check_group(vd, lmul) || vector_register_group_overlaps(vd, lmul, vs2, 1) {
            return Err(Exception::IllegalInstruction);
        }
        proof {
            lemma_group(vd as int, lmul as int, w as nat);
        }
        let count = (lmul as usize * VLEN_BYTE) / w;
        let a = read_mask_reg(&self.regs, vs2);
        let ghost regs = old(self).regs@;
        let mask = VecOpMask::new_with_start(&self.regs, self.config.vl, enable_mask, self.config.mask_agnostic, self.config.tail_agnostic, vstart);
        let mut results: Vec<u64> = Vec::new();
        let mut seen: u64 = 0;
        let mut i: usize = 0;
        while i < count
            invariant
                i <= count,
                count <= 128,
                valid_width(w as nat),
                regs.len() == VREGFILE_BYTES,
                forall|j: int| 0 <= j < 128 ==> #[trigger] seq_bit(a@, j) == vreg_bit(regs, vs2 as int, j),
                seen == count_scanned(regs, vs2 as int, false, 128, i as nat),
                seen <= i,
                results@.len() == i,
                forall|j: int| 0 <= j < i ==> #[trigger] results@[j] == count_scanned(regs, vs2 as int, false, 128, j as nat),
                forall|j: int| 0 <= j < i ==> #[trigger] results@[j] < pow2(8 * w as nat),
            decreases count - i,
        {
            proof {
                lemma_small_fits(seen as int, w as nat);
            }
            results.push(seen);
            if read_mask_bit(&a, i) {
                seen = seen + 1;
            }
            i = i + 1;
        }
        store_results(&mut self.regs, vd as usize * VLEN_BYTE, w, &results, &mask);
        proof {
            lemma_updated(
                *old(self),
                self.regs@,
                mask,
                results@,
                vd as int,
                w as nat,
                enable_mask,
                vstart as int,
                |i: int| count_scanned(old(self).regs@, vs2 as int, false, 128, i as nat) as int,
            );
        }
        Ok(())
    }

    /// `vid.v`: element `i` of `vd` becomes `i`.
    pub fn exec_index(&mut self, vd: u8, enable_mask: bool, vstart: usize) -> (r: Result<(), Exception>)
        requires
            old(self).wf(),
        ensures
            final(self).wf(),
            final(self).config == old(self).config,
            r is Ok <==> valid_group(vd as int, old(self).lmul() as int),
            r is Err ==> final(self).regs@ == old(self).regs@,
            r is Ok ==> updated(
                *old(self),
                final(self).regs@,
                vd as int,
                old(self).sew_bytes(),
                group_count(old(self).lmul(), old(self).sew_bytes()),
                enable_mask,
                vstart as int,
                |i: int| i,
            ),
    {
        let lmul = self.config.vlmul.get_lmul();
        let w = self.config.vsew.get_sew() as usize;
        if !check_group(vd, lmul) {
            return Err(Exception::IllegalInstruction);
        }
        proof {
            lemma_group(vd as int, lmul as int, w as nat);
        }
        let count = (lmul as usize * VLEN_BYTE) / w;
        let mask = VecOpMask::new_with_start(&self.regs, self.config.vl, enable_mask, self.config.mask_agnostic, self.config.tail_agnostic, vstart);
        let mut results: Vec<u64> = Vec::new();
        let mut i: usize = 0;
        while i < count
            invariant
                i <= count,
                count <= 128,
                valid_width(w as nat),
                results@.len() == i,
                forall|j: int| 0 <= j < i ==> #[trigger] results@[j] == j,
                forall|j: int| 0 <= j < i ==> #[trigger] results@[j] < pow2(8 * w as nat),
            decreases count - i,
        {
            proof {
                lemma_small_fits(i as int, w as nat);
            }
            results.push(i as u64);
            i = i + 1;
        }
        store_results(&mut self.regs, vd as usize * VLEN_BYTE, w, &results, &mask);
        proof {
            lemma_updated(*old(self), self.regs@, mask, results@, vd as int, w as nat, enable_mask, vstart as int, |i: int| i);
        }
        Ok(())
    }
}

} // verus!
