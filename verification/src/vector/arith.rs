//! The integer arithmetic instructions of the vector unit. Every
//! instruction reads its sources from the register file as it was before
//! the instruction, computes one result per destination element, and writes
//! the results under the element policy.

use vstd::prelude::*;
use vstd::arithmetic::power2::pow2;
use crate::bits::{valid_bits, wrap};
use crate::vector::regfile::{VLEN_BYTE, VREGFILE_BYTES, elem, valid_group, valid_width, lemma_elem_bound};
use crate::vector::mask::{VecOpMask, apply_decision, vreg_bit, seq_bit, read_mask_bit};
use crate::vector::regfile::VectorRegFile;
use crate::vector::types::{Vsew, Vlmul, sew_bytes_spec, lmul_spec};
use crate::vector::unit::{
    Vector, Exception, check_group, lemma_group, read_elems, store_results, group_count,
    unchanged_outside,
};
use crate::vector::integer::{
    IntegerOp, integer_binary, integer_binary_spec, MultiplyAddOp, multiply_add, multiply_add_spec,
    WideningOp, WideningSign, widening_apply, extend, vs1_signed, vs2_signed, widening_binary,
    widening_wide_binary, widening_multiply_add, NarrowingShiftOp, narrowing_shift,
    narrowing_shift_spec, add_with_carry, sub_with_borrow, extend_to,
};

verus! {

/// The new register file holds `f(i)` in element `i` of the `count`
/// elements of `w` bytes of the group at register `vd`, and the old bytes
/// everywhere else.
pub open spec fn group_result(old: Seq<u8>, new: Seq<u8>, vd: int, w: nat, count: int, f: spec_fn(int) -> int) -> bool {
    &&& forall|i: int| 0 <= i < count ==> #[trigger] elem(new, vd * 16, w, i) == f(i)
    &&& unchanged_outside(old, new, vd * 16, vd * 16 + count * w)
}

/// Element `i` of the `w`-byte group at register `reg` of the unit `v`.
pub open spec fn elem_of(v: Vector, reg: int, w: nat, i: int) -> int {
    elem(v.regs@, reg * 16, w, i) as int
}

/// The 16 bytes of register `reg`, read as a mask.
pub fn read_mask_reg(regs: &VectorRegFile, reg: u8) -> (r: Vec<u8>)
    requires
        regs@.len() == VREGFILE_BYTES,
        reg < 32,
    ensures
        r@.len() == 16,
        forall|i: int| 0 <= i < 128 ==> #[trigger] seq_bit(r@, i) == vreg_bit(regs@, reg as int, i),
{
    let g = regs.read_group(1, reg);
    match g {
        Some(bytes) => {
            proof {
                assert forall|i: int| 0 <= i < 128 implies #[trigger] seq_bit(bytes@, i) == vreg_bit(regs@, reg as int, i) by {
                    assert(bytes@[i / 8] == regs@[reg * 16 + i / 8]);
                }
            }
            bytes
        },
        None => {
            proof {
                assert(false);
            }
            Vec::new()
        },
    }
}

/// The number of registers in the source group of a narrowing instruction:
/// twice the destination group, and one register for fractional groups.
pub open spec fn narrowing_src_lmul(v: Vlmul) -> nat {
    match v {
        Vlmul::M1 => 2,
        Vlmul::M2 => 4,
        Vlmul::M4 => 8,
        Vlmul::M8 => 16,
        _ => 1,
    }
}

/// The number of registers in the source group of a narrowing instruction.
pub fn narrowing_source_lmul(v: Vlmul) -> (r: u8)
    ensures
        r == narrowing_src_lmul(v),
{
    match v {
        Vlmul::M1 => 2,
        Vlmul::M2 => 4,
        Vlmul::M4 => 8,
        Vlmul::M8 => 16,
        _ => 1,
    }
}

/// Whether the register groups `[a, a + a_len)` and `[b, b + b_len)` share
/// a register.
pub open spec fn groups_overlap(a: int, a_len: int, b: int, b_len: int) -> bool {
    a < b + b_len && b < a + a_len
}

/// Whether the register groups `[a, a + a_len)` and `[b, b + b_len)` share
/// a register.
pub fn vector_register_group_overlaps(a: u8, a_len: u8, b: u8, b_len: u8) -> (r: bool)
    ensures
        r == groups_overlap(a as int, a_len as int, b as int, b_len as int),
{
    (a as u16) < (b as u16) + (b_len as u16) && (b as u16) < (a as u16) + (a_len as u16)
}

/// The low `bits` bits of a scalar operand.
pub open spec fn scalar_of(x: u64, bits: nat) -> int {
    wrap(x as int, bits)
}

/// The low `8 * w` bits of `x`.
pub fn truncate_scalar(x: u64, w: usize) -> (r: u64)
    requires
        valid_width(w as nat),
    ensures
        r == scalar_of(x, 8 * w as nat),
        r < pow2(8 * w as nat),
{
    proof {
        crate::bits::lemma_width_pow2(8 * w as nat);
    }
    let m = crate::bits::pow2_u128(8 * w as u32);
    ((x as u128) % m) as u64
}

/// The element policy of an instruction, applied to the values `f(i)`.
pub open spec fn updated(
    old: Vector,
    new_regs: Seq<u8>,
    vd: int,
    w: nat,
    count: int,
    enable_mask: bool,
    start: int,
    f: spec_fn(int) -> int,
) -> bool {
    group_result(
        old.regs@,
        new_regs,
        vd,
        w,
        count,
        |i: int| apply_decision(old.policy(enable_mask, start, i), f(i), elem(old.regs@, vd * 16, w, i) as int),
    )
}

/// What `store_results` guarantees, restated over the policy of the unit
/// that built the mask.
pub proof fn lemma_updated(
    old: Vector,
    new_regs: Seq<u8>,
    mask: VecOpMask,
    results: Seq<u64>,
    vd: int,
    w: nat,
    enable_mask: bool,
    start: int,
    f: spec_fn(int) -> int,
)
    requires
        forall|i: int| #[trigger] mask.decision(i) == old.policy(enable_mask, start, i),
        forall|i: int| 0 <= i < results.len() ==> #[trigger] results[i] == f(i),
        forall|i: int|
            0 <= i < results.len() ==> #[trigger] elem(new_regs, vd * 16, w, i) == apply_decision(
                mask.decision(i),
                results[i] as int,
                elem(old.regs@, vd * 16, w, i) as int,
            ),
        unchanged_outside(old.regs@, new_regs, vd * 16, vd * 16 + results.len() * w),
    ensures
        updated(old, new_regs, vd, w, results.len() as int, enable_mask, start, f),
{
    assert forall|i: int| 0 <= i < results.len() implies #[trigger] elem(new_regs, vd * 16, w, i) == apply_decision(
        old.policy(enable_mask, start, i),
        f(i),
        elem(old.regs@, vd * 16, w, i) as int,
    ) by {
        assert(mask.decision(i) == old.policy(enable_mask, start, i));
        assert(results[i] == f(i));
    }
}


/// The number of `w`-byte elements in `l` registers is `q` when they fill
/// the registers exactly.
proof fn lemma_count_is(l: nat, w: nat, q: int)
    requires
        w > 0,
        l * 16 == q * w,
    ensures
        group_count(l, w) == q,
{
    assert(l * 16 == w * q) by (nonlinear_arith)
        requires
            l * 16 == q * w,
    ;
    vstd::arithmetic::div_mod::lemma_div_multiples_vanish(q, w as int);
}

/// The number of elements that `w` bytes of a group of `l` registers hold,
/// for the element widths a widening or narrowing instruction reads.
pub proof fn lemma_count_small(l: nat, w: nat)
    requires
        w == 1 || w == 2 || w == 4 || w == 8,
    ensures
        w == 1 ==> group_count(l, w) == 16 * l,
        w == 2 ==> group_count(l, w) == 8 * l,
        w == 4 ==> group_count(l, w) == 4 * l,
        w == 8 ==> group_count(l, w) == 2 * l,
{
    if w == 1 {
        lemma_count_is(l, w, 16 * l as int);
    } else if w == 2 {
        lemma_count_is(l, w, 8 * l as int);
    } else if w == 4 {
        lemma_count_is(l, w, 4 * l as int);
    } else {
        lemma_count_is(l, w, 2 * l as int);
    }
}

/// The element counts of a widening instruction: the source group of `lmul`
/// registers and the destination group of `2 * lmul` registers hold the same
/// number of elements.
pub proof fn lemma_widen_counts(lmul: nat, w: nat)
    requires
        lmul == 1 || lmul == 2 || lmul == 4,
        w == 1 || w == 2 || w == 4,
    ensures
        group_count(lmul, w) == group_count(2 * lmul, 2 * w),
        group_count(lmul, w) * (2 * w) == 2 * lmul * 16,
        group_count(lmul, w) <= 128,
{
    lemma_count_small(lmul, w);
    lemma_count_small(2 * lmul, 2 * w);
}

/// The element count of a narrowing instruction: the elements of the source
/// group fill at most the destination group.
pub proof fn lemma_narrow_counts(v: Vlmul, w: nat)
    requires
        w == 1 || w == 2 || w == 4,
        narrowing_src_lmul(v) <= 8,
    ensures
        group_count(narrowing_src_lmul(v), 2 * w) * (2 * w) == narrowing_src_lmul(v) * 16,
        group_count(narrowing_src_lmul(v), 2 * w) * w <= lmul_spec(v) * 16,
        group_count(narrowing_src_lmul(v), 2 * w) <= 128,
{
    lemma_count_small(narrowing_src_lmul(v), 2 * w);
}

impl Vector {
    /// `vop.vv`: element `i` of `vd` becomes `op(vs2[i], vs1[i])`.
    pub fn exec_integer_vv(&mut self, op: IntegerOp, vs1: u8, vs2: u8, vd: u8, enable_mask: bool) -> (r: Result<(), Exception>)
        requires
            old(self).wf(),
        ensures
            final(self).wf(),
            final(self).config == old(self).config,
            r is Ok <==> valid_group(vs1 as int, old(self).lmul() as int) && valid_group(vs2 as int, old(self).lmul() as int)
                && valid_group(vd as int, old(self).lmul() as int),
            r is Err ==> final(self).regs@ == old(self).regs@,
            r is Ok ==> updated(
                *old(self),
                final(self).regs@,
                vd as int,
                old(self).sew_bytes(),
                group_count(old(self).lmul(), old(self).sew_bytes()),
                enable_mask,
                0,
                |i: int|
                    integer_binary_spec(
                        op,
                        8 * old(self).sew_bytes(),
                        elem(old(self).regs@, vs2 * 16, old(self).sew_bytes(), i) as u64,
                        elem(old(self).regs@, vs1 * 16, old(self).sew_bytes(), i) as u64,
                    ),
            ),
    {
        let lmul = self.config.vlmul.get_lmul();
        let w = self.config.vsew.get_sew() as usize;
        if !check_group(vs1, lmul) || !check_group(vs2, lmul) || !check_group(vd, lmul) {
            return Err(Exception::IllegalInstruction);
        }
        proof {
            lemma_group(vs1 as int, lmul as int, w as nat);
            lemma_group(vs2 as int, lmul as int, w as nat);
            lemma_group(vd as int, lmul as int, w as nat);
        }
        let count = (lmul as usize * VLEN_BYTE) / w;
        let bits = (8 * w) as u32;
        let a = read_elems(&self.regs, vs2 as usize * VLEN_BYTE, w, count);
        let b = read_elems(&self.regs, vs1 as usize * VLEN_BYTE, w, count);
        let mask = VecOpMask::new(&self.regs, self.config.vl, enable_mask, self.config.mask_agnostic, self.config.tail_agnostic);
        let mut results: Vec<u64> = Vec::new();
        let mut i: usize = 0;
        while i < count
            invariant
                i <= count,
                count == a@.len(),
                count == b@.len(),
                valid_bits(bits as nat),
                bits == 8 * w,
                forall|j: int| 0 <= j < count ==> #[trigger] a@[j] < pow2(bits as nat),
                forall|j: int| 0 <= j < count ==> #[trigger] b@[j] < pow2(bits as nat),
                results@.len() == i,
                forall|j: int| 0 <= j < i ==> #[trigger] results@[j] == integer_binary_spec(op, bits as nat, a@[j], b@[j]),
                forall|j: int| 0 <= j < i ==> #[trigger] results@[j] < pow2(bits as nat),
            decreases count - i,
        {
            let v = integer_binary(op, bits, a[i], b[i]);
            results.push(v);
            i = i + 1;
        }
        store_results(&mut self.regs, vd as usize * VLEN_BYTE, w, &results, &mask);
        proof {
            lemma_updated(
                *old(self),
                self.regs@,
                mask,
                results@,
                vd as int,
                w as nat,
                enable_mask,
                0,
                |i: int|
                    integer_binary_spec(
                        op,
                        8 * old(self).sew_bytes(),
                        elem(old(self).regs@, vs2 * 16, old(self).sew_bytes(), i) as u64,
                        elem(old(self).regs@, vs1 * 16, old(self).sew_bytes(), i) as u64,
                    ),
            );
        }
        Ok(())
    }
}


impl Vector {
    /// `vop.vx`: element `i` of `vd` becomes `op(vs2[i], x1)`, with `x1`
    /// truncated to the element width.
    pub fn exec_integer_vx(&mut self, op: IntegerOp, x1: u64, vs2: u8, vd: u8, enable_mask: bool) -> (r: Result<(), Exception>)
        requires
            old(self).wf(),
        ensures
            final(self).wf(),
            final(self).config == old(self).config,
            r is Ok <==> valid_group(vs2 as int, old(self).lmul() as int) && valid_group(vd as int, old(self).lmul() as int),
            r is Err ==> final(self).regs@ == old(self).regs@,
            r is Ok ==> updated(
                *old(self),
                final(self).regs@,
                vd as int,
                old(self).sew_bytes(),
                group_count(old(self).lmul(), old(self).sew_bytes()),
                enable_mask,
                0,
                |i: int|
                    integer_binary_spec(
                        op,
                        8 * old(self).sew_bytes(),
                        elem(old(self).regs@, vs2 * 16, old(self).sew_bytes(), i) as u64,
                        scalar_of(x1, 8 * old(self).sew_bytes()) as u64,
                    ),
            ),
    {
        let lmul = self.config.vlmul.get_lmul();
        let w = self.config.vsew.get_sew() as usize;
        if !check_group(vs2, lmul) || !check_group(vd, lmul) {
            return Err(Exception::IllegalInstruction);
        }
        proof {
            lemma_group(vs2 as int, lmul as int, w as nat);
            lemma_group(vd as int, lmul as int, w as nat);
        }
        let count = (lmul as usize * VLEN_BYTE) / w;
        let bits = (8 * w) as u32;
        let scalar = truncate_scalar(x1, w);
        let a = read_elems(&self.regs, vs2 as usize * VLEN_BYTE, w, count);
        let mask = VecOpMask::new(&self.regs, self.config.vl, enable_mask, self.config.mask_agnostic, self.config.tail_agnostic);
        let mut results: Vec<u64> = Vec::new();
        let mut i: usize = 0;
        while i < count
            invariant
                i <= count,
                count == a@.len(),
                valid_bits(bits as nat),
                bits == 8 * w,
                scalar < pow2(bits as nat),
                forall|j: int| 0 <= j < count ==> #[trigger] a@[j] < pow2(bits as nat),
                results@.len() == i,
                forall|j: int| 0 <= j < i ==> #[trigger] results@[j] == integer_binary_spec(op, bits as nat, a@[j], scalar),
                forall|j: int| 0 <= j < i ==> #[trigger] results@[j] < pow2(bits as nat),
            decreases count - i,
        {
            let v = integer_binary(op, bits, a[i], scalar);
            results.push(v);
            i = i + 1;
        }
        store_results(&mut self.regs, vd as usize * VLEN_BYTE, w, &results, &mask);
        proof {
            lemma_updated(
                *old(self),
                self.regs@,
                mask,
                results@,
                vd as int,
                w as nat,
                enable_mask,
                0,
                |i: int|
                    integer_binary_spec(
                        op,
                        8 * old(self).sew_bytes(),
                        elem(old(self).regs@, vs2 * 16, old(self).sew_bytes(), i) as u64,
                        scalar_of(x1, 8 * old(self).sew_bytes()) as u64,
                    ),
            );
        }
        Ok(())
    }

    /// `vop.vv` for the multiply-adds: element `i` of `vd` becomes
    /// `op(vs2[i], vs1[i], vd[i])`.
    pub fn exec_integer_vvv(&mut self, op: MultiplyAddOp, vs1: u8, vs2: u8, vd: u8, enable_mask: bool) -> (r: Result<(), Exception>)
        requires
            old(self).wf(),
        ensures
            final(self).wf(),
            final(self).config == old(self).config,
            r is Ok <==> valid_group(vs1 as int, old(self).lmul() as int) && valid_group(vs2 as int, old(self).lmul() as int)
                && valid_group(vd as int, old(self).lmul() as int),
            r is Err ==> final(self).regs@ == old(self).regs@,
            r is Ok ==> updated(
                *old(self),
                final(self).regs@,
                vd as int,
                old(self).sew_bytes(),
                group_count(old(self).lmul(), old(self).sew_bytes()),
                enable_mask,
                0,
                |i: int|
                    multiply_add_spec(
                        op,
                        8 * old(self).sew_bytes(),
                        elem_of(*old(self), vs2 as int, old(self).sew_bytes(), i),
                        elem_of(*old(self), vs1 as int, old(self).sew_bytes(), i),
                        elem_of(*old(self), vd as int, old(self).sew_bytes(), i),
                    ),
            ),
    {
        let lmul = self.config.vlmul.get_lmul();
        let w = self.config.vsew.get_sew() as usize;
        if !check_group(vs1, lmul) || !check_group(vs2, lmul) || !check_group(vd, lmul) {
            return Err(Exception::IllegalInstruction);
        }
        proof {
            lemma_group(vs1 as int, lmul as int, w as nat);
            lemma_group(vs2 as int, lmul as int, w as nat);
            lemma_group(vd as int, lmul as int, w as nat);
        }
        let count = (lmul as usize * VLEN_BYTE) / w;
        let bits = (8 * w) as u32;
        let a = read_elems(&self.regs, vs2 as usize * VLEN_BYTE, w, count);
        let b = read_elems(&self.regs, vs1 as usize * VLEN_BYTE, w, count);
        let c = read_elems(&self.regs, vd as usize * VLEN_BYTE, w, count);
        let mask = VecOpMask::new(&self.regs, self.config.vl, enable_mask, self.config.mask_agnostic, self.config.tail_agnostic);
        let mut results: Vec<u64> = Vec::new();
        let mut i: usize = 0;
        while i < count
            invariant
                i <= count,
                count == a@.len(),
                count == b@.len(),
                count == c@.len(),
                valid_bits(bits as nat),
                bits == 8 * w,
                forall|j: int| 0 <= j < count ==> #[trigger] a@[j] < pow2(bits as nat),
                forall|j: int| 0 <= j < count ==> #[trigger] b@[j] < pow2(bits as nat),
                forall|j: int| 0 <= j < count ==> #[trigger] c@[j] < pow2(bits as nat),
                results@.len() == i,
                forall|j: int| 0 <= j < i ==> #[trigger] results@[j] == multiply_add_spec(op, bits as nat, a@[j] as int, b@[j] as int, c@[j] as int),
                forall|j: int| 0 <= j < i ==> #[trigger] results@[j] < pow2(bits as nat),
            decreases count - i,
        {
            let v = multiply_add(op, bits, a[i], b[i], c[i]);
            results.push(v);
            i = i + 1;
        }
        store_results(&mut self.regs, vd as usize * VLEN_BYTE, w, &results, &mask);
        proof {
            lemma_updated(
                *old(self),
                self.regs@,
                mask,
                results@,
                vd as int,
                w as nat,
                enable_mask,
                0,
                |i: int|
                    multiply_add_spec(
                        op,
                        8 * old(self).sew_bytes(),
                        elem_of(*old(self), vs2 as int, old(self).sew_bytes(), i),
                        elem_of(*old(self), vs1 as int, old(self).sew_bytes(), i),
                        elem_of(*old(self), vd as int, old(self).sew_bytes(), i),
                    ),
            );
        }
        Ok(())
    }
}

impl Vector {
    /// `vop.vx` for the multiply-adds: element `i` of `vd` becomes `op(vs2[i], x1, vd[i])`, with `x1` truncated to the element width.
    pub fn exec_integer_vxv(&mut self, op: MultiplyAddOp, x1: u64, vs2: u8, vd: u8, enable_mask: bool) -> (r: Result<(), Exception>)
        requires
            old(self).wf(),
        ensures
            final(self).wf(),
            final(self).config == old(self).config,
            r is Ok <==> valid_group(vs2 as int, old(self).lmul() as int) && valid_group(vd as int, old(self).lmul() as int),
            r is Err ==> final(self).regs@ == old(self).regs@,
            r is Ok ==> updated(
                *old(self),
                final(self).regs@,
                vd as int,
                old(self).sew_bytes(),
                group_count(old(self).lmul(), old(self).sew_bytes()),
                enable_mask,
                0 as int,
                |i: int| multiply_add_spec(op, 8 * old(self).sew_bytes(), elem_of(*old(self), vs2 as int, old(self).sew_bytes(), i), scalar_of(x1, 8 * old(self).sew_bytes()), elem_of(*old(self), vd as int, old(self).sew_bytes(), i)),
            ),
    {
        let lmul = self.config.vlmul.get_lmul();
        let w = self.config.vsew.get_sew() as usize;
        if !check_group(vs2, lmul) || !check_group(vd, lmul) {
            return Err(Exception::IllegalInstruction);
        }
        let bits = (8 * w) as u32;
        let scalar = truncate_scalar(x1, w);
        proof {
            lemma_group(vs2 as int, lmul as int, w as nat);
            lemma_group(vd as int, lmul as int, w as nat);
        }
        let count: usize = (lmul as usize * VLEN_BYTE) / w;

        let a = read_elems(&self.regs, vs2 as usize * VLEN_BYTE, w, count);
        let c = read_elems(&self.regs, vd as usize * VLEN_BYTE, w, count);
        let mask = VecOpMask::new_with_start(&self.regs, self.config.vl, enable_mask, self.config.mask_agnostic, self.config.tail_agnostic, 0);
        let mut results: Vec<u64> = Vec::new();
        let mut i: usize = 0;
        while i < count
            invariant
                i <= count,
                count <= a@.len(),
                forall|j: int| 0 <= j < a@.len() ==> #[trigger] a@[j] < pow2(8 * w as nat),
                count <= c@.len(),
                forall|j: int| 0 <= j < c@.len() ==> #[trigger] c@[j] < pow2(8 * w as nat),
                bits == 8 * w,
                valid_bits(bits as nat),
                scalar < pow2(bits as nat),
                results@.len() == i,
                forall|j: int| 0 <= j < i ==> #[trigger] results@[j] == multiply_add_spec(op, bits as nat, a@[j] as int, scalar as int, c@[j] as int),
                forall|j: int| 0 <= j < i ==> #[trigger] results@[j] < pow2(8 * w as nat),
            decreases count - i,
        {
            let v = multiply_add(op, bits, a[i], scalar, c[i]);
            results.push(v);
            i = i + 1;
        }
        store_results(&mut self.regs, vd as usize * VLEN_BYTE, w, &results, &mask);
        proof {
            lemma_updated(
                *old(self),
                self.regs@,
                mask,
                results@,
                vd as int,
                w as nat,
                enable_mask,
                0 as int,
                |i: int| multiply_add_spec(op, 8 * old(self).sew_bytes(), elem_of(*old(self), vs2 as int, old(self).sew_bytes(), i), scalar_of(x1, 8 * old(self).sew_bytes()), elem_of(*old(self), vd as int, old(self).sew_bytes(), i)),
            );
        }
        Ok(())
    }

    /// `vw<op>.vv`: element `i` of the double-width `vd` becomes `op(ext(vs2[i]), ext(vs1[i]))`, extended as `sign` says.
    pub fn exec_widening_integer_vv(&mut self, op: WideningOp, sign: WideningSign, vs1: u8, vs2: u8, vd: u8, enable_mask: bool) -> (r: Result<(), Exception>)
        requires
            old(self).wf(),
        ensures
            final(self).wf(),
            final(self).config == old(self).config,
            r is Ok <==> old(self).sew_bytes() <= 4 && old(self).lmul() <= 4 && valid_group(vs1 as int, old(self).lmul() as int) && valid_group(vs2 as int, old(self).lmul() as int) && valid_group(vd as int, 2 * old(self).lmul() as int),
            r is Err ==> final(self).regs@ == old(self).regs@,
            r is Ok ==> updated(
                *old(self),
                final(self).regs@,
                vd as int,
                2 * old(self).sew_bytes(),
                group_count(old(self).lmul(), old(self).sew_bytes()),
                enable_mask,
                0 as int,
                |i: int| widening_apply(op, 8 * old(self).sew_bytes(), extend(elem_of(*old(self), vs2 as int, old(self).sew_bytes(), i), 8 * old(self).sew_bytes(), vs2_signed(sign)), extend(elem_of(*old(self), vs1 as int, old(self).sew_bytes(), i), 8 * old(self).sew_bytes(), vs1_signed(sign))),
            ),
    {
        let lmul = self.config.vlmul.get_lmul();
        let w = self.config.vsew.get_sew() as usize;
        if w > 4 || lmul > 4 {
            return Err(Exception::IllegalInstruction);
        }
        if !check_group(vs1, lmul) || !check_group(vs2, lmul) || !check_group(vd, 2 * lmul) {
            return Err(Exception::IllegalInstruction);
        }
        let bits = (8 * w) as u32;
        proof {
            lemma_group(vs1 as int, lmul as int, w as nat);
            lemma_group(vs2 as int, lmul as int, w as nat);
            lemma_group(vd as int, 2 * lmul as int, 2 * w as nat);
            lemma_widen_counts(lmul as nat, w as nat);
        }
        let count: usize = (lmul as usize * VLEN_BYTE) / w;

        let a = read_elems(&self.regs, vs2 as usize * VLEN_BYTE, w, count);
        let b = read_elems(&self.regs, vs1 as usize * VLEN_BYTE, w, count);
        let mask = VecOpMask::new_with_start(&self.regs, self.config.vl, enable_mask, self.config.mask_agnostic, self.config.tail_agnostic, 0);
        assert(8 * 2 * w == 2 * bits && 8 * w == bits);
        assert(pow2(8 * 2 * w as nat) == pow2(2 * bits as nat));
        assert(pow2(8 * w as nat) == pow2(bits as nat));
        let mut results: Vec<u64> = Vec::new();
        let mut i: usize = 0;
        while i < count
            invariant
                i <= count,
                count <= a@.len(),
                forall|j: int| 0 <= j < a@.len() ==> #[trigger] a@[j] < pow2(8 * w as nat),
                count <= b@.len(),
                forall|j: int| 0 <= j < b@.len() ==> #[trigger] b@[j] < pow2(8 * w as nat),
                bits == 8 * w,
                bits == 8 || bits == 16 || bits == 32,
                pow2(8 * 2 * w as nat) == pow2(2 * bits as nat),
                pow2(8 * w as nat) == pow2(bits as nat),
                results@.len() == i,
                forall|j: int| 0 <= j < i ==> #[trigger] results@[j] == widening_apply(op, bits as nat, extend(a@[j] as int, bits as nat, vs2_signed(sign)), extend(b@[j] as int, bits as nat, vs1_signed(sign))),
                forall|j: int| 0 <= j < i ==> #[trigger] results@[j] < pow2(8 * 2 * w as nat),
            decreases count - i,
        {
            let v = widening_binary(op, sign, bits, a[i], b[i]);
            results.push(v);
            i = i + 1;
        }
        store_results(&mut self.regs, vd as usize * VLEN_BYTE, 2 * w, &results, &mask);
        proof {
            lemma_updated(
                *old(self),
                self.regs@,
                mask,
                results@,
                vd as int,
                2 * w as nat,
                enable_mask,
                0 as int,
                |i: int| widening_apply(op, 8 * old(self).sew_bytes(), extend(elem_of(*old(self), vs2 as int, old(self).sew_bytes(), i), 8 * old(self).sew_bytes(), vs2_signed(sign)), extend(elem_of(*old(self), vs1 as int, old(self).sew_bytes(), i), 8 * old(self).sew_bytes(), vs1_signed(sign))),
            );
        }
        Ok(())
    }

    /// `vw<op>.vx`: element `i` of the double-width `vd` becomes `op(ext(vs2[i]), ext(x1))`, with `x1` truncated to the element width.
    pub fn exec_widening_integer_vx(&mut self, op: WideningOp, sign: WideningSign, x1: u64, vs2: u8, vd: u8, enable_mask: bool) -> (r: Result<(), Exception>)
        requires
            old(self).wf(),
        ensures
            final(self).wf(),
            final(self).config == old(self).config,
            r is Ok <==> old(self).sew_bytes() <= 4 && old(self).lmul() <= 4 && valid_group(vs2 as int, old(self).lmul() as int) && valid_group(vd as int, 2 * old(self).lmul() as int),
            r is Err ==> final(self).regs@ == old(self).regs@,
            r is Ok ==> updated(
                *old(self),
                final(self).regs@,
                vd as int,
                2 * old(self).sew_bytes(),
                group_count(old(self).lmul(), old(self).sew_bytes()),
                enable_mask,
                0 as int,
                |i: int| widening_apply(op, 8 * old(self).sew_bytes(), extend(elem_of(*old(self), vs2 as int, old(self).sew_bytes(), i), 8 * old(self).sew_bytes(), vs2_signed(sign)), extend(scalar_of(x1, 8 * old(self).sew_bytes()), 8 * old(self).sew_bytes(), vs1_signed(sign))),
            ),
    {
        let lmul = self.config.vlmul.get_lmul();
        let w = self.config.vsew.get_sew() as usize;
        if w > 4 || lmul > 4 {
            return Err(Exception::IllegalInstruction);
        }
        if !check_group(vs2, lmul) || !check_group(vd, 2 * lmul) {
            return Err(Exception::IllegalInstruction);
        }
        let bits = (8 * w) as u32;
        let scalar = truncate_scalar(x1, w);
        proof {
            lemma_group(vs2 as int, lmul as int, w as nat);
            lemma_group(vd as int, 2 * lmul as int, 2 * w as nat);
            lemma_widen_counts(lmul as nat, w as nat);
        }
        let count: usize = (lmul as usize * VLEN_BYTE) / w;

        let a = read_elems(&self.regs, vs2 as usize * VLEN_BYTE, w, count);
        let mask = VecOpMask::new_with_start(&self.regs, self.config.vl, enable_mask, self.config.mask_agnostic, self.config.tail_agnostic, 0);
        assert(8 * 2 * w == 2 * bits && 8 * w == bits);
        assert(pow2(8 * 2 * w as nat) == pow2(2 * bits as nat));
        assert(pow2(8 * w as nat) == pow2(bits as nat));
        let mut results: Vec<u64> = Vec::new();
        let mut i: usize = 0;
        while i < count
            invariant
                i <= count,
                count <= a@.len(),
                forall|j: int| 0 <= j < a@.len() ==> #[trigger] a@[j] < pow2(8 * w as nat),
                bits == 8 * w,
                bits == 8 || bits == 16 || bits == 32,
                pow2(8 * 2 * w as nat) == pow2(2 * bits as nat),
                pow2(8 * w as nat) == pow2(bits as nat),
                scalar < pow2(bits as nat),
                results@.len() == i,
                forall|j: int| 0 <= j < i ==> #[trigger] results@[j] == widening_apply(op, bits as nat, extend(a@[j] as int, bits as nat, vs2_signed(sign)), extend(scalar as int, bits as nat, vs1_signed(sign))),
                forall|j: int| 0 <= j < i ==> #[trigger] results@[j] < pow2(8 * 2 * w as nat),
            decreases count - i,
        {
            let v = widening_binary(op, sign, bits, a[i], scalar);
            results.push(v);
            i = i + 1;
        }
        store_results(&mut self.regs, vd as usize * VLEN_BYTE, 2 * w, &results, &mask);
        proof {
            lemma_updated(
                *old(self),
                self.regs@,
                mask,
                results@,
                vd as int,
                2 * w as nat,
                enable_mask,
                0 as int,
                |i: int| widening_apply(op, 8 * old(self).sew_bytes(), extend(elem_of(*old(self), vs2 as int, old(self).sew_bytes(), i), 8 * old(self).sew_bytes(), vs2_signed(sign)), extend(scalar_of(x1, 8 * old(self).sew_bytes()), 8 * old(self).sew_bytes(), vs1_signed(sign))),
            );
        }
        Ok(())
    }

    /// `vwmacc*.vv`: element `i` of the double-width `vd` becomes `ext(vs1[i]) * ext(vs2[i]) + vd[i]`.
    pub fn exec_widening_integer_vvv(&mut self, sign: WideningSign, vs1: u8, vs2: u8, vd: u8, enable_mask: bool) -> (r: Result<(), Exception>)
        requires
            old(self).wf(),
        ensures
            final(self).wf(),
            final(self).config == old(self).config,
            r is Ok <==> old(self).sew_bytes() <= 4 && old(self).lmul() <= 4 && valid_group(vs1 as int, old(self).lmul() as int) && valid_group(vs2 as int, old(self).lmul() as int) && valid_group(vd as int, 2 * old(self).lmul() as int),
            r is Err ==> final(self).regs@ == old(self).regs@,
            r is Ok ==> updated(
                *old(self),
                final(self).regs@,
                vd as int,
                2 * old(self).sew_bytes(),
                group_count(old(self).lmul(), old(self).sew_bytes()),
                enable_mask,
                0 as int,
                |i: int| wrap(extend(elem_of(*old(self), vs1 as int, old(self).sew_bytes(), i), 8 * old(self).sew_bytes(), vs1_signed(sign)) * extend(elem_of(*old(self), vs2 as int, old(self).sew_bytes(), i), 8 * old(self).sew_bytes(), vs2_signed(sign)) + elem_of(*old(self), vd as int, 2 * old(self).sew_bytes(), i), 2 * 8 * old(self).sew_bytes()),
            ),
    {
        let lmul = self.config.vlmul.get_lmul();
        let w = self.config.vsew.get_sew() as usize;
        if w > 4 || lmul > 4 {
            return Err(Exception::IllegalInstruction);
        }
        if !check_group(vs1, lmul) || !check_group(vs2, lmul) || !check_group(vd, 2 * lmul) {
            return Err(Exception::IllegalInstruction);
        }
        let bits = (8 * w) as u32;
        proof {
            lemma_group(vs1 as int, lmul as int, w as nat);
            lemma_group(vs2 as int, lmul as int, w as nat);
            lemma_group(vd as int, 2 * lmul as int, 2 * w as nat);
            lemma_widen_counts(lmul as nat, w as nat);
        }
        let count: usize = (lmul as usize * VLEN_BYTE) / w;

        let a = read_elems(&self.regs, vs2 as usize * VLEN_BYTE, w, count);
        let b = read_elems(&self.regs, vs1 as usize * VLEN_BYTE, w, count);
        let c = read_elems(&self.regs, vd as usize * VLEN_BYTE, 2 * w, count);
        let mask = VecOpMask::new_with_start(&self.regs, self.config.vl, enable_mask, self.config.mask_agnostic, self.config.tail_agnostic, 0);
        assert(8 * 2 * w == 2 * bits && 8 * w == bits);
        assert(pow2(8 * 2 * w as nat) == pow2(2 * bits as nat));
        assert(pow2(8 * w as nat) == pow2(bits as nat));
        let mut results: Vec<u64> = Vec::new();
        let mut i: usize = 0;
        while i < count
            invariant
                i <= count,
                count <= a@.len(),
                forall|j: int| 0 <= j < a@.len() ==> #[trigger] a@[j] < pow2(8 * w as nat),
                count <= b@.len(),
                forall|j: int| 0 <= j < b@.len() ==> #[trigger] b@[j] < pow2(8 * w as nat),
                count <= c@.len(),
                forall|j: int| 0 <= j < c@.len() ==> #[trigger] c@[j] < pow2(8 * 2 * w as nat),
                bits == 8 * w,
                bits == 8 || bits == 16 || bits == 32,
                pow2(8 * 2 * w as nat) == pow2(2 * bits as nat),
                pow2(8 * w as nat) == pow2(bits as nat),
                results@.len() == i,
                forall|j: int| 0 <= j < i ==> #[trigger] results@[j] == wrap(extend(b@[j] as int, bits as nat, vs1_signed(sign)) * extend(a@[j] as int, bits as nat, vs2_signed(sign)) + c@[j], 2 * bits as nat),
                forall|j: int| 0 <= j < i ==> #[trigger] results@[j] < pow2(8 * 2 * w as nat),
            decreases count - i,
        {
            let v = widening_multiply_add(sign, bits, a[i], b[i], c[i]);
            results.push(v);
            i = i + 1;
        }
        store_results(&mut self.regs, vd as usize * VLEN_BYTE, 2 * w, &results, &mask);
        proof {
            lemma_updated(
                *old(self),
                self.regs@,
                mask,
                results@,
                vd as int,
                2 * w as nat,
                enable_mask,
                0 as int,
                |i: int| wrap(extend(elem_of(*old(self), vs1 as int, old(self).sew_bytes(), i), 8 * old(self).sew_bytes(), vs1_signed(sign)) * extend(elem_of(*old(self), vs2 as int, old(self).sew_bytes(), i), 8 * old(self).sew_bytes(), vs2_signed(sign)) + elem_of(*old(self), vd as int, 2 * old(self).sew_bytes(), i), 2 * 8 * old(self).sew_bytes()),
            );
        }
        Ok(())
    }

    /// `vwmacc*.vx`: element `i` of the double-width `vd` becomes `ext(x1) * ext(vs2[i]) + vd[i]`, with `x1` truncated to the element width.
    pub fn exec_widening_integer_vxv(&mut self, sign: WideningSign, x1: u64, vs2: u8, vd: u8, enable_mask: bool) -> (r: Result<(), Exception>)
        requires
            old(self).wf(),
        ensures
            final(self).wf(),
            final(self).config == old(self).config,
            r is Ok <==> old(self).sew_bytes() <= 4 && old(self).lmul() <= 4 && valid_group(vs2 as int, old(self).lmul() as int) && valid_group(vd as int, 2 * old(self).lmul() as int),
            r is Err ==> final(self).regs@ == old(self).regs@,
            r is Ok ==> updated(
                *old(self),
                final(self).regs@,
                vd as int,
                2 * old(self).sew_bytes(),
                group_count(old(self).lmul(), old(self).sew_bytes()),
                enable_mask,
                0 as int,
                |i: int| wrap(extend(scalar_of(x1, 8 * old(self).sew_bytes()), 8 * old(self).sew_bytes(), vs1_signed(sign)) * extend(elem_of(*old(self), vs2 as int, old(self).sew_bytes(), i), 8 * old(self).sew_bytes(), vs2_signed(sign)) + elem_of(*old(self), vd as int, 2 * old(self).sew_bytes(), i), 2 * 8 * old(self).sew_bytes()),
            ),
    {
        let lmul = self.config.vlmul.get_lmul();
        let w = self.config.vsew.get_sew() as usize;
        if w > 4 || lmul > 4 {
            return Err(Exception::IllegalInstruction);
        }
        if !check_group(vs2, lmul) || !check_group(vd, 2 * lmul) {
            return Err(Exception::IllegalInstruction);
        }
        let bits = (8 * w) as u32;
        let scalar = truncate_scalar(x1, w);
        proof {
            lemma_group(vs2 as int, lmul as int, w as nat);
            lemma_group(vd as int, 2 * lmul as int, 2 * w as nat);
            lemma_widen_counts(lmul as nat, w as nat);
        }
        let count: usize = (lmul as usize * VLEN_BYTE) / w;

        let a = read_elems(&self.regs, vs2 as usize * VLEN_BYTE, w, count);
        let c = read_elems(&self.regs, vd as usize * VLEN_BYTE, 2 * w, count);
        let mask = VecOpMask::new_with_start(&self.regs, self.config.vl, enable_mask, self.config.mask_agnostic, self.config.tail_agnostic, 0);
        assert(8 * 2 * w == 2 * bits && 8 * w == bits);
        assert(pow2(8 * 2 * w as nat) == pow2(2 * bits as nat));
        assert(pow2(8 * w as nat) == pow2(bits as nat));
        let mut results: Vec<u64> = Vec::new();
        let mut i: usize = 0;
        while i < count
            invariant
                i <= count,
                count <= a@.len(),
                forall|j: int| 0 <= j < a@.len() ==> #[trigger] a@[j] < pow2(8 * w as nat),
                count <= c@.len(),
                forall|j: int| 0 <= j < c@.len() ==> #[trigger] c@[j] < pow2(8 * 2 * w as nat),
                bits == 8 * w,
                bits == 8 || bits == 16 || bits == 32,
                pow2(8 * 2 * w as nat) == pow2(2 * bits as nat),
                pow2(8 * w as nat) == pow2(bits as nat),
                scalar < pow2(bits as nat),
                results@.len() == i,
                forall|j: int| 0 <= j < i ==> #[trigger] results@[j] == wrap(extend(scalar as int, bits as nat, vs1_signed(sign)) * extend(a@[j] as int, bits as nat, vs2_signed(sign)) + c@[j], 2 * bits as nat),
                forall|j: int| 0 <= j < i ==> #[trigger] results@[j] < pow2(8 * 2 * w as nat),
            decreases count - i,
        {
            let v = widening_multiply_add(sign, bits, a[i], scalar, c[i]);
            results.push(v);
            i = i + 1;
        }
        store_results(&mut self.regs, vd as usize * VLEN_BYTE, 2 * w, &results, &mask);
        proof {
            lemma_updated(
                *old(self),
                self.regs@,
                mask,
                results@,
                vd as int,
                2 * w as nat,
                enable_mask,
                0 as int,
                |i: int| wrap(extend(scalar_of(x1, 8 * old(self).sew_bytes()), 8 * old(self).sew_bytes(), vs1_signed(sign)) * extend(elem_of(*old(self), vs2 as int, old(self).sew_bytes(), i), 8 * old(self).sew_bytes(), vs2_signed(sign)) + elem_of(*old(self), vd as int, 2 * old(self).sew_bytes(), i), 2 * 8 * old(self).sew_bytes()),
            );
        }
        Ok(())
    }

    /// `vw<op>.wv`: element `i` of the double-width `vd` becomes `op(vs2[i], ext(vs1[i]))`, where `vs2` is already double-width.
    pub fn exec_widening_integer_wv(&mut self, op: WideningOp, signed: bool, vs1: u8, vs2: u8, vd: u8, enable_mask: bool) -> (r: Result<(), Exception>)
        requires
            old(self).wf(),
        ensures
            final(self).wf(),
            final(self).config == old(self).config,
            r is Ok <==> op != WideningOp::Mul && old(self).sew_bytes() <= 4 && old(self).lmul() <= 4 && valid_group(vs1 as int, old(self).lmul() as int) && valid_group(vs2 as int, 2 * old(self).lmul() as int) && valid_group(vd as int, 2 * old(self).lmul() as int),
            r is Err ==> final(self).regs@ == old(self).regs@,
            r is Ok ==> updated(
                *old(self),
                final(self).regs@,
                vd as int,
                2 * old(self).sew_bytes(),
                group_count(old(self).lmul(), old(self).sew_bytes()),
                enable_mask,
                0 as int,
                |i: int| widening_apply(op, 8 * old(self).sew_bytes(), extend(elem_of(*old(self), vs2 as int, 2 * old(self).sew_bytes(), i), 2 * 8 * old(self).sew_bytes(), signed), extend(elem_of(*old(self), vs1 as int, old(self).sew_bytes(), i), 8 * old(self).sew_bytes(), signed)),
            ),
    {
        if op == WideningOp::Mul {
            return Err(Exception::IllegalInstruction);
        }
        let lmul = self.config.vlmul.get_lmul();
        let w = self.config.vsew.get_sew() as usize;
        if w > 4 || lmul > 4 {
            return Err(Exception::IllegalInstruction);
        }
        if !check_group(vs1, lmul) || !check_group(vs2, 2 * lmul) || !check_group(vd, 2 * lmul) {
            return Err(Exception::IllegalInstruction);
        }
        let bits = (8 * w) as u32;
        proof {
            lemma_group(vs1 as int, lmul as int, w as nat);
            lemma_group(vs2 as int, 2 * lmul as int, 2 * w as nat);
            lemma_group(vd as int, 2 * lmul as int, 2 * w as nat);
            lemma_widen_counts(lmul as nat, w as nat);
        }
        let count: usize = (lmul as usize * VLEN_BYTE) / w;

        let a = read_elems(&self.regs, vs2 as usize * VLEN_BYTE, 2 * w, count);
        let b = read_elems(&self.regs, vs1 as usize * VLEN_BYTE, w, count);
        let mask = VecOpMask::new_with_start(&self.regs, self.config.vl, enable_mask, self.config.mask_agnostic, self.config.tail_agnostic, 0);
        assert(8 * 2 * w == 2 * bits && 8 * w == bits);
        assert(pow2(8 * 2 * w as nat) == pow2(2 * bits as nat));
        assert(pow2(8 * w as nat) == pow2(bits as nat));
        let mut results: Vec<u64> = Vec::new();
        let mut i: usize = 0;
        while i < count
            invariant
                i <= count,
                count <= a@.len(),
                forall|j: int| 0 <= j < a@.len() ==> #[trigger] a@[j] < pow2(8 * 2 * w as nat),
                count <= b@.len(),
                forall|j: int| 0 <= j < b@.len() ==> #[trigger] b@[j] < pow2(8 * w as nat),
                bits == 8 * w,
                bits == 8 || bits == 16 || bits == 32,
                pow2(8 * 2 * w as nat) == pow2(2 * bits as nat),
                pow2(8 * w as nat) == pow2(bits as nat),
                op != WideningOp::Mul,
                results@.len() == i,
                forall|j: int| 0 <= j < i ==> #[trigger] results@[j] == widening_apply(op, bits as nat, extend(a@[j] as int, 2 * bits as nat, signed), extend(b@[j] as int, bits as nat, signed)),
                forall|j: int| 0 <= j < i ==> #[trigger] results@[j] < pow2(8 * 2 * w as nat),
            decreases count - i,
        {
            let v = widening_wide_binary(op, signed, bits, a[i], b[i]);
            results.push(v);
            i = i + 1;
        }
        store_results(&mut self.regs, vd as usize * VLEN_BYTE, 2 * w, &results, &mask);
        proof {
            lemma_updated(
                *old(self),
                self.regs@,
                mask,
                results@,
                vd as int,
                2 * w as nat,
                enable_mask,
                0 as int,
                |i: int| widening_apply(op, 8 * old(self).sew_bytes(), extend(elem_of(*old(self), vs2 as int, 2 * old(self).sew_bytes(), i), 2 * 8 * old(self).sew_bytes(), signed), extend(elem_of(*old(self), vs1 as int, old(self).sew_bytes(), i), 8 * old(self).sew_bytes(), signed)),
            );
        }
        Ok(())
    }

    /// `vw<op>.wx`: element `i` of the double-width `vd` becomes `op(vs2[i], ext(x1))`, where `vs2` is already double-width.
    pub fn exec_widening_integer_wx(&mut self, op: WideningOp, signed: bool, x1: u64, vs2: u8, vd: u8, enable_mask: bool) -> (r: Result<(), Exception>)
        requires
            old(self).wf(),
        ensures
            final(self).wf(),
            final(self).config == old(self).config,
            r is Ok <==> op != WideningOp::Mul && old(self).sew_bytes() <= 4 && old(self).lmul() <= 4 && valid_group(vs2 as int, 2 * old(self).lmul() as int) && valid_group(vd as int, 2 * old(self).lmul() as int),
            r is Err ==> final(self).regs@ == old(self).regs@,
            r is Ok ==> updated(
                *old(self),
                final(self).regs@,
                vd as int,
                2 * old(self).sew_bytes(),
                group_count(old(self).lmul(), old(self).sew_bytes()),
                enable_mask,
                0 as int,
                |i: int| widening_apply(op, 8 * old(self).sew_bytes(), extend(elem_of(*old(self), vs2 as int, 2 * old(self).sew_bytes(), i), 2 * 8 * old(self).sew_bytes(), signed), extend(scalar_of(x1, 8 * old(self).sew_bytes()), 8 * old(self).sew_bytes(), signed)),
            ),
    {
        if op == WideningOp::Mul {
            return Err(Exception::IllegalInstruction);
        }
        let lmul = self.config.vlmul.get_lmul();
        let w = self.config.vsew.get_sew() as usize;
        if w > 4 || lmul > 4 {
            return Err(Exception::IllegalInstruction);
        }
        if !check_group(vs2, 2 * lmul) || !check_group(vd, 2 * lmul) {
            return Err(Exception::IllegalInstruction);
        }
        let bits = (8 * w) as u32;
        let scalar = truncate_scalar(x1, w);
        proof {
            lemma_group(vs2 as int, 2 * lmul as int, 2 * w as nat);
            lemma_group(vd as int, 2 * lmul as int, 2 * w as nat);
            lemma_widen_counts(lmul as nat, w as nat);
        }
        let count: usize = (lmul as usize * VLEN_BYTE) / w;

        let a = read_elems(&self.regs, vs2 as usize * VLEN_BYTE, 2 * w, count);
        let mask = VecOpMask::new_with_start(&self.regs, self.config.vl, enable_mask, self.config.mask_agnostic, self.config.tail_agnostic, 0);
        assert(8 * 2 * w == 2 * bits && 8 * w == bits);
        assert(pow2(8 * 2 * w as nat) == pow2(2 * bits as nat));
        assert(pow2(8 * w as nat) == pow2(bits as nat));
        let mut results: Vec<u64> = Vec::new();
        let mut i: usize = 0;
        while i < count
            invariant
                i <= count,
                count <= a@.len(),
                forall|j: int| 0 <= j < a@.len() ==> #[trigger] a@[j] < pow2(8 * 2 * w as nat),
                bits == 8 * w,
                bits == 8 || bits == 16 || bits == 32,
                pow2(8 * 2 * w as nat) == pow2(2 * bits as nat),
                pow2(8 * w as nat) == pow2(bits as nat),
                op != WideningOp::Mul,
                scalar < pow2(bits as nat),
                results@.len() == i,
                forall|j: int| 0 <= j < i ==> #[trigger] results@[j] == widening_apply(op, bits as nat, extend(a@[j] as int, 2 * bits as nat, signed), extend(scalar as int, bits as nat, signed)),
                forall|j: int| 0 <= j < i ==> #[trigger] results@[j] < pow2(8 * 2 * w as nat),
            decreases count - i,
        {
            let v = widening_wide_binary(op, signed, bits, a[i], scalar);
            results.push(v);
            i = i + 1;
        }
        store_results(&mut self.regs, vd as usize * VLEN_BYTE, 2 * w, &results, &mask);
        proof {
            lemma_updated(
                *old(self),
                self.regs@,
                mask,
                results@,
                vd as int,
                2 * w as nat,
                enable_mask,
                0 as int,
                |i: int| widening_apply(op, 8 * old(self).sew_bytes(), extend(elem_of(*old(self), vs2 as int, 2 * old(self).sew_bytes(), i), 2 * 8 * old(self).sew_bytes(), signed), extend(scalar_of(x1, 8 * old(self).sew_bytes()), 8 * old(self).sew_bytes(), signed)),
            );
        }
        Ok(())
    }

    /// `vn<op>.wv`: element `i` of `vd` becomes the double-width `vs2[i]` shifted right by the low bits of `vs1[i]`, narrowed. Only as many elements as the source group holds are written.
    pub fn exec_integer_narrowing_wv(&mut self, op: NarrowingShiftOp, vs1: u8, vs2: u8, vd: u8, enable_mask: bool, vstart: usize) -> (r: Result<(), Exception>)
        requires
            old(self).wf(),
        ensures
            final(self).wf(),
            final(self).config == old(self).config,
            r is Ok <==> old(self).sew_bytes() <= 4 && narrowing_src_lmul(old(self).config.vlmul) <= 8 && !groups_overlap(vd as int, old(self).lmul() as int, vs2 as int, narrowing_src_lmul(old(self).config.vlmul) as int) && valid_group(vs1 as int, old(self).lmul() as int) && valid_group(vs2 as int, narrowing_src_lmul(old(self).config.vlmul) as int) && valid_group(vd as int, old(self).lmul() as int),
            r is Err ==> final(self).regs@ == old(self).regs@,
            r is Ok ==> updated(
                *old(self),
                final(self).regs@,
                vd as int,
                old(self).sew_bytes(),
                group_count(narrowing_src_lmul(old(self).config.vlmul), 2 * old(self).sew_bytes()),
                enable_mask,
                vstart as int,
                |i: int| narrowing_shift_spec(op, 8 * old(self).sew_bytes(), elem_of(*old(self), vs2 as int, 2 * old(self).sew_bytes(), i), elem_of(*old(self), vs1 as int, old(self).sew_bytes(), i)),
            ),
    {
        let lmul = self.config.vlmul.get_lmul();
        let w = self.config.vsew.get_sew() as usize;
        if w > 4 {
            return Err(Exception::IllegalInstruction);
        }
        let src_lmul = narrowing_source_lmul(self.config.vlmul);
        if src_lmul > 8 || vector_register_group_overlaps(vd, lmul, vs2, src_lmul) {
            return Err(Exception::IllegalInstruction);
        }
        if !check_group(vs1, lmul) || !check_group(vs2, src_lmul) || !check_group(vd, lmul) {
            return Err(Exception::IllegalInstruction);
        }
        let bits = (8 * w) as u32;
        proof {
            lemma_group(vs1 as int, lmul as int, w as nat);
            lemma_group(vs2 as int, src_lmul as int, 2 * w as nat);
            lemma_group(vd as int, lmul as int, w as nat);
            lemma_narrow_counts(self.config.vlmul, w as nat);
        }
        let count: usize = (src_lmul as usize * VLEN_BYTE) / (2 * w);

        let a = read_elems(&self.regs, vs2 as usize * VLEN_BYTE, 2 * w, count);
        let b = read_elems(&self.regs, vs1 as usize * VLEN_BYTE, w, count);
        let mask = VecOpMask::new_with_start(&self.regs, self.config.vl, enable_mask, self.config.mask_agnostic, self.config.tail_agnostic, vstart);
        assert(8 * 2 * w == 2 * bits && 8 * w == bits);
        assert(pow2(8 * 2 * w as nat) == pow2(2 * bits as nat));
        assert(pow2(8 * w as nat) == pow2(bits as nat));
        let mut results: Vec<u64> = Vec::new();
        let mut i: usize = 0;
        while i < count
            invariant
                i <= count,
                count <= a@.len(),
                forall|j: int| 0 <= j < a@.len() ==> #[trigger] a@[j] < pow2(8 * 2 * w as nat),
                count <= b@.len(),
                forall|j: int| 0 <= j < b@.len() ==> #[trigger] b@[j] < pow2(8 * w as nat),
                bits == 8 * w,
                bits == 8 || bits == 16 || bits == 32,
                pow2(8 * 2 * w as nat) == pow2(2 * bits as nat),
                pow2(8 * w as nat) == pow2(bits as nat),
                results@.len() == i,
                forall|j: int| 0 <= j < i ==> #[trigger] results@[j] == narrowing_shift_spec(op, bits as nat, a@[j] as int, b@[j] as int),
                forall|j: int| 0 <= j < i ==> #[trigger] results@[j] < pow2(8 * w as nat),
            decreases count - i,
        {
            let v = narrowing_shift(op, bits, a[i], b[i]);
            results.push(v);
            i = i + 1;
        }
        store_results(&mut self.regs, vd as usize * VLEN_BYTE, w, &results, &mask);
        proof {
            lemma_updated(
                *old(self),
                self.regs@,
                mask,
                results@,
                vd as int,
                w as nat,
                enable_mask,
                vstart as int,
                |i: int| narrowing_shift_spec(op, 8 * old(self).sew_bytes(), elem_of(*old(self), vs2 as int, 2 * old(self).sew_bytes(), i), elem_of(*old(self), vs1 as int, old(self).sew_bytes(), i)),
            );
        }
        Ok(())
    }

    /// `vn<op>.wx`: element `i` of `vd` becomes the double-width `vs2[i]` shifted right by the low bits of `x1`, narrowed.
    pub fn exec_integer_narrowing_vx(&mut self, op: NarrowingShiftOp, x1: u64, vs2: u8, vd: u8, enable_mask: bool, vstart: usize) -> (r: Result<(), Exception>)
        requires
            old(self).wf(),
        ensures
            final(self).wf(),
            final(self).config == old(self).config,
            r is Ok <==> old(self).sew_bytes() <= 4 && narrowing_src_lmul(old(self).config.vlmul) <= 8 && !groups_overlap(vd as int, old(self).lmul() as int, vs2 as int, narrowing_src_lmul(old(self).config.vlmul) as int) && valid_group(vs2 as int, narrowing_src_lmul(old(self).config.vlmul) as int) && valid_group(vd as int, old(self).lmul() as int),
            r is Err ==> final(self).regs@ == old(self).regs@,
            r is Ok ==> updated(
                *old(self),
                final(self).regs@,
                vd as int,
                old(self).sew_bytes(),
                group_count(narrowing_src_lmul(old(self).config.vlmul), 2 * old(self).sew_bytes()),
                enable_mask,
                vstart as int,
                |i: int| narrowing_shift_spec(op, 8 * old(self).sew_bytes(), elem_of(*old(self), vs2 as int, 2 * old(self).sew_bytes(), i), scalar_of(x1, 8 * old(self).sew_bytes())),
            ),
    {
        let lmul = self.config.vlmul.get_lmul();
        let w = self.config.vsew.get_sew() as usize;
        if w > 4 {
            return Err(Exception::IllegalInstruction);
        }
        let src_lmul = narrowing_source_lmul(self.config.vlmul);
        if src_lmul > 8 || vector_register_group_overlaps(vd, lmul, vs2, src_lmul) {
            return Err(Exception::IllegalInstruction);
        }
        if !check_group(vs2, src_lmul) || !check_group(vd, lmul) {
            return Err(Exception::IllegalInstruction);
        }
        let bits = (8 * w) as u32;
        let scalar = truncate_scalar(x1, w);
        proof {
            lemma_group(vs2 as int, src_lmul as int, 2 * w as nat);
            lemma_group(vd as int, lmul as int, w as nat);
            lemma_narrow_counts(self.config.vlmul, w as nat);
        }
        let count: usize = (src_lmul as usize * VLEN_BYTE) / (2 * w);

        let a = read_elems(&self.regs, vs2 as usize * VLEN_BYTE, 2 * w, count);
        let mask = VecOpMask::new_with_start(&self.regs, self.config.vl, enable_mask, self.config.mask_agnostic, self.config.tail_agnostic, vstart);
        assert(8 * 2 * w == 2 * bits && 8 * w == bits);
        assert(pow2(8 * 2 * w as nat) == pow2(2 * bits as nat));
        assert(pow2(8 * w as nat) == pow2(bits as nat));
        let mut results: Vec<u64> = Vec::new();
        let mut i: usize = 0;
        while i < count
            invariant
                i <= count,
                count <= a@.len(),
                forall|j: int| 0 <= j < a@.len() ==> #[trigger] a@[j] < pow2(8 * 2 * w as nat),
                bits == 8 * w,
                bits == 8 || bits == 16 || bits == 32,
                pow2(8 * 2 * w as nat) == pow2(2 * bits as nat),
                pow2(8 * w as nat) == pow2(bits as nat),
                results@.len() == i,
                forall|j: int| 0 <= j < i ==> #[trigger] results@[j] == narrowing_shift_spec(op, bits as nat, a@[j] as int, scalar as int),
                forall|j: int| 0 <= j < i ==> #[trigger] results@[j] < pow2(8 * w as nat),
            decreases count - i,
        {
            let v = narrowing_shift(op, bits, a[i], scalar);
            results.push(v);
            i = i + 1;
        }
        store_results(&mut self.regs, vd as usize * VLEN_BYTE, w, &results, &mask);
        proof {
            lemma_updated(
                *old(self),
                self.regs@,
                mask,
                results@,
                vd as int,
                w as nat,
                enable_mask,
                vstart as int,
                |i: int| narrowing_shift_spec(op, 8 * old(self).sew_bytes(), elem_of(*old(self), vs2 as int, 2 * old(self).sew_bytes(), i), scalar_of(x1, 8 * old(self).sew_bytes())),
            );
        }
        Ok(())
    }
}

} // verus!
