//! The vector instructions that move elements without arithmetic: gathers,
//! slides, the unary moves and extensions, the scalar splat and the whole
//! register move.

use vstd::prelude::*;
use vstd::arithmetic::power2::pow2;
use crate::bits::{valid_bits, wrap};
use crate::vector::regfile::{VLEN_BYTE, VREGFILE_BYTES, elem, valid_group, valid_width};
use crate::vector::mask::VecOpMask;
use crate::vector::types::{Vsew, sew_bytes_spec};
use crate::vector::unit::{Vector, Exception, check_group, lemma_group, read_elems, store_results, group_count};
use crate::vector::arith::{
    elem_of, scalar_of, truncate_scalar, updated, lemma_updated, groups_overlap, vector_register_group_overlaps,
};
use crate::vector::integer::{extend, extend_to};

verus! {

/// Element `idx` of the `count` elements of `w` bytes of the group at
/// register `vs2`, or zero when `idx` is past them.
pub open spec fn gather_spec(v: Vector, vs2: int, w: nat, count: int, idx: int) -> int {
    if 0 <= idx < count {
        elem_of(v, vs2, w, idx)
    } else {
        0
    }
}

/// The number of registers that the 16-bit index group of
/// `vrgatherei16` spans: `16 / SEW * LMUL`, and at least one.
pub open spec fn ei16_index_lmul(lmul: nat, w: nat) -> nat {
    if lmul * 2 / w == 0 {
        1
    } else {
        lmul * 2 / w
    }
}

/// The number of registers that the 16-bit index group of `vrgatherei16`
/// spans.
pub fn ei16_index_group(lmul: u8, w: u8) -> (r: u8)
    requires
        lmul <= 8,
        w == 1 || w == 2 || w == 4 || w == 8,
    ensures
        r == ei16_index_lmul(lmul as nat, w as nat),
{
    let x = lmul * 2 / w;
    if x == 0 {
        1
    } else {
        x
    }
}

/// Picks element `idx` of `a`, or zero past its end.
fn pick(a: &Vec<u64>, idx: u64) -> (r: u64)
    ensures
        r == if idx < a@.len() { a@[idx as int] } else { 0 },
{
    if idx < a.len() as u64 {
        a[idx as usize]
    } else {
        0
    }
}

/// The unary element moves of `vmv.v.v`, `vzext` and `vsext`.
#[derive(Clone, Copy, Debug, PartialEq, Eq, Structural)]
pub enum UnaryOp {
    /// A copy at one element width.
    Move,
    /// Zero extension from a narrower element width.
    Zext,
    /// Sign extension from a narrower element width.
    Sext,
}

/// The result of a unary move of the `src_w`-byte element `a` into a
/// `dst_w`-byte element.
pub open spec fn unary_spec(op: UnaryOp, src_w: nat, dst_w: nat, a: int) -> int {
    match op {
        UnaryOp::Move => a,
        UnaryOp::Zext => wrap(extend(a, 8 * src_w, false), 8 * dst_w),
        UnaryOp::Sext => wrap(extend(a, 8 * src_w, true), 8 * dst_w),
    }
}

/// The element counts of groups of `lmul` registers at two widths, the
/// narrower first.
proof fn lemma_two_widths(lmul: nat, src_w: nat, dst_w: nat)
    requires
        lmul == 1 || lmul == 2 || lmul == 4 || lmul == 8,
        valid_width(src_w),
        valid_width(dst_w),
        src_w <= dst_w,
    ensures
        group_count(lmul, dst_w) * src_w <= lmul * 16,
        group_count(lmul, dst_w) * dst_w == lmul * 16,
        group_count(lmul, dst_w) <= 128,
{
    crate::vector::arith::lemma_count_small(lmul, dst_w);
}

impl Vector {
    /// `vrgather.vv`: element `i` of `vd` becomes element `vs1[i]` of `vs2`,
    /// or zero when `vs1[i]` is past the group. `vd` may overlap neither
    /// source.
    pub fn exec_integer_gather_vv(&mut self, vs1: u8, vs2: u8, vd: u8, enable_mask: bool, vstart: usize) -> (r: Result<(), Exception>)
        requires
            old(self).wf(),
        ensures
            final(self).wf(),
            final(self).config == old(self).config,
            r is Ok <==> valid_group(vs1 as int, old(self).lmul() as int) && valid_group(vs2 as int, old(self).lmul() as int)
                && valid_group(vd as int, old(self).lmul() as int)
                && !groups_overlap(vd as int, old(self).lmul() as int, vs1 as int, old(self).lmul() as int)
                && !groups_overlap(vd as int, old(self).lmul() as int, vs2 as int, old(self).lmul() as int),
            r is Err ==> final(self).regs@ == old(self).regs@,
            r is Ok ==> updated(
                *old(self),
                final(self).regs@,
                vd as int,
                old(self).sew_bytes(),
                group_count(old(self).lmul(), old(self).sew_bytes()),
                enable_mask,
                vstart as int,
                |i: int|
                    gather_spec(
                        *old(self),
                        vs2 as int,
                        old(self).sew_bytes(),
                        group_count(old(self).lmul(), old(self).sew_bytes()),
                        elem_of(*old(self), vs1 as int, old(self).sew_bytes(), i),
                    ),
            ),
    {
        let lmul = self.config.vlmul.get_lmul();
        let w = self.config.vsew.get_sew() as usize;
        if !check_group(vs1, lmul) || !check_group(vs2, lmul) || !check_group(vd, lmul)
            || vector_register_group_overlaps(vd, lmul, vs1, lmul) || vector_register_group_overlaps(vd, lmul, vs2, lmul) {
            return Err(Exception::IllegalInstruction);
        }
        proof {
            lemma_group(vs1 as int, lmul as int, w as nat);
            lemma_group(vs2 as int, lmul as int, w as nat);
            lemma_group(vd as int, lmul as int, w as nat);
        }
        let count = (lmul as usize * VLEN_BYTE) / w;
        let a = read_elems(&self.regs, vs2 as usize * VLEN_BYTE, w, count);
        let b = read_elems(&self.regs, vs1 as usize * VLEN_BYTE, w, count);
        let mask = VecOpMask::new_with_start(&self.regs, self.config.vl, enable_mask, self.config.mask_agnostic, self.config.tail_agnostic, vstart);
        let mut results: Vec<u64> = Vec::new();
        let mut i: usize = 0;
        while i < count
            invariant
                i <= count,
                count == a@.len(),
                count == b@.len(),
                forall|j: int| 0 <= j < count ==> #[trigger] a@[j] < pow2(8 * w as nat),
                results@.len() == i,
                forall|j: int| 0 <= j < i ==> #[trigger] results@[j] == if b@[j] < count { a@[b@[j] as int] } else { 0 },
                forall|j: int| 0 <= j < i ==> #[trigger] results@[j] < pow2(8 * w as nat),
            decreases count - i,
        {
            proof {
                vstd::arithmetic::power2::lemma_pow2_pos(8 * w as nat);
            }
            let v = pick(&a, b[i]);
            results.push(v);
            i = i + 1;
        }
        store_results(&mut self.regs, vd as usize * VLEN_BYTE, w, &results, &mask);
        proof {
            lemma_updated(
                *old(self),
                self.regs@,
                mask,
                results@,
                vd as int,
                w as nat,
                enable_mask,
                vstart as int,
                |i: int|
                    gather_spec(
                        *old(self),
                        vs2 as int,
                        old(self).sew_bytes(),
                        group_count(old(self).lmul(), old(self).sew_bytes()),
                        elem_of(*old(self), vs1 as int, old(self).sew_bytes(), i),
                    ),
            );
        }
        Ok(())
    }

    /// `vrgather.vx` and `vrgather.vi`: every element of `vd` becomes
    /// element `x1` of `vs2`, or zero when `x1` is past the group. `vd` may
    /// not overlap `vs2`.
    pub fn exec_integer_gather_vx(&mut self, x1: u64, vs2: u8, vd: u8, enable_mask: bool, vstart: usize) -> (r: Result<(), Exception>)
        requires
            old(self).wf(),
        ensures
            final(self).wf(),
            final(self).config == old(self).config,
            r is Ok <==> valid_group(vs2 as int, old(self).lmul() as int) && valid_group(vd as int, old(self).lmul() as int)
                && !groups_overlap(vd as int, old(self).lmul() as int, vs2 as int, old(self).lmul() as int),
            r is Err ==> final(self).regs@ == old(self).regs@,
            r is Ok ==> updated(
                *old(self),
                final(self).regs@,
                vd as int,
                old(self).sew_bytes(),
                group_count(old(self).lmul(), old(self).sew_bytes()),
                enable_mask,
                vstart as int,
                |i: int|
                    gather_spec(
                        *old(self),
                        vs2 as int,
                        old(self).sew_bytes(),
                        group_count(old(self).lmul(), old(self).sew_bytes()),
                        x1 as int,
                    ),
            ),
    {
        let lmul = self.config.vlmul.get_lmul();
        let w = self.config.vsew.get_sew() as usize;
        if !check_group(vs2, lmul) || !check_group(vd, lmul) || vector_register_group_overlaps(vd, lmul, vs2, lmul) {
            return Err(Exception::IllegalInstruction);
        }
        proof {
            lemma_group(vs2 as int, lmul as int, w as nat);
            lemma_group(vd as int, lmul as int, w as nat);
            vstd::arithmetic::power2::lemma_pow2_pos(8 * w as nat);
        }
        let count = (lmul as usize * VLEN_BYTE) / w;
        let a = read_elems(&self.regs, vs2 as usize * VLEN_BYTE, w, count);
        let value = pick(&a, x1);
        let mask = VecOpMask::new_with_start(&self.regs, self.config.vl, enable_mask, self.config.mask_agnostic, self.config.tail_agnostic, vstart);
        let mut results: Vec<u64> = Vec::new();
        let mut i: usize = 0;
        while i < count
            invariant
                i <= count,
                value < pow2(8 * w as nat),
                results@.len() == i,
                forall|j: int| 0 <= j < i ==> #[trigger] results@[j] == value,
                forall|j: int| 0 <= j < i ==> #[trigger] results@[j] < pow2(8 * w as nat),
            decreases count - i,
        {
            results.push(value);
            i = i + 1;
        }
        store_results(&mut self.regs, vd as usize * VLEN_BYTE, w, &results, &mask);
        proof {
            lemma_updated(
                *old(self),
                self.regs@,
                mask,
                results@,
                vd as int,
                w as nat,
                enable_mask,
                vstart as int,
                |i: int|
                    gather_spec(
                        *old(self),
                        vs2 as int,
                        old(self).sew_bytes(),
                        group_count(old(self).lmul(), old(self).sew_bytes()),
                        x1 as int,
                    ),
            );
        }
        Ok(())
    }

    /// `vrgatherei16.vv`: as `vrgather.vv`, with 16-bit indices in `vs1`,
    /// whose group spans `16 / SEW * LMUL` registers. `vd` may overlap
    /// neither source group.
    pub fn exec_integer_gather_ei16_vv(&mut self, vs1: u8, vs2: u8, vd: u8, enable_mask: bool, vstart: usize) -> (r: Result<(), Exception>)
        requires
            old(self).wf(),
        ensures
            final(self).wf(),
            final(self).config == old(self).config,
            r is Ok <==> ei16_index_lmul(old(self).lmul(), old(self).sew_bytes()) <= 8
                && valid_group(vs1 as int, ei16_index_lmul(old(self).lmul(), old(self).sew_bytes()) as int)
                && valid_group(vs2 as int, old(self).lmul() as int) && valid_group(vd as int, old(self).lmul() as int)
                && !groups_overlap(
                vd as int,
                old(self).lmul() as int,
                vs1 as int,
                ei16_index_lmul(old(self).lmul(), old(self).sew_bytes()) as int,
            ) && !groups_overlap(vd as int, old(self).lmul() as int, vs2 as int, old(self).lmul() as int),
            r is Err ==> final(self).regs@ == old(self).regs@,
            r is Ok ==> updated(
                *old(self),
                final(self).regs@,
                vd as int,
                old(self).sew_bytes(),
                group_count(old(self).lmul(), old(self).sew_bytes()),
                enable_mask,
                vstart as int,
                |i: int|
                    gather_spec(
                        *old(self),
                        vs2 as int,
                        old(self).sew_bytes(),
                        group_count(old(self).lmul(), old(self).sew_bytes()),
                        elem_of(*old(self), vs1 as int, 2, i),
                    ),
            ),
    {
        let lmul = self.config.vlmul.get_lmul();
        let w = self.config.vsew.get_sew() as usize;
        let index_lmul = ei16_index_group(lmul, w as u8);
        if index_lmul > 8 || !check_group(vs1, index_lmul) || !check_group(vs2, lmul) || !check_group(vd, lmul)
            || vector_register_group_overlaps(vd, lmul, vs1, index_lmul) || vector_register_group_overlaps(vd, lmul, vs2, lmul) {
            return Err(Exception::IllegalInstruction);
        }
        proof {
            lemma_group(vs2 as int, lmul as int, w as nat);
            lemma_group(vd as int, lmul as int, w as nat);
            lemma_group(vs1 as int, index_lmul as int, 2);
            crate::vector::arith::lemma_count_small(lmul as nat, w as nat);
            crate::vector::arith::lemma_count_small(index_lmul as nat, 2);
        }
        let count = (lmul as usize * VLEN_BYTE) / w;
        let a = read_elems(&self.regs, vs2 as usize * VLEN_BYTE, w, count);
        let b = read_elems(&self.regs, vs1 as usize * VLEN_BYTE, 2, count);
        let mask = VecOpMask::new_with_start(&self.regs, self.config.vl, enable_mask, self.config.mask_agnostic, self.config.tail_agnostic, vstart);
        let mut results: Vec<u64> = Vec::new();
        let mut i: usize = 0;
        while i < count
            invariant
                i <= count,
                count == a@.len(),
                count == b@.len(),
                forall|j: int| 0 <= j < count ==> #[trigger] a@[j] < pow2(8 * w as nat),
                results@.len() == i,
                forall|j: int| 0 <= j < i ==> #[trigger] results@[j] == if b@[j] < count { a@[b@[j] as int] } else { 0 },
                forall|j: int| 0 <= j < i ==> #[trigger] results@[j] < pow2(8 * w as nat),
            decreases count - i,
        {
            proof {
                vstd::arithmetic::power2::lemma_pow2_pos(8 * w as nat);
            }
            let v = pick(&a, b[i]);
            results.push(v);
            i = i + 1;
        }
        store_results(&mut self.regs, vd as usize * VLEN_BYTE, w, &results, &mask);
        proof {
            lemma_updated(
                *old(self),
                self.regs@,
                mask,
                results@,
                vd as int,
                w as nat,
                enable_mask,
                vstart as int,
                |i: int|
                    gather_spec(
                        *old(self),
                        vs2 as int,
                        old(self).sew_bytes(),
                        group_count(old(self).lmul(), old(self).sew_bytes()),
                        elem_of(*old(self), vs1 as int, 2, i),
                    ),
            );
        }
        Ok(())
    }

    /// `vslideup.vx`: element `i` of `vd` becomes element `i - x1` of `vs2`
    /// for `i >= x1`; the elements below `x1` are left alone.
    pub fn exec_slide_up(&mut self, x1: u64, vs2: u8, vd: u8, enable_mask: bool) -> (r: Result<(), Exception>)
        requires
            old(self).wf(),
        ensures
            final(self).wf(),
            final(self).config == old(self).config,
            r is Ok <==> valid_group(vs2 as int, old(self).lmul() as int) && valid_group(vd as int, old(self).lmul() as int),
            r is Err ==> final(self).regs@ == old(self).regs@,
            r is Ok ==> updated(
                *old(self),
                final(self).regs@,
                vd as int,
                old(self).sew_bytes(),
                group_count(old(self).lmul(), old(self).sew_bytes()),
                enable_mask,
                if x1 < group_count(old(self).lmul(), old(self).sew_bytes()) {
                    x1 as int
                } else {
                    group_count(old(self).lmul(), old(self).sew_bytes())
                },
                |i: int| if i >= x1 { elem_of(*old(self), vs2 as int, old(self).sew_bytes(), i - x1) } else { 0 },
            ),
    {
        let lmul = self.config.vlmul.get_lmul();
        let w = self.config.vsew.get_sew() as usize;
        if !check_group(vs2, lmul) || !check_group(vd, lmul) {
            return Err(Exception::IllegalInstruction);
        }
        proof {
            lemma_group(vs2 as int, lmul as int, w as nat);
            lemma_group(vd as int, lmul as int, w as nat);
        }
        let count = (lmul as usize * VLEN_BYTE) / w;
        let offset: usize = if x1 < count as u64 { x1 as usize } else { count };
        let a = read_elems(&self.regs, vs2 as usize * VLEN_BYTE, w, count);
        let mask = VecOpMask::new_with_start(&self.regs, self.config.vl, enable_mask, self.config.mask_agnostic, self.config.tail_agnostic, offset);
        let mut results: Vec<u64> = Vec::new();
        let mut i: usize = 0;
        while i < count
            invariant
                i <= count,
                count == a@.len(),
                offset <= count,
                offset < count ==> offset == x1,
                forall|j: int| 0 <= j < count ==> #[trigger] a@[j] < pow2(8 * w as nat),
                results@.len() == i,
                forall|j: int| 0 <= j < i ==> #[trigger] results@[j] == if j >= offset { a@[j - offset] as int } else { 0 },
                forall|j: int| 0 <= j < i ==> #[trigger] results@[j] < pow2(8 * w as nat),
            decreases count - i,
        {
            proof {
                vstd::arithmetic::power2::lemma_pow2_pos(8 * w as nat);
            }
            let v = if i >= offset { a[i - offset] } else { 0 };
            results.push(v);
            i = i + 1;
        }
        store_results(&mut self.regs, vd as usize * VLEN_BYTE, w, &results, &mask);
        proof {
            lemma_updated(
                *old(self),
                self.regs@,
                mask,
                results@,
                vd as int,
                w as nat,
                enable_mask,
                offset as int,
                |i: int| if i >= x1 { elem_of(*old(self), vs2 as int, old(self).sew_bytes(), i - x1) } else { 0 },
            );
        }
        Ok(())
    }
}


impl Vector {
    /// `vslidedown.vx`: element `i` of `vd` becomes element `i + x1` of
    /// `vs2`, or zero past the group.
    pub fn exec_slide_down(&mut self, x1: u64, vs2: u8, vd: u8, enable_mask: bool) -> (r: Result<(), Exception>)
        requires
            old(self).wf(),
        ensures
            final(self).wf(),
            final(self).config == old(self).config,
            r is Ok <==> valid_group(vs2 as int, old(self).lmul() as int) && valid_group(vd as int, old(self).lmul() as int),
            r is Err ==> final(self).regs@ == old(self).regs@,
            r is Ok ==> updated(
                *old(self),
                final(self).regs@,
                vd as int,
                old(self).sew_bytes(),
                group_count(old(self).lmul(), old(self).sew_bytes()),
                enable_mask,
                0,
                |i: int|
                    gather_spec(
                        *old(self),
                        vs2 as int,
                        old(self).sew_bytes(),
                        group_count(old(self).lmul(), old(self).sew_bytes()),
                        i + x1,
                    ),
            ),
    {
        let lmul = self.config.vlmul.get_lmul();
        let w = self.config.vsew.get_sew() as usize;
        if !check_group(vs2, lmul) || !check_group(vd, lmul) {
            return Err(Exception::IllegalInstruction);
        }
        proof {
            lemma_group(vs2 as int, lmul as int, w as nat);
            lemma_group(vd as int, lmul as int, w as nat);
            vstd::arithmetic::power2::lemma_pow2_pos(8 * w as nat);
        }
        let count = (lmul as usize * VLEN_BYTE) / w;
        let a = read_elems(&self.regs, vs2 as usize * VLEN_BYTE, w, count);
        let mask = VecOpMask::new(&self.regs, self.config.vl, enable_mask, self.config.mask_agnostic, self.config.tail_agnostic);
        let mut results: Vec<u64> = Vec::new();
        let mut i: usize = 0;
        while i < count
            invariant
                i <= count,
                count == a@.len(),
                count <= 128,
                pow2(8 * w as nat) > 0,
                forall|j: int| 0 <= j < count ==> #[trigger] a@[j] < pow2(8 * w as nat),
                results@.len() == i,
                forall|j: int| 0 <= j < i ==> #[trigger] results@[j] == if j + x1 < count { a@[j + x1] as int } else { 0 },
                forall|j: int| 0 <= j < i ==> #[trigger] results@[j] < pow2(8 * w as nat),
            decreases count - i,
        {
            let v = if x1 < count as u64 && (i as u64) < (count as u64) - x1 {
                a[i + x1 as usize]
            } else {
                0
            };
            results.push(v);
            i = i + 1;
        }
        store_results(&mut self.regs, vd as usize * VLEN_BYTE, w, &results, &mask);
        proof {
            lemma_updated(
                *old(self),
                self.regs@,
                mask,
                results@,
                vd as int,
                w as nat,
                enable_mask,
                0,
                |i: int|
                    gather_spec(
                        *old(self),
                        vs2 as int,
                        old(self).sew_bytes(),
                        group_count(old(self).lmul(), old(self).sew_bytes()),
                        i + x1,
                    ),
            );
        }
        Ok(())
    }

    /// `vmv.v.v`, `vzext.vf*`, `vsext.vf*`: element `i` of `vd`, of width
    /// `dst_eew`, becomes element `i` of `vs2`, of width `src_eew`, copied
    /// or extended.
    pub fn exec_integer_v(
        &mut self,
        op: UnaryOp,
        vs2: u8,
        vd: u8,
        src_eew: Vsew,
        dst_eew: Vsew,
        enable_mask: bool,
        vstart: usize,
    ) -> (r: Result<(), Exception>)
        requires
            old(self).wf(),
            op == UnaryOp::Move ==> src_eew == dst_eew,
            op != UnaryOp::Move ==> sew_bytes_spec(src_eew) < sew_bytes_spec(dst_eew),
        ensures
            final(self).wf(),
            final(self).config == old(self).config,
            r is Ok <==> valid_group(vs2 as int, old(self).lmul() as int) && valid_group(vd as int, old(self).lmul() as int),
            r is Err ==> final(self).regs@ == old(self).regs@,
            r is Ok ==> updated(
                *old(self),
                final(self).regs@,
                vd as int,
                sew_bytes_spec(dst_eew),
                group_count(old(self).lmul(), sew_bytes_spec(dst_eew)),
                enable_mask,
                vstart as int,
                |i: int|
                    unary_spec(
                        op,
                        sew_bytes_spec(src_eew),
                        sew_bytes_spec(dst_eew),
                        elem_of(*old(self), vs2 as int, sew_bytes_spec(src_eew), i),
                    ),
            ),
    {
        let lmul = self.config.vlmul.get_lmul();
        let sw = src_eew.get_sew() as usize;
        let dw = dst_eew.get_sew() as usize;
        if !check_group(vs2, lmul) || !check_group(vd, lmul) {
            return Err(Exception::IllegalInstruction);
        }
        proof {
            lemma_group(vs2 as int, lmul as int, sw as nat);
            lemma_group(vd as int, lmul as int, dw as nat);
            lemma_two_widths(lmul as nat, sw as nat, dw as nat);
        }
        let count = (lmul as usize * VLEN_BYTE) / dw;
        let a = read_elems(&self.regs, vs2 as usize * VLEN_BYTE, sw, count);
        let mask = VecOpMask::new_with_start(&self.regs, self.config.vl, enable_mask, self.config.mask_agnostic, self.config.tail_agnostic, vstart);
        let sbits = (8 * sw) as u32;
        let dbits = (8 * dw) as u32;
        let mut results: Vec<u64> = Vec::new();
        let mut i: usize = 0;
        while i < count
            invariant
                i <= count,
                count == a@.len(),
                sbits == 8 * sw,
                dbits == 8 * dw,
                valid_bits(sbits as nat),
                valid_bits(dbits as nat),
                op == UnaryOp::Move ==> sw == dw,
                op != UnaryOp::Move ==> sw < dw,
                forall|j: int| 0 <= j < count ==> #[trigger] a@[j] < pow2(8 * sw as nat),
                results@.len() == i,
                forall|j: int| 0 <= j < i ==> #[trigger] results@[j] == unary_spec(op, sw as nat, dw as nat, a@[j] as int),
                forall|j: int| 0 <= j < i ==> #[trigger] results@[j] < pow2(8 * dw as nat),
            decreases count - i,
        {
            let v = match op {
                UnaryOp::Move => a[i],
                UnaryOp::Zext => extend_to(a[i], sbits, dbits, false),
                UnaryOp::Sext => extend_to(a[i], sbits, dbits, true),
            };
            results.push(v);
            i = i + 1;
        }
        store_results(&mut self.regs, vd as usize * VLEN_BYTE, dw, &results, &mask);
        proof {
            lemma_updated(
                *old(self),
                self.regs@,
                mask,
                results@,
                vd as int,
                dw as nat,
                enable_mask,
                vstart as int,
                |i: int|
                    unary_spec(
                        op,
                        sew_bytes_spec(src_eew),
                        sew_bytes_spec(dst_eew),
                        elem_of(*old(self), vs2 as int, sew_bytes_spec(src_eew), i),
                    ),
            );
        }
        Ok(())
    }

    /// `vzext.vf{2,4,8}` and `vsext.vf{2,4,8}`: extends elements of width
    /// `SEW / factor` to `SEW`; fails when that width does not exist.
    pub fn exec_integer_v_ext(&mut self, signed: bool, factor: u8, vs2: u8, vd: u8, enable_mask: bool, vstart: usize) -> (r: Result<(), Exception>)
        requires
            old(self).wf(),
            factor == 2 || factor == 4 || factor == 8,
        ensures
            final(self).wf(),
            final(self).config == old(self).config,
            r is Ok <==> old(self).sew_bytes() >= factor && valid_group(vs2 as int, old(self).lmul() as int)
                && valid_group(vd as int, old(self).lmul() as int),
            r is Err ==> final(self).regs@ == old(self).regs@,
            r is Ok ==> updated(
                *old(self),
                final(self).regs@,
                vd as int,
                old(self).sew_bytes(),
                group_count(old(self).lmul(), old(self).sew_bytes()),
                enable_mask,
                vstart as int,
                |i: int|
                    wrap(
                        extend(
                            elem_of(*old(self), vs2 as int, old(self).sew_bytes() / factor as nat, i),
                            8 * (old(self).sew_bytes() / factor as nat),
                            signed,
                        ),
                        8 * old(self).sew_bytes(),
                    ),
            ),
    {
        let dst_eew = self.config.vsew;
        let dw = dst_eew.get_sew();
        if dw < factor {
            return Err(Exception::IllegalInstruction);
        }
        let src = Vsew::from_byte_width(dw / factor);
        match src {
            Some(src_eew) => {
                let op = if signed { UnaryOp::Sext } else { UnaryOp::Zext };
                self.exec_integer_v(op, vs2, vd, src_eew, dst_eew, enable_mask, vstart)
            },
            None => {
                proof {
                    assert(false);
                }
                Err(Exception::IllegalInstruction)
            },
        }
    }

    /// `vmv.v.x` at element width `eew`: every element of `vd` becomes
    /// `value` truncated to that width. The mask is not used.
    pub fn exec_integer_scalar_move(&mut self, value: u64, eew: Vsew, vd: u8, vstart: usize) -> (r: Result<(), Exception>)
        requires
            old(self).wf(),
        ensures
            final(self).wf(),
            final(self).config == old(self).config,
            r is Ok <==> valid_group(vd as int, old(self).lmul() as int),
            r is Err ==> final(self).regs@ == old(self).regs@,
            r is Ok ==> updated(
                *old(self),
                final(self).regs@,
                vd as int,
                sew_bytes_spec(eew),
                group_count(old(self).lmul(), sew_bytes_spec(eew)),
                false,
                vstart as int,
                |i: int| scalar_of(value, 8 * sew_bytes_spec(eew)),
            ),
    {
        let lmul = self.config.vlmul.get_lmul();
        let w = eew.get_sew() as usize;
        if !check_group(vd, lmul) {
            return Err(Exception::IllegalInstruction);
        }
        proof {
            lemma_group(vd as int, lmul as int, w as nat);
        }
        let count = (lmul as usize * VLEN_BYTE) / w;
        let scalar = truncate_scalar(value, w);
        let mask = VecOpMask::new_with_start(&self.regs, self.config.vl, false, self.config.mask_agnostic, self.config.tail_agnostic, vstart);
        let mut results: Vec<u64> = Vec::new();
        let mut i: usize = 0;
        while i < count
            invariant
                i <= count,
                scalar < pow2(8 * w as nat),
                scalar == scalar_of(value, 8 * w as nat),
                results@.len() == i,
                forall|j: int| 0 <= j < i ==> #[trigger] results@[j] == scalar,
                forall|j: int| 0 <= j < i ==> #[trigger] results@[j] < pow2(8 * w as nat),
            decreases count - i,
        {
            results.push(scalar);
            i = i + 1;
        }
        store_results(&mut self.regs, vd as usize * VLEN_BYTE, w, &results, &mask);
        proof {
            lemma_updated(
                *old(self),
                self.regs@,
                mask,
                results@,
                vd as int,
                w as nat,
                false,
                vstart as int,
                |i: int| scalar_of(value, 8 * sew_bytes_spec(eew)),
            );
        }
        Ok(())
    }

    /// `vmv<nr>r.v`: copies the group of `lmul` registers at `vs2` onto the
    /// group at `vd`, whatever the configuration.
    pub fn exec_whole_register_move(&mut self, vs2: u8, vd: u8, lmul: u8) -> (r: Result<(), Exception>)
        requires
            old(self).wf(),
        ensures
            final(self).wf(),
            final(self).config == old(self).config,
            r is Ok <==> valid_group(vs2 as int, lmul as int) && valid_group(vd as int, lmul as int),
            r is Err ==> final(self).regs@ == old(self).regs@,
            r is Ok ==> final(self).regs@ == old(self).regs@.subrange(0, vd * 16) + old(self).regs@.subrange(
                vs2 * 16,
                vs2 * 16 + lmul * 16,
            ) + old(self).regs@.subrange(vd * 16 + lmul * 16, VREGFILE_BYTES as int),
    {
        if !check_group(vs2, lmul) || !check_group(vd, lmul) {
            return Err(Exception::IllegalInstruction);
        }
        let src = self.regs.read_group(lmul, vs2);
        match src {
            Some(bytes) => {
                let ok = self.regs.write_group(lmul, vd, &bytes);
                proof {
                    assert(ok);
                }
                Ok(())
            },
            None => {
                proof {
                    assert(false);
                }
                Err(Exception::IllegalInstruction)
            },
        }
    }
}

} // verus!
