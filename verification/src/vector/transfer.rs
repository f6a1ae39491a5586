//! What a vector load leaves in each element, what a unit-stride store
//! leaves in memory, and that a unit-stride store read back by a load of the
//! same shape gives back the stored elements.

use vstd::prelude::*;
use vstd::arithmetic::div_mod::{lemma_fundamental_div_mod, lemma_mod_pos_bound, lemma_multiply_divide_lt, lemma_div_pos_is_pos};
use vstd::arithmetic::mul::{lemma_mul_inequality, lemma_mul_is_distributive_add_other_way, lemma_mul_nonnegative};
use crate::bytes::{le, lemma_le_bound, lemma_le_frame};
use crate::ram::{BASE_ADDR, RAM_SIZE, law_store_then_load, store_le};
use crate::vector::regfile::{VREGFILE_BYTES, valid_width};
use crate::vector::mask::MaskDecision;
use crate::vector::unit::{Exception, group_count, lemma_group};
use crate::vector::memory::{AddrMode, elem_addr, mem_fault, valid_seg_group, seg_offset, seg_count, lemma_seg_offset, load_step, load_run, store_run};

verus! {

/// Distinct elements of a segmented group occupy disjoint bytes.
pub proof fn lemma_seg_disjoint(vd: int, lmul: int, w: int, seg: int, j1: int, j2: int)
    requires
        valid_seg_group(vd, lmul, seg),
        w == 1 || w == 2 || w == 4 || w == 8,
        0 <= j1 < seg_count(lmul, w, seg),
        0 <= j2 < seg_count(lmul, w, seg),
        j1 != j2,
    ensures
        seg_offset(vd, lmul, w, seg, j1) + w <= seg_offset(vd, lmul, w, seg, j2) || seg_offset(vd, lmul, w, seg, j2)
            + w <= seg_offset(vd, lmul, w, seg, j1),
{
    let c = group_count(lmul as nat, w as nat);
    let l = lmul * 16;
    lemma_group(0, lmul, w as nat);
    lemma_fundamental_div_mod(j1, seg);
    lemma_fundamental_div_mod(j2, seg);
    lemma_mod_pos_bound(j1, seg);
    lemma_mod_pos_bound(j2, seg);
    lemma_div_pos_is_pos(j1, seg);
    lemma_div_pos_is_pos(j2, seg);
    lemma_multiply_divide_lt(j1, seg, c);
    lemma_multiply_divide_lt(j2, seg, c);
    let f1 = j1 % seg;
    let f2 = j2 % seg;
    let q1 = j1 / seg;
    let q2 = j2 / seg;
    lemma_mul_inequality(q1 + 1, c, w);
    lemma_mul_inequality(q2 + 1, c, w);
    lemma_mul_is_distributive_add_other_way(w, q1, 1);
    lemma_mul_is_distributive_add_other_way(w, q2, 1);
    lemma_mul_nonnegative(q1, w);
    lemma_mul_nonnegative(q2, w);
    assert(c * w == w * c) by (nonlinear_arith);
    if f1 == f2 {
        assert(q1 != q2);
        if q1 < q2 {
            lemma_mul_inequality(q1 + 1, q2, w);
        } else {
            lemma_mul_inequality(q2 + 1, q1, w);
        }
    } else if f1 < f2 {
        lemma_mul_inequality(f1 + 1, f2, l);
        lemma_mul_is_distributive_add_other_way(l, f1, 1);
    } else {
        lemma_mul_inequality(f2 + 1, f1, l);
        lemma_mul_is_distributive_add_other_way(l, f2, 1);
    }
}

/// Whether byte `p` lies outside every element `k .. end` of the `w`-byte
/// segmented group at `vd`.
pub open spec fn outside_elems(vd: int, lmul: int, w: int, seg: int, k: int, end: int, p: int) -> bool {
    forall|j: int| k <= j < end ==> !(#[trigger] seg_offset(vd, lmul, w, seg, j) <= p < seg_offset(vd, lmul, w, seg, j) + w)
}

/// A load that raises no fault leaves each element `k .. end` as its
/// decision says: an active element holds the bytes read at its address, an
/// agnostic one zero, an undisturbed one what it held; bytes outside those
/// elements keep their values.
pub proof fn law_load_elements(
    mem: Seq<u8>,
    mode: AddrMode,
    dec: spec_fn(int) -> MaskDecision,
    vd: int,
    lmul: int,
    w: nat,
    seg: int,
    regs: Seq<u8>,
    k: int,
    end: int,
)
    requires
        valid_seg_group(vd, lmul, seg),
        valid_width(w),
        regs.len() == VREGFILE_BYTES,
        0 <= k,
        end <= seg_count(lmul, w as int, seg),
        load_run(mem, mode, dec, vd, lmul, w, seg, regs, k, end).1 is None,
    ensures
        ({
            let r = load_run(mem, mode, dec, vd, lmul, w, seg, regs, k, end).0;
            &&& r.len() == regs.len()
            &&& forall|j: int|
                k <= j < end ==> match dec(j) {
                    MaskDecision::Active => elem_addr(mem, mode, j) matches Ok(a) && le(
                        r,
                        #[trigger] seg_offset(vd, lmul, w as int, seg, j),
                        w,
                    ) == le(mem, a - BASE_ADDR, w),
                    MaskDecision::Agnostic => le(r, seg_offset(vd, lmul, w as int, seg, j), w) == 0,
                    MaskDecision::Undisturbed => le(r, seg_offset(vd, lmul, w as int, seg, j), w) == le(
                        regs,
                        seg_offset(vd, lmul, w as int, seg, j),
                        w,
                    ),
                }
            &&& forall|p: int|
                0 <= p < regs.len() && outside_elems(vd, lmul, w as int, seg, k, end, p) ==> #[trigger] r[p] == regs[p]
        }),
    decreases end - k,
{
    if k < end {
        let wi = w as int;
        let off = seg_offset(vd, lmul, wi, seg, k);
        lemma_seg_offset(vd, lmul, wi, seg, k);
        let v: int = if dec(k) == MaskDecision::Active {
            match elem_addr(mem, mode, k) {
                Ok(a) => le(mem, a - BASE_ADDR, w) as int,
                Err(_) => 0,
            }
        } else {
            0
        };
        let next = if dec(k) == MaskDecision::Undisturbed {
            regs
        } else {
            crate::ram::store_le(regs, off, w, v)
        };
        if dec(k) == MaskDecision::Active {
            assert(elem_addr(mem, mode, k) is Ok);
            let a = elem_addr(mem, mode, k)->Ok_0;
            lemma_le_bound(mem, a - BASE_ADDR, w);
        } else {
            vstd::arithmetic::power2::lemma_pow2_pos(8 * w);
        }
        assert(load_run(mem, mode, dec, vd, lmul, w, seg, regs, k, end) == load_run(
            mem,
            mode,
            dec,
            vd,
            lmul,
            w,
            seg,
            next,
            k + 1,
            end,
        ));
        if dec(k) != MaskDecision::Undisturbed {
            law_store_then_load(regs, off, w, v);
        }
        law_load_elements(mem, mode, dec, vd, lmul, w, seg, next, k + 1, end);
        let r = load_run(mem, mode, dec, vd, lmul, w, seg, next, k + 1, end).0;
        assert forall|p: int| off <= p < off + wi implies #[trigger] outside_elems(vd, lmul, wi, seg, k + 1, end, p) by {
            assert forall|j: int| k + 1 <= j < end implies !(#[trigger] seg_offset(vd, lmul, wi, seg, j) <= p
                < seg_offset(vd, lmul, wi, seg, j) + wi) by {
                lemma_seg_disjoint(vd, lmul, wi, seg, k, j);
            }
        }
        assert(le(r, off, w) == le(next, off, w)) by {
            lemma_le_frame(r, next, off, w);
        }
        assert forall|j: int| k + 1 <= j < end implies le(next, #[trigger] seg_offset(vd, lmul, wi, seg, j), w) == le(
            regs,
            seg_offset(vd, lmul, wi, seg, j),
            w,
        ) by {
            lemma_seg_disjoint(vd, lmul, wi, seg, k, j);
            lemma_seg_offset(vd, lmul, wi, seg, j);
            lemma_le_frame(next, regs, seg_offset(vd, lmul, wi, seg, j), w);
        }
        assert forall|p: int| 0 <= p < regs.len() && outside_elems(vd, lmul, wi, seg, k, end, p) implies #[trigger] r[p]
            == regs[p] by {
            assert(!(seg_offset(vd, lmul, wi, seg, k) <= p < seg_offset(vd, lmul, wi, seg, k) + wi));
            assert(outside_elems(vd, lmul, wi, seg, k + 1, end, p));
        }
    }
}

/// Whether byte `p` of RAM lies outside every active element `k .. end` of
/// a unit-stride access of `w`-byte elements from physical address `base`.
pub open spec fn outside_active(base: u64, w: int, dec: spec_fn(int) -> MaskDecision, k: int, end: int, p: int) -> bool {
    forall|j: int|
        k <= j < end && #[trigger] dec(j) == MaskDecision::Active ==> !(base - BASE_ADDR + j * w <= p < base
            - BASE_ADDR + j * w + w)
}

/// The address of element `k` of a unit-stride access, when the access of
/// that element raises no fault, is `base + k * w` without wrapping.
proof fn lemma_unit_addr(mem: Seq<u8>, base: u64, w: nat, k: int, store: bool)
    requires
        valid_width(w),
        0 <= k < 1024,
        mem_fault(elem_addr(mem, AddrMode::Stride { base, stride: w as u64 }, k)->Ok_0, w, store) is None,
    ensures
        base + k * w <= u64::MAX,
        elem_addr(mem, AddrMode::Stride { base, stride: w as u64 }, k) == Ok::<u64, Exception>((base + k * w) as u64),
{
    assert(k * w < 8192) by (nonlinear_arith)
        requires
            0 <= k < 1024,
            w <= 8,
    ;
    assert(0 <= k * w) by (nonlinear_arith)
        requires
            0 <= k,
    ;
    vstd::arithmetic::div_mod::lemma_small_mod((k * w) as nat, 0x1_0000_0000_0000_0000nat);
}

/// A unit-stride store that raises no fault writes each active element
/// `k .. end` of the group at `vs` at its address `base + j * w`, which
/// lies in RAM, and changes no byte outside the active elements.
pub proof fn law_unit_store_elements(
    regs: Seq<u8>,
    base: u64,
    dec: spec_fn(int) -> MaskDecision,
    vs: int,
    lmul: int,
    w: nat,
    seg: int,
    mem: Seq<u8>,
    k: int,
    end: int,
)
    requires
        valid_seg_group(vs, lmul, seg),
        valid_width(w),
        mem.len() == RAM_SIZE,
        0 <= k,
        end <= seg_count(lmul, w as int, seg),
        store_run(regs, AddrMode::Stride { base, stride: w as u64 }, dec, vs, lmul, w, seg, mem, k, end).1 is None,
    ensures
        ({
            let mode = AddrMode::Stride { base, stride: w as u64 };
            let m = store_run(regs, mode, dec, vs, lmul, w, seg, mem, k, end).0;
            &&& m.len() == mem.len()
            &&& forall|j: int|
                k <= j < end && #[trigger] dec(j) == MaskDecision::Active ==> {
                    &&& base + j * w <= u64::MAX
                    &&& elem_addr(mem, mode, j) == Ok::<u64, Exception>((base + j * w) as u64)
                    &&& mem_fault((base + j * w) as u64, w, true) is None
                    &&& le(m, base + j * w - BASE_ADDR, w) == le(regs, seg_offset(vs, lmul, w as int, seg, j), w)
                }
            &&& forall|p: int|
                0 <= p < mem.len() && outside_active(base, w as int, dec, k, end, p) ==> #[trigger] m[p] == mem[p]
        }),
    decreases end - k,
{
    let mode = AddrMode::Stride { base, stride: w as u64 };
    let wi = w as int;
    if k < end {
        lemma_seg_offset(vs, lmul, wi, seg, k);
        if dec(k) != MaskDecision::Active {
            law_unit_store_elements(regs, base, dec, vs, lmul, w, seg, mem, k + 1, end);
            let m = store_run(regs, mode, dec, vs, lmul, w, seg, mem, k, end).0;
            assert forall|p: int| 0 <= p < mem.len() && outside_active(base, wi, dec, k, end, p) implies #[trigger] m[p]
                == mem[p] by {
                assert(outside_active(base, wi, dec, k + 1, end, p));
            }
        } else {
            lemma_unit_addr(mem, base, w, k, true);
            let a = (base + k * w) as u64;
            let off = seg_offset(vs, lmul, wi, seg, k);
            let v = le(regs, off, w) as int;
            lemma_le_bound(regs, off, w);
            let next = store_le(mem, a - BASE_ADDR, w, v);
            assert(store_run(regs, mode, dec, vs, lmul, w, seg, mem, k, end) == store_run(
                regs,
                mode,
                dec,
                vs,
                lmul,
                w,
                seg,
                next,
                k + 1,
                end,
            ));
            law_store_then_load(mem, a - BASE_ADDR, w, v);
            law_unit_store_elements(regs, base, dec, vs, lmul, w, seg, next, k + 1, end);
            let m = store_run(regs, mode, dec, vs, lmul, w, seg, next, k + 1, end).0;
            assert forall|p: int| a - BASE_ADDR <= p < a - BASE_ADDR + wi implies #[trigger] outside_active(
                base,
                wi,
                dec,
                k + 1,
                end,
                p,
            ) by {
                assert forall|j: int| k + 1 <= j < end && #[trigger] dec(j) == MaskDecision::Active implies !(base
                    - BASE_ADDR + j * wi <= p < base - BASE_ADDR + j * wi + wi) by {
                    lemma_mul_inequality(k + 1, j, wi);
                    lemma_mul_is_distributive_add_other_way(wi, k, 1);
                }
            }
            assert(le(m, a - BASE_ADDR, w) == le(next, a - BASE_ADDR, w)) by {
                lemma_le_frame(m, next, a - BASE_ADDR, w);
            }
            assert forall|p: int| 0 <= p < mem.len() && outside_active(base, wi, dec, k, end, p) implies #[trigger] m[p]
                == mem[p] by {
                assert(outside_active(base, wi, dec, k + 1, end, p));
            }
        }
    }
}

/// A load whose active elements `k .. end` all have an address that can be
/// read without a fault raises no fault.
proof fn lemma_load_no_fault(
    mem: Seq<u8>,
    mode: AddrMode,
    dec: spec_fn(int) -> MaskDecision,
    vd: int,
    lmul: int,
    w: nat,
    seg: int,
    regs: Seq<u8>,
    k: int,
    end: int,
)
    requires
        forall|j: int|
            k <= j < end && #[trigger] dec(j) == MaskDecision::Active ==> elem_addr(mem, mode, j) is Ok && mem_fault(
                elem_addr(mem, mode, j)->Ok_0,
                w,
                false,
            ) is None,
    ensures
        load_run(mem, mode, dec, vd, lmul, w, seg, regs, k, end).1 is None,
    decreases end - k,
{
    if k < end {
        let off = seg_offset(vd, lmul, w as int, seg, k);
        if dec(k) != MaskDecision::Active {
            lemma_load_no_fault(mem, mode, dec, vd, lmul, w, seg, load_step(regs, off, w, dec(k), 0), k + 1, end);
        } else {
            let a = elem_addr(mem, mode, k)->Ok_0;
            lemma_load_no_fault(
                mem,
                mode,
                dec,
                vd,
                lmul,
                w,
                seg,
                store_le(regs, off, w, le(mem, a - BASE_ADDR, w) as int),
                k + 1,
                end,
            );
        }
    }
}

/// A unit-stride store of the elements `k .. end` of the group at `vs` that
/// raises no fault, read back by a load of the same shape, from the same
/// address and under the same decisions, into the group at `vd`: the load
/// raises no fault, and each active element of `vd` holds the value that
/// element had in `vs`.
pub proof fn law_store_then_load_elements(
    src: Seq<u8>,
    dst: Seq<u8>,
    base: u64,
    dec: spec_fn(int) -> MaskDecision,
    vs: int,
    vd: int,
    lmul: int,
    w: nat,
    seg: int,
    mem: Seq<u8>,
    k: int,
    end: int,
)
    requires
        valid_seg_group(vs, lmul, seg),
        valid_seg_group(vd, lmul, seg),
        valid_width(w),
        mem.len() == RAM_SIZE,
        dst.len() == VREGFILE_BYTES,
        0 <= k,
        end <= seg_count(lmul, w as int, seg),
        store_run(src, AddrMode::Stride { base, stride: w as u64 }, dec, vs, lmul, w, seg, mem, k, end).1 is None,
    ensures
        ({
            let mode = AddrMode::Stride { base, stride: w as u64 };
            let m = store_run(src, mode, dec, vs, lmul, w, seg, mem, k, end).0;
            let l = load_run(m, mode, dec, vd, lmul, w, seg, dst, k, end);
            &&& l.1 is None
            &&& forall|j: int|
                k <= j < end && #[trigger] dec(j) == MaskDecision::Active ==> le(
                    l.0,
                    seg_offset(vd, lmul, w as int, seg, j),
                    w,
                ) == le(src, seg_offset(vs, lmul, w as int, seg, j), w)
        }),
{
    let mode = AddrMode::Stride { base, stride: w as u64 };
    law_unit_store_elements(src, base, dec, vs, lmul, w, seg, mem, k, end);
    let m = store_run(src, mode, dec, vs, lmul, w, seg, mem, k, end).0;
    assert forall|j: int| k <= j < end && #[trigger] dec(j) == MaskDecision::Active implies elem_addr(m, mode, j) is Ok
        && mem_fault(elem_addr(m, mode, j)->Ok_0, w, false) is None by {
        assert(elem_addr(m, mode, j) == elem_addr(mem, mode, j));
    }
    lemma_load_no_fault(m, mode, dec, vd, lmul, w, seg, dst, k, end);
    law_load_elements(m, mode, dec, vd, lmul, w, seg, dst, k, end);
    let l = load_run(m, mode, dec, vd, lmul, w, seg, dst, k, end);
    assert forall|j: int| k <= j < end && #[trigger] dec(j) == MaskDecision::Active implies le(
        l.0,
        seg_offset(vd, lmul, w as int, seg, j),
        w,
    ) == le(src, seg_offset(vs, lmul, w as int, seg, j), w) by {
        assert(elem_addr(m, mode, j) == elem_addr(mem, mode, j));
        assert(seg_offset(vd, lmul, w as int, seg, j) == seg_offset(vd, lmul, w as int, seg, j));
    }
}

} // verus!
