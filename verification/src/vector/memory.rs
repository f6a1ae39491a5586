//! Vector loads and stores between the register file and RAM: strided and
//! indexed accesses, segmented register groups, whole-register transfers,
//! and precise memory faults that report the element that caused them.
//!
//! RAM is seen at physical addresses from `BASE_ADDR` on. An access of `n`
//! bytes faults when it leaves RAM (an access fault) or is not aligned to
//! `n` (a misaligned-address fault).

use vstd::prelude::*;
use vstd::arithmetic::power2::pow2;
use vstd::arithmetic::div_mod::{lemma_fundamental_div_mod, lemma_mod_pos_bound, lemma_multiply_divide_lt};
use vstd::arithmetic::mul::{lemma_mul_inequality, lemma_mul_is_distributive_add_other_way, lemma_mul_nonnegative};
use vstd::wrapping::u64_specs::{wrapping_add, wrapping_mul};
use crate::bytes::le;
use crate::ram::{Ram, BASE_ADDR, RAM_SIZE, access_ok, store_le, lemma_store_le};
use crate::vector::regfile::{VectorRegFile, VREGFILE_BYTES, VREG_COUNT, valid_width, valid_group, lemma_elem_bound};
use crate::vector::mask::{VecOpMask, MaskDecision, mask_policy, apply_decision};
use crate::vector::types::{Vsew, sew_bytes_spec};
use crate::vector::unit::{Vector, Exception, group_count, lemma_group};

verus! {

/// The outcome of a failed vector memory instruction.
#[derive(Clone, Copy, Debug, PartialEq, Eq, Structural)]
pub enum VectorMemException {
    /// Element `fault_index` raised `exception`; the elements before it
    /// completed.
    Memory { fault_index: usize, exception: Exception },
    /// The instruction was refused before any element was touched.
    Other(Exception),
}

impl VectorMemException {
    /// The element that faulted, for a memory fault.
    pub fn fault_index(&self) -> (r: Option<usize>)
        ensures
            r == match *self {
                VectorMemException::Memory { fault_index, .. } => Some(fault_index),
                VectorMemException::Other(_) => None,
            },
    {
        match self {
            VectorMemException::Memory { fault_index, .. } => Some(*fault_index),
            VectorMemException::Other(_) => None,
        }
    }

    /// The exception to raise.
    pub fn exception(&self) -> (r: Exception)
        ensures
            r == match *self {
                VectorMemException::Memory { exception, .. } => exception,
                VectorMemException::Other(e) => e,
            },
    {
        match self {
            VectorMemException::Memory { exception, .. } => *exception,
            VectorMemException::Other(e) => *e,
        }
    }
}

/// The fault that an access of `n` bytes at physical address `addr` raises,
/// if any: leaving RAM is an access fault, a misaligned address a
/// misaligned-address fault; `store` tells stores from loads.
pub open spec fn mem_fault(addr: u64, n: nat, store: bool) -> Option<Exception> {
    if addr < BASE_ADDR || addr - BASE_ADDR + n > RAM_SIZE {
        Some(if store { Exception::StoreAccessFault } else { Exception::LoadAccessFault })
    } else if (addr - BASE_ADDR) % (n as int) != 0 {
        Some(if store { Exception::StoreAddressMisaligned } else { Exception::LoadAddressMisaligned })
    } else {
        None
    }
}

/// The fault of an access of `n` bytes at `addr`, as `mem_fault` says.
pub fn check_access(addr: u64, n: usize, store: bool) -> (r: Option<Exception>)
    requires
        n == 1 || n == 2 || n == 4 || n == 8,
    ensures
        r == mem_fault(addr, n as nat, store),
        r is None ==> access_ok(addr - BASE_ADDR, n as nat),
{
    if addr < BASE_ADDR || addr - BASE_ADDR > (RAM_SIZE - n) as u64 {
        Some(if store { Exception::StoreAccessFault } else { Exception::LoadAccessFault })
    } else if (addr - BASE_ADDR) % (n as u64) != 0 {
        Some(if store { Exception::StoreAddressMisaligned } else { Exception::LoadAddressMisaligned })
    } else {
        None
    }
}

/// Reads `n` bytes at physical address `addr`.
pub fn mem_read(mem: &Ram, addr: u64, n: usize) -> (r: Result<u64, Exception>)
    requires
        mem@.len() == RAM_SIZE,
        n == 1 || n == 2 || n == 4 || n == 8,
    ensures
        match r {
            Ok(v) => mem_fault(addr, n as nat, false) is None && v == le(mem@, addr - BASE_ADDR, n as nat),
            Err(e) => mem_fault(addr, n as nat, false) == Some(e),
        },
{
    match check_access(addr, n, false) {
        Some(e) => Err(e),
        None => Ok(mem.load(addr - BASE_ADDR, n)),
    }
}

/// Writes the `n`-byte value `v` at physical address `addr`; a fault leaves
/// RAM unchanged.
pub fn mem_write(mem: &mut Ram, addr: u64, n: usize, v: u64) -> (r: Result<(), Exception>)
    requires
        old(mem)@.len() == RAM_SIZE,
        n == 1 || n == 2 || n == 4 || n == 8,
        v < pow2(8 * n as nat),
    ensures
        final(mem)@.len() == RAM_SIZE,
        match mem_fault(addr, n as nat, true) {
            Some(e) => r == Err::<(), Exception>(e) && final(mem)@ == old(mem)@,
            None => r is Ok && final(mem)@ == store_le(old(mem)@, addr - BASE_ADDR, n as nat, v as int),
        },
{
    match check_access(addr, n, true) {
        Some(e) => Err(e),
        None => {
            mem.store(addr - BASE_ADDR, n, v);
            proof {
                lemma_store_le(old(mem)@, mem@, addr - BASE_ADDR, n as nat, v as int);
            }
            Ok(())
        },
    }
}

/// How the address of each element is formed.
#[derive(Clone, Copy, Debug, PartialEq, Eq, Structural)]
pub enum AddrMode {
    /// Element `k` lies at `base + k * stride`.
    Stride { base: u64, stride: u64 },
    /// Element `k` lies at `base` plus the `index_width`-byte index stored
    /// at `index_base + k * index_width`.
    Indexed { base: u64, index_base: u64, index_width: u8 },
}

/// The index width of an indexed mode is an element width.
pub open spec fn mode_wf(mode: AddrMode) -> bool {
    match mode {
        AddrMode::Stride { .. } => true,
        AddrMode::Indexed { index_width, .. } => valid_width(index_width as nat),
    }
}

/// The address of element `k`, with addresses wrapping at `2^64`, or the
/// fault that reading its index raises.
pub open spec fn elem_addr(mem: Seq<u8>, mode: AddrMode, k: int) -> Result<u64, Exception> {
    match mode {
        AddrMode::Stride { base, stride } => Ok(wrapping_add(base, wrapping_mul(k as u64, stride))),
        AddrMode::Indexed { base, index_base, index_width } => {
            let ia = wrapping_add(index_base, wrapping_mul(index_width as u64, k as u64));
            match mem_fault(ia, index_width as nat, false) {
                Some(e) => Err(e),
                None => Ok(wrapping_add(base, le(mem, ia - BASE_ADDR, index_width as nat) as u64)),
            }
        },
    }
}

/// The address of element `k`, as `elem_addr` says.
pub fn element_addr(mem: &Ram, mode: AddrMode, k: usize) -> (r: Result<u64, Exception>)
    requires
        mem@.len() == RAM_SIZE,
        mode_wf(mode),
    ensures
        r == elem_addr(mem@, mode, k as int),
{
    match mode {
        AddrMode::Stride { base, stride } => Ok(base.wrapping_add((k as u64).wrapping_mul(stride))),
        AddrMode::Indexed { base, index_base, index_width } => {
            let ia = index_base.wrapping_add((index_width as u64).wrapping_mul(k as u64));
            match mem_read(mem, ia, index_width as usize) {
                Err(e) => Err(e),
                Ok(idx) => Ok(base.wrapping_add(idx)),
            }
        },
    }
}

/// Whether `vd` names a group of `seg` fields of `lmul` registers each.
pub open spec fn valid_seg_group(vd: int, lmul: int, seg: int) -> bool {
    &&& (lmul == 1 || lmul == 2 || lmul == 4 || lmul == 8)
    &&& vd % lmul == 0
    &&& 0 <= vd
    &&& 1 <= seg <= 8
    &&& vd + lmul * seg <= VREG_COUNT
}

/// Whether `vd` names a group of `seg` fields of `lmul` registers, as
/// `valid_seg_group` says.
pub fn check_seg_group(vd: u8, lmul: u8, seg: u8) -> (r: bool)
    ensures
        r == valid_seg_group(vd as int, lmul as int, seg as int),
{
    if !(lmul == 1 || lmul == 2 || lmul == 4 || lmul == 8) || seg < 1 || seg > 8 {
        return false;
    }
    assert((lmul as usize) * (seg as usize) <= 64) by (nonlinear_arith)
        requires
            lmul <= 8,
            seg <= 8,
    ;
    vd % lmul == 0 && (vd as usize) + (lmul as usize) * (seg as usize) <= VREG_COUNT
}

/// The byte offset in the register file of element `k` of a segmented
/// group: element `k` is element `k / seg` of field `k % seg`, and field
/// `f` is the `lmul` registers from `vd + f * lmul` on.
pub open spec fn seg_offset(vd: int, lmul: int, w: int, seg: int, k: int) -> int {
    vd * 16 + (k % seg) * (lmul * 16) + (k / seg) * w
}

/// The number of elements of a segmented group.
pub open spec fn seg_count(lmul: int, w: int, seg: int) -> int {
    seg * group_count(lmul as nat, w as nat)
}

/// Element `k` of a segmented group lies inside the group.
pub proof fn lemma_seg_offset(vd: int, lmul: int, w: int, seg: int, k: int)
    requires
        valid_seg_group(vd, lmul, seg),
        w == 1 || w == 2 || w == 4 || w == 8,
        0 <= k < seg_count(lmul, w, seg),
    ensures
        vd * 16 <= seg_offset(vd, lmul, w, seg, k),
        seg_offset(vd, lmul, w, seg, k) + w <= vd * 16 + seg * (lmul * 16),
        vd * 16 + seg * (lmul * 16) <= VREGFILE_BYTES,
        seg_count(lmul, w, seg) <= 1024,
{
    let c = group_count(lmul as nat, w as nat);
    let l = lmul * 16;
    lemma_group(0, lmul, w as nat);
    lemma_fundamental_div_mod(k, seg);
    lemma_mod_pos_bound(k, seg);
    lemma_multiply_divide_lt(k, seg, c);
    let q = k / seg;
    let f = k % seg;
    assert(q >= 0) by {
        vstd::arithmetic::div_mod::lemma_div_pos_is_pos(k, seg);
    }
    lemma_mul_inequality(q + 1, c, w);
    lemma_mul_is_distributive_add_other_way(w, q, 1);
    lemma_mul_inequality(f + 1, seg, l);
    lemma_mul_is_distributive_add_other_way(l, f, 1);
    lemma_mul_nonnegative(f, l);
    lemma_mul_nonnegative(q, w);
    assert(vd * 16 + seg * l <= VREGFILE_BYTES) by (nonlinear_arith)
        requires
            vd + lmul * seg <= 32,
            l == lmul * 16,
    ;
    assert(seg * c <= 1024) by (nonlinear_arith)
        requires
            1 <= seg <= 8,
            c <= 128,
    ;
    assert((f + 1) * l == seg * l ==> true);
    assert(l * seg == seg * l) by (nonlinear_arith);
    assert(c * w == w * c) by (nonlinear_arith);
}

/// The register file after one element is written under decision `d`: an
/// active element takes `v`, an agnostic one zero.
pub open spec fn load_step(regs: Seq<u8>, off: int, w: nat, d: MaskDecision, v: int) -> Seq<u8> {
    match d {
        MaskDecision::Undisturbed => regs,
        MaskDecision::Active => store_le(regs, off, w, v),
        MaskDecision::Agnostic => store_le(regs, off, w, 0),
    }
}

/// A register file that agrees with `old` outside element `[off, off + w)`
/// and holds `apply_decision(d, v, old element)` there is `load_step`.
proof fn lemma_load_step(old: Seq<u8>, new: Seq<u8>, off: int, w: nat, d: MaskDecision, v: int)
    requires
        new.len() == old.len(),
        0 <= off,
        off + w <= old.len(),
        le(new, off, w) == apply_decision(d, v, le(old, off, w) as int),
        forall|k: int| 0 <= k < old.len() && (k < off || k >= off + w) ==> new[k] == old[k],
    ensures
        new == load_step(old, off, w, d, v),
{
    lemma_store_le(old, new, off, w, apply_decision(d, v, le(old, off, w) as int));
    if d == MaskDecision::Undisturbed {
        lemma_store_le(old, old, off, w, le(old, off, w) as int);
    }
}

/// The register file, and the first fault if any, after a load of the
/// elements `k .. end` of the `w`-byte segmented group at `vd` under the
/// element decisions `dec`. Elements that are not active take `dec`'s
/// value without touching memory; an active element that faults stops the
/// load there, the elements before it written.
pub open spec fn load_run(
    mem: Seq<u8>,
    mode: AddrMode,
    dec: spec_fn(int) -> MaskDecision,
    vd: int,
    lmul: int,
    w: nat,
    seg: int,
    regs: Seq<u8>,
    k: int,
    end: int,
) -> (Seq<u8>, Option<(int, Exception)>)
    decreases end - k,
{
    if k >= end {
        (regs, None)
    } else {
        let off = seg_offset(vd, lmul, w as int, seg, k);
        if dec(k) != MaskDecision::Active {
            load_run(mem, mode, dec, vd, lmul, w, seg, load_step(regs, off, w, dec(k), 0), k + 1, end)
        } else {
            match elem_addr(mem, mode, k) {
                Err(e) => (regs, Some((k, e))),
                Ok(a) => match mem_fault(a, w, false) {
                    Some(e) => (regs, Some((k, e))),
                    None => load_run(
                        mem,
                        mode,
                        dec,
                        vd,
                        lmul,
                        w,
                        seg,
                        store_le(regs, off, w, le(mem, a - BASE_ADDR, w) as int),
                        k + 1,
                        end,
                    ),
                },
            }
        }
    }
}

/// RAM, and the first fault if any, after a store of the elements `k .. end`
/// of the `w`-byte segmented group at `vs` of `regs`. Only active elements
/// touch memory; a fault stops the store there. An index is read from RAM
/// as the earlier elements left it.
pub open spec fn store_run(
    regs: Seq<u8>,
    mode: AddrMode,
    dec: spec_fn(int) -> MaskDecision,
    vs: int,
    lmul: int,
    w: nat,
    seg: int,
    mem: Seq<u8>,
    k: int,
    end: int,
) -> (Seq<u8>, Option<(int, Exception)>)
    decreases end - k,
{
    if k >= end {
        (mem, None)
    } else if dec(k) != MaskDecision::Active {
        store_run(regs, mode, dec, vs, lmul, w, seg, mem, k + 1, end)
    } else {
        match elem_addr(mem, mode, k) {
            Err(e) => (mem, Some((k, e))),
            Ok(a) => match mem_fault(a, w, true) {
                Some(e) => (mem, Some((k, e))),
                None => store_run(
                    regs,
                    mode,
                    dec,
                    vs,
                    lmul,
                    w,
                    seg,
                    store_le(mem, a - BASE_ADDR, w, le(regs, seg_offset(vs, lmul, w as int, seg, k), w) as int),
                    k + 1,
                    end,
                ),
            },
        }
    }
}

/// A load whose elements from `k` on are all inactive raises no fault and
/// reads no memory: what it leaves in the registers does not depend on
/// memory.
pub proof fn law_inactive_load_reads_nothing(
    mem1: Seq<u8>,
    mem2: Seq<u8>,
    mode: AddrMode,
    dec: spec_fn(int) -> MaskDecision,
    vd: int,
    lmul: int,
    w: nat,
    seg: int,
    regs: Seq<u8>,
    k: int,
    end: int,
)
    requires
        forall|i: int| k <= i < end ==> #[trigger] dec(i) != MaskDecision::Active,
    ensures
        load_run(mem1, mode, dec, vd, lmul, w, seg, regs, k, end).1 is None,
        load_run(mem1, mode, dec, vd, lmul, w, seg, regs, k, end) == load_run(mem2, mode, dec, vd, lmul, w, seg, regs, k, end),
    decreases end - k,
{
    if k < end {
        let off = seg_offset(vd, lmul, w as int, seg, k);
        law_inactive_load_reads_nothing(mem1, mem2, mode, dec, vd, lmul, w, seg, load_step(regs, off, w, dec(k), 0), k + 1, end);
    }
}

/// A store whose elements from `k` on are all inactive leaves memory as it
/// was and raises no fault.
pub proof fn law_inactive_store_writes_nothing(
    regs: Seq<u8>,
    mode: AddrMode,
    dec: spec_fn(int) -> MaskDecision,
    vs: int,
    lmul: int,
    w: nat,
    seg: int,
    mem: Seq<u8>,
    k: int,
    end: int,
)
    requires
        forall|i: int| k <= i < end ==> #[trigger] dec(i) != MaskDecision::Active,
    ensures
        store_run(regs, mode, dec, vs, lmul, w, seg, mem, k, end) == (mem, None::<(int, Exception)>),
    decreases end - k,
{
    if k < end {
        law_inactive_store_writes_nothing(regs, mode, dec, vs, lmul, w, seg, mem, k + 1, end);
    }
}

/// A fault is reported at an active element of the range, the first that
/// faulted: the elements before it completed.
pub proof fn law_fault_at_active_element(
    mem: Seq<u8>,
    mode: AddrMode,
    dec: spec_fn(int) -> MaskDecision,
    vd: int,
    lmul: int,
    w: nat,
    seg: int,
    regs: Seq<u8>,
    k: int,
    end: int,
)
    ensures
        load_run(mem, mode, dec, vd, lmul, w, seg, regs, k, end).1 matches Some((f, e)) ==> k <= f < end && dec(f)
            == MaskDecision::Active,
        store_run(regs, mode, dec, vd, lmul, w, seg, mem, k, end).1 matches Some((f, e)) ==> k <= f < end && dec(f)
            == MaskDecision::Active,
    decreases end - k,
{
    if k < end {
        let off = seg_offset(vd, lmul, w as int, seg, k);
        law_fault_at_active_element(mem, mode, dec, vd, lmul, w, seg, load_step(regs, off, w, dec(k), 0), k + 1, end);
        match elem_addr(mem, mode, k) {
            Ok(a) => {
                law_fault_at_active_element(
                    mem,
                    mode,
                    dec,
                    vd,
                    lmul,
                    w,
                    seg,
                    store_le(regs, off, w, le(mem, a - BASE_ADDR, w) as int),
                    k + 1,
                    end,
                );
                lemma_store_fault_at_active(regs, mode, dec, vd, lmul, w, seg, mem, k, end);
            },
            Err(_) => {
                lemma_store_fault_at_active(regs, mode, dec, vd, lmul, w, seg, mem, k, end);
            },
        }
    }
}

/// The store half of `law_fault_at_active_element`.
proof fn lemma_store_fault_at_active(
    regs: Seq<u8>,
    mode: AddrMode,
    dec: spec_fn(int) -> MaskDecision,
    vs: int,
    lmul: int,
    w: nat,
    seg: int,
    mem: Seq<u8>,
    k: int,
    end: int,
)
    ensures
        store_run(regs, mode, dec, vs, lmul, w, seg, mem, k, end).1 matches Some((f, e)) ==> k <= f < end && dec(f)
            == MaskDecision::Active,
    decreases end - k,
{
    if k < end {
        lemma_store_fault_at_active(regs, mode, dec, vs, lmul, w, seg, mem, k + 1, end);
        match elem_addr(mem, mode, k) {
            Ok(a) => {
                let off = seg_offset(vs, lmul, w as int, seg, k);
                lemma_store_fault_at_active(
                    regs,
                    mode,
                    dec,
                    vs,
                    lmul,
                    w,
                    seg,
                    store_le(mem, a - BASE_ADDR, w, le(regs, off, w) as int),
                    k + 1,
                    end,
                );
            },
            Err(_) => {},
        }
    }
}

/// The result of an instruction that stopped with `fault`.
pub open spec fn mem_outcome(fault: Option<(int, Exception)>) -> Result<(), VectorMemException> {
    match fault {
        None => Ok(()),
        Some((k, e)) => Err(VectorMemException::Memory { fault_index: k as usize, exception: e }),
    }
}

/// Every element is active.
pub open spec fn all_active() -> spec_fn(int) -> MaskDecision {
    |i: int| MaskDecision::Active
}

/// The number of registers that the `nf` field of a whole-register load or
/// store moves, or `None` for an encoding that names no such count.
pub open spec fn whole_register_count(nf: u8) -> Option<u8> {
    if nf == 0 {
        Some(1u8)
    } else if nf == 1 {
        Some(2u8)
    } else if nf == 3 {
        Some(4u8)
    } else if nf == 7 {
        Some(8u8)
    } else {
        None
    }
}

/// The number of registers that `nf` encodes: 1, 2, 4 or 8 for `nf` 0, 1,
/// 3 or 7; any other value is an illegal instruction.
pub fn decode_whole_register_count(nf: u8) -> (r: Result<u8, Exception>)
    ensures
        r == match whole_register_count(nf) {
            Some(c) => Ok::<u8, Exception>(c),
            None => Err(Exception::IllegalInstruction),
        },
{
    match nf {
        0 => Ok(1),
        1 => Ok(2),
        3 => Ok(4),
        7 => Ok(8),
        _ => Err(Exception::IllegalInstruction),
    }
}

impl VecOpMask {
    /// Stores the `w`-byte `value` of element `index` at physical address
    /// `addr` when the element is active; other elements touch nothing.
    pub fn element_store(&self, mem: &mut Ram, addr: u64, w: usize, value: u64, index: usize) -> (r: Result<
        (),
        Exception,
    >)
        requires
            old(mem)@.len() == RAM_SIZE,
            w == 1 || w == 2 || w == 4 || w == 8,
            value < pow2(8 * w as nat),
        ensures
            final(mem)@.len() == RAM_SIZE,
            self.decision(index as int) != MaskDecision::Active ==> r is Ok && final(mem)@ == old(mem)@,
            self.decision(index as int) == MaskDecision::Active ==> match mem_fault(addr, w as nat, true) {
                Some(e) => r == Err::<(), Exception>(e) && final(mem)@ == old(mem)@,
                None => r is Ok && final(mem)@ == store_le(old(mem)@, addr - BASE_ADDR, w as nat, value as int),
            },
    {
        if self.is_active_body(index) {
            mem_write(mem, addr, w, value)
        } else {
            Ok(())
        }
    }
}

impl Vector {
    /// The decisions of a memory instruction over `seg` fields: the mask in
    /// `v0` and the policies apply to the `vl * seg` elements from 0 on.
    pub open spec fn seg_policy(&self, enable_mask: bool, seg: int) -> spec_fn(int) -> MaskDecision {
        |i: int|
            mask_policy(
                enable_mask,
                self.regs@,
                0,
                self.config.vl * seg,
                self.config.mask_agnostic,
                self.config.tail_agnostic,
                i,
            )
    }

    /// Loads the elements from `vstart` on of the `w`-byte segmented group
    /// at `vd` under the decisions that `mask` makes.
    fn run_load(
        &mut self,
        mem: &Ram,
        mode: AddrMode,
        mask: &VecOpMask,
        vd: u8,
        lmul: u8,
        w: usize,
        seg: u8,
        vstart: usize,
        Ghost(dec): Ghost<spec_fn(int) -> MaskDecision>,
    ) -> (r: Result<(), VectorMemException>)
        requires
            old(self).wf(),
            mem@.len() == RAM_SIZE,
            mode_wf(mode),
            valid_seg_group(vd as int, lmul as int, seg as int),
            valid_width(w as nat),
            forall|i: int| 0 <= i < seg_count(lmul as int, w as int, seg as int) ==> #[trigger] mask.decision(i) == dec(i),
        ensures
            final(self).wf(),
            final(self).config == old(self).config,
            final(self).regs@ == load_run(
                mem@,
                mode,
                dec,
                vd as int,
                lmul as int,
                w as nat,
                seg as int,
                old(self).regs@,
                vstart as int,
                seg_count(lmul as int, w as int, seg as int),
            ).0,
            r == mem_outcome(
                load_run(
                    mem@,
                    mode,
                    dec,
                    vd as int,
                    lmul as int,
                    w as nat,
                    seg as int,
                    old(self).regs@,
                    vstart as int,
                    seg_count(lmul as int, w as int, seg as int),
                ).1,
            ),
    {
        let ghost total = seg_count(lmul as int, w as int, seg as int);
        let ghost run = load_run(mem@, mode, dec, vd as int, lmul as int, w as nat, seg as int, old(self).regs@, vstart as int, total);
        proof {
            lemma_group(0, lmul as int, w as nat);
            assert(seg_count(lmul as int, w as int, seg as int) <= 1024) by (nonlinear_arith)
                requires
                    1 <= seg <= 8,
                    group_count(lmul as nat, w as nat) <= 128,
            ;
        }
        let count = (seg as usize) * ((lmul as usize) * 16 / w);
        let mut k: usize = vstart;
        while k < count
            invariant
                count == total,
                total <= 1024,
                self.wf(),
                self.config == old(self).config,
                mem@.len() == RAM_SIZE,
                mode_wf(mode),
                valid_seg_group(vd as int, lmul as int, seg as int),
                valid_width(w as nat),
                forall|i: int| 0 <= i < total ==> #[trigger] mask.decision(i) == dec(i),
                total == seg_count(lmul as int, w as int, seg as int),
                run == load_run(mem@, mode, dec, vd as int, lmul as int, w as nat, seg as int, old(self).regs@, vstart as int, total),
                run == load_run(mem@, mode, dec, vd as int, lmul as int, w as nat, seg as int, self.regs@, k as int, total),
            decreases count - k,
        {
            proof {
                lemma_seg_offset(vd as int, lmul as int, w as int, seg as int, k as int);
            }
            let off = (vd as usize) * 16 + (k % (seg as usize)) * ((lmul as usize) * 16) + (k / (seg as usize)) * w;
            let ghost before = self.regs@;
            if !mask.should_access(k) {
                mask.element_load_default(&mut self.regs, off, w, k);
                proof {
                    lemma_load_step(before, self.regs@, off as int, w as nat, dec(k as int), 0);
                }
            } else {
                let a = match element_addr(mem, mode, k) {
                    Ok(a) => a,
                    Err(e) => {
                        return Err(VectorMemException::Memory { fault_index: k, exception: e });
                    },
                };
                let v = match mem_read(mem, a, w) {
                    Ok(v) => v,
                    Err(e) => {
                        return Err(VectorMemException::Memory { fault_index: k, exception: e });
                    },
                };
                proof {
                    crate::bytes::lemma_le_bound(mem@, a - BASE_ADDR, w as nat);
                }
                mask.element_load(&mut self.regs, off, w, v, k);
                proof {
                    lemma_load_step(before, self.regs@, off as int, w as nat, MaskDecision::Active, v as int);
                }
            }
            k = k + 1;
        }
        Ok(())
    }

    /// Stores the elements from `vstart` on of the `w`-byte segmented group
    /// at `vs` under the decisions that `mask` makes.
    fn run_store(
        &self,
        mem: &mut Ram,
        mode: AddrMode,
        mask: &VecOpMask,
        vs: u8,
        lmul: u8,
        w: usize,
        seg: u8,
        vstart: usize,
        Ghost(dec): Ghost<spec_fn(int) -> MaskDecision>,
    ) -> (r: Result<(), VectorMemException>)
        requires
            self.wf(),
            old(mem)@.len() == RAM_SIZE,
            mode_wf(mode),
            valid_seg_group(vs as int, lmul as int, seg as int),
            valid_width(w as nat),
            forall|i: int| 0 <= i < seg_count(lmul as int, w as int, seg as int) ==> #[trigger] mask.decision(i) == dec(i),
        ensures
            final(mem)@.len() == RAM_SIZE,
            final(mem)@ == store_run(
                self.regs@,
                mode,
                dec,
                vs as int,
                lmul as int,
                w as nat,
                seg as int,
                old(mem)@,
                vstart as int,
                seg_count(lmul as int, w as int, seg as int),
            ).0,
            r == mem_outcome(
                store_run(
                    self.regs@,
                    mode,
                    dec,
                    vs as int,
                    lmul as int,
                    w as nat,
                    seg as int,
                    old(mem)@,
                    vstart as int,
                    seg_count(lmul as int, w as int, seg as int),
                ).1,
            ),
    {
        let ghost total = seg_count(lmul as int, w as int, seg as int);
        let ghost run = store_run(self.regs@, mode, dec, vs as int, lmul as int, w as nat, seg as int, old(mem)@, vstart as int, total);
        proof {
            lemma_group(0, lmul as int, w as nat);
            assert(seg_count(lmul as int, w as int, seg as int) <= 1024) by (nonlinear_arith)
                requires
                    1 <= seg <= 8,
                    group_count(lmul as nat, w as nat) <= 128,
            ;
        }
        let count = (seg as usize) * ((lmul as usize) * 16 / w);
        let mut k: usize = vstart;
        while k < count
            invariant
                count == total,
                total <= 1024,
                self.wf(),
                mem@.len() == RAM_SIZE,
                mode_wf(mode),
                valid_seg_group(vs as int, lmul as int, seg as int),
                valid_width(w as nat),
                forall|i: int| 0 <= i < total ==> #[trigger] mask.decision(i) == dec(i),
                total == seg_count(lmul as int, w as int, seg as int),
                run == store_run(self.regs@, mode, dec, vs as int, lmul as int, w as nat, seg as int, old(mem)@, vstart as int, total),
                run == store_run(self.regs@, mode, dec, vs as int, lmul as int, w as nat, seg as int, mem@, k as int, total),
            decreases count - k,
        {
            if mask.should_access(k) {
                let a = match element_addr(mem, mode, k) {
                    Ok(a) => a,
                    Err(e) => {
                        return Err(VectorMemException::Memory { fault_index: k, exception: e });
                    },
                };
                proof {
                    lemma_seg_offset(vs as int, lmul as int, w as int, seg as int, k as int);
                }
                let off = (vs as usize) * 16 + (k % (seg as usize)) * ((lmul as usize) * 16) + (k / (seg as usize)) * w;
                let v = self.regs.read_elem(off, w);
                proof {
                    crate::bytes::lemma_le_bound(self.regs@, off as int, w as nat);
                }
                match mask.element_store(mem, a, w, v, k) {
                    Ok(()) => {},
                    Err(e) => {
                        return Err(VectorMemException::Memory { fault_index: k, exception: e });
                    },
                }
            }
            k = k + 1;
        }
        Ok(())
    }

    /// A strided load (`stride` bytes apart; unit stride, the element width,
    /// when `None`) of `eew`-wide elements into the `seg` fields of the
    /// group at `vd`, resumed at element `vstart`, with addresses from
    /// `base_addr` on.
    pub fn stride_load(
        &mut self,
        vd: u8,
        eew: Vsew,
        seg: u8,
        stride: Option<u64>,
        enable_mask: bool,
        vstart: usize,
        base_addr: u64,
        mem: &Ram,
    ) -> (r: Result<(), VectorMemException>)
        requires
            old(self).wf(),
            mem@.len() == RAM_SIZE,
            old(self).config.vl * seg <= u16::MAX,
        ensures
            final(self).wf(),
            final(self).config == old(self).config,
            !valid_seg_group(vd as int, old(self).lmul() as int, seg as int) ==> r == Err::<(), VectorMemException>(
                VectorMemException::Other(Exception::IllegalInstruction),
            ) && final(self).regs@ == old(self).regs@,
            valid_seg_group(vd as int, old(self).lmul() as int, seg as int) ==> ({
                let run = load_run(
                    mem@,
                    AddrMode::Stride {
                        base: base_addr,
                        stride: match stride {
                            Some(s) => s,
                            None => sew_bytes_spec(eew) as u64,
                        },
                    },
                    old(self).seg_policy(enable_mask, seg as int),
                    vd as int,
                    old(self).lmul() as int,
                    sew_bytes_spec(eew),
                    seg as int,
                    old(self).regs@,
                    vstart as int,
                    seg_count(old(self).lmul() as int, sew_bytes_spec(eew) as int, seg as int),
                );
                final(self).regs@ == run.0 && r == mem_outcome(run.1)
            }),
    {
        let lmul = self.config.vlmul.get_lmul();
        if !check_seg_group(vd, lmul, seg) {
            return Err(VectorMemException::Other(Exception::IllegalInstruction));
        }
        let w = eew.get_sew() as usize;
        let mode = AddrMode::Stride {
            base: base_addr,
            stride: match stride {
                Some(s) => s,
                None => w as u64,
            },
        };
        let mask = VecOpMask::new(
            &self.regs,
            self.config.vl * (seg as u16),
            enable_mask,
            self.config.mask_agnostic,
            self.config.tail_agnostic,
        );
        let ghost dec = self.seg_policy(enable_mask, seg as int);
        self.run_load(mem, mode, &mask, vd, lmul, w, seg, vstart, Ghost(dec))
    }

    /// Loads the `nf`-encoded count of whole registers from `vd` on, as
    /// 8-byte elements from `base_addr` on, unmasked and ignoring `vl`,
    /// resumed at element `vstart`.
    pub fn load_whole_register(&mut self, vd: u8, nf: u8, vstart: usize, base_addr: u64, mem: &Ram) -> (r: Result<
        (),
        VectorMemException,
    >)
        requires
            old(self).wf(),
            mem@.len() == RAM_SIZE,
        ensures
            final(self).wf(),
            final(self).config == old(self).config,
            match whole_register_count(nf) {
                None => r == Err::<(), VectorMemException>(VectorMemException::Other(Exception::IllegalInstruction))
                    && final(self).regs@ == old(self).regs@,
                Some(n) => if !valid_seg_group(vd as int, n as int, 1) {
                    r == Err::<(), VectorMemException>(VectorMemException::Other(Exception::IllegalInstruction))
                        && final(self).regs@ == old(self).regs@
                } else {
                    let run = load_run(
                        mem@,
                        AddrMode::Stride { base: base_addr, stride: 8 },
                        all_active(),
                        vd as int,
                        n as int,
                        8,
                        1,
                        old(self).regs@,
                        vstart as int,
                        seg_count(n as int, 8, 1),
                    );
                    final(self).regs@ == run.0 && r == mem_outcome(run.1)
                },
            },
    {
        let lmul = match decode_whole_register_count(nf) {
            Ok(n) => n,
            Err(e) => {
                return Err(VectorMemException::Other(e));
            },
        };
        if !check_seg_group(vd, lmul, 1) {
            return Err(VectorMemException::Other(Exception::IllegalInstruction));
        }
        let mode = AddrMode::Stride { base: base_addr, stride: 8 };
        let mask = VecOpMask::new(&self.regs, 0xffff, false, false, false);
        proof {
            lemma_group(0, lmul as int, 8);
        }
        self.run_load(mem, mode, &mask, vd, lmul, 8, 1, vstart, Ghost(all_active()))
    }

    /// An indexed-ordered load of `SEW`-wide elements into the `seg` fields
    /// of the group at `vd`: element `k` lies at `base_addr` plus the
    /// `eew`-wide index at `index_arr_base + k * eew`; resumed at `vstart`.
    pub fn indexed_ordered_load(
        &mut self,
        vd: u8,
        eew: Vsew,
        seg: u8,
        index_arr_base: u64,
        enable_mask: bool,
        vstart: usize,
        base_addr: u64,
        mem: &Ram,
    ) -> (r: Result<(), VectorMemException>)
        requires
            old(self).wf(),
            mem@.len() == RAM_SIZE,
            old(self).config.vl * seg <= u16::MAX,
        ensures
            final(self).wf(),
            final(self).config == old(self).config,
            !valid_seg_group(vd as int, old(self).lmul() as int, seg as int) ==> r == Err::<(), VectorMemException>(
                VectorMemException::Other(Exception::IllegalInstruction),
            ) && final(self).regs@ == old(self).regs@,
            valid_seg_group(vd as int, old(self).lmul() as int, seg as int) ==> ({
                let run = load_run(
                    mem@,
                    AddrMode::Indexed {
                        base: base_addr,
                        index_base: index_arr_base,
                        index_width: sew_bytes_spec(eew) as u8,
                    },
                    old(self).seg_policy(enable_mask, seg as int),
                    vd as int,
                    old(self).lmul() as int,
                    old(self).sew_bytes(),
                    seg as int,
                    old(self).regs@,
                    vstart as int,
                    seg_count(old(self).lmul() as int, old(self).sew_bytes() as int, seg as int),
                );
                final(self).regs@ == run.0 && r == mem_outcome(run.1)
            }),
    {
        let lmul = self.config.vlmul.get_lmul();
        if !check_seg_group(vd, lmul, seg) {
            return Err(VectorMemException::Other(Exception::IllegalInstruction));
        }
        let w = self.config.vsew.get_sew() as usize;
        let mode = AddrMode::Indexed { base: base_addr, index_base: index_arr_base, index_width: eew.get_sew() };
        let mask = VecOpMask::new(
            &self.regs,
            self.config.vl * (seg as u16),
            enable_mask,
            self.config.mask_agnostic,
            self.config.tail_agnostic,
        );
        let ghost dec = self.seg_policy(enable_mask, seg as int);
        self.run_load(mem, mode, &mask, vd, lmul, w, seg, vstart, Ghost(dec))
    }

    /// A strided store (`stride` bytes apart; unit stride when `None`) of the
    /// `eew`-wide elements of the `seg` fields of the group at `vs`, resumed
    /// at element `vstart`, with addresses from `base_addr` on. Inactive
    /// elements touch no memory.
    pub fn stride_store(
        &mut self,
        vs: u8,
        eew: Vsew,
        seg: u8,
        stride: Option<u64>,
        enable_mask: bool,
        vstart: usize,
        base_addr: u64,
        mem: &mut Ram,
    ) -> (r: Result<(), VectorMemException>)
        requires
            old(self).wf(),
            old(mem)@.len() == RAM_SIZE,
            old(self).config.vl * seg <= u16::MAX,
        ensures
            *final(self) == *old(self),
            final(mem)@.len() == RAM_SIZE,
            !valid_seg_group(vs as int, old(self).lmul() as int, seg as int) ==> r == Err::<(), VectorMemException>(
                VectorMemException::Other(Exception::IllegalInstruction),
            ) && final(mem)@ == old(mem)@,
            valid_seg_group(vs as int, old(self).lmul() as int, seg as int) ==> ({
                let run = store_run(
                    old(self).regs@,
                    AddrMode::Stride {
                        base: base_addr,
                        stride: match stride {
                            Some(s) => s,
                            None => sew_bytes_spec(eew) as u64,
                        },
                    },
                    old(self).seg_policy(enable_mask, seg as int),
                    vs as int,
                    old(self).lmul() as int,
                    sew_bytes_spec(eew),
                    seg as int,
                    old(mem)@,
                    vstart as int,
                    seg_count(old(self).lmul() as int, sew_bytes_spec(eew) as int, seg as int),
                );
                final(mem)@ == run.0 && r == mem_outcome(run.1)
            }),
    {
        let lmul = self.config.vlmul.get_lmul();
        if !check_seg_group(vs, lmul, seg) {
            return Err(VectorMemException::Other(Exception::IllegalInstruction));
        }
        let w = eew.get_sew() as usize;
        let mode = AddrMode::Stride {
            base: base_addr,
            stride: match stride {
                Some(s) => s,
                None => w as u64,
            },
        };
        let mask = VecOpMask::new(
            &self.regs,
            self.config.vl * (seg as u16),
            enable_mask,
            self.config.mask_agnostic,
            self.config.tail_agnostic,
        );
        let ghost dec = self.seg_policy(enable_mask, seg as int);
        self.run_store(mem, mode, &mask, vs, lmul, w, seg, vstart, Ghost(dec))
    }

    /// An indexed-ordered store of the `SEW`-wide elements of the `seg`
    /// fields of the group at `vs`: element `k` goes to `base_addr` plus the
    /// `eew`-wide index at `index_arr_base + k * eew`, read as the earlier
    /// elements left memory; resumed at `vstart`.
    pub fn indexed_ordered_store(
        &mut self,
        vs: u8,
        eew: Vsew,
        seg: u8,
        index_arr_base: u64,
        enable_mask: bool,
        vstart: usize,
        base_addr: u64,
        mem: &mut Ram,
    ) -> (r: Result<(), VectorMemException>)
        requires
            old(self).wf(),
            old(mem)@.len() == RAM_SIZE,
            old(self).config.vl * seg <= u16::MAX,
        ensures
            *final(self) == *old(self),
            final(mem)@.len() == RAM_SIZE,
            !valid_seg_group(vs as int, old(self).lmul() as int, seg as int) ==> r == Err::<(), VectorMemException>(
                VectorMemException::Other(Exception::IllegalInstruction),
            ) && final(mem)@ == old(mem)@,
            valid_seg_group(vs as int, old(self).lmul() as int, seg as int) ==> ({
                let run = store_run(
                    old(self).regs@,
                    AddrMode::Indexed {
                        base: base_addr,
                        index_base: index_arr_base,
                        index_width: sew_bytes_spec(eew) as u8,
                    },
                    old(self).seg_policy(enable_mask, seg as int),
                    vs as int,
                    old(self).lmul() as int,
                    old(self).sew_bytes(),
                    seg as int,
                    old(mem)@,
                    vstart as int,
                    seg_count(old(self).lmul() as int, old(self).sew_bytes() as int, seg as int),
                );
                final(mem)@ == run.0 && r == mem_outcome(run.1)
            }),
    {
        let lmul = self.config.vlmul.get_lmul();
        if !check_seg_group(vs, lmul, seg) {
            return Err(VectorMemException::Other(Exception::IllegalInstruction));
        }
        let w = self.config.vsew.get_sew() as usize;
        let mode = AddrMode::Indexed { base: base_addr, index_base: index_arr_base, index_width: eew.get_sew() };
        let mask = VecOpMask::new(
            &self.regs,
            self.config.vl * (seg as u16),
            enable_mask,
            self.config.mask_agnostic,
            self.config.tail_agnostic,
        );
        let ghost dec = self.seg_policy(enable_mask, seg as int);
        self.run_store(mem, mode, &mask, vs, lmul, w, seg, vstart, Ghost(dec))
    }

    /// Stores the `nf`-encoded count of whole registers from `vs` on, as
    /// 8-byte elements from `base_addr` on, unmasked and ignoring `vl`,
    /// resumed at element `vstart`.
    pub fn store_whole_register(&mut self, vs: u8, nf: u8, vstart: usize, base_addr: u64, mem: &mut Ram) -> (r: Result<
        (),
        VectorMemException,
    >)
        requires
            old(self).wf(),
            old(mem)@.len() == RAM_SIZE,
        ensures
            *final(self) == *old(self),
            final(mem)@.len() == RAM_SIZE,
            match whole_register_count(nf) {
                None => r == Err::<(), VectorMemException>(VectorMemException::Other(Exception::IllegalInstruction))
                    && final(mem)@ == old(mem)@,
                Some(n) => if !valid_seg_group(vs as int, n as int, 1) {
                    r == Err::<(), VectorMemException>(VectorMemException::Other(Exception::IllegalInstruction))
                        && final(mem)@ == old(mem)@
                } else {
                    let run = store_run(
                        old(self).regs@,
                        AddrMode::Stride { base: base_addr, stride: 8 },
                        all_active(),
                        vs as int,
                        n as int,
                        8,
                        1,
                        old(mem)@,
                        vstart as int,
                        seg_count(n as int, 8, 1),
                    );
                    final(mem)@ == run.0 && r == mem_outcome(run.1)
                },
            },
    {
        let lmul = match decode_whole_register_count(nf) {
            Ok(n) => n,
            Err(e) => {
                return Err(VectorMemException::Other(e));
            },
        };
        if !check_seg_group(vs, lmul, 1) {
            return Err(VectorMemException::Other(Exception::IllegalInstruction));
        }
        let mode = AddrMode::Stride { base: base_addr, stride: 8 };
        let mask = VecOpMask::new(&self.regs, 0xffff, false, false, false);
        proof {
            lemma_group(0, lmul as int, 8);
        }
        self.run_store(mem, mode, &mask, vs, lmul, 8, 1, vstart, Ghost(all_active()))
    }
}

} // verus!
