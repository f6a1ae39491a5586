//! Fixed-point arithmetic of the vector extension: rounding of right shifts
//! under the four `vxrm` modes, saturation to a width, and the saturating,
//! averaging, fractional-multiply, scaling-shift and narrowing-clip element
//! operations.

use vstd::prelude::*;
use vstd::arithmetic::power2::*;
use vstd::arithmetic::div_mod::*;
use crate::bits::{
    pow2_u128, valid_bits, wrap, to_signed, lemma_width_pow2, from_signed_i128, as_signed_i128,
    shift_amount,
};
use crate::vector::types::FixedPointRoundingMode;

verus! {

/// Whether bit `k` of the two's complement pattern of `x` is set.
pub open spec fn bit_at(x: int, k: nat) -> bool {
    (x / (pow2(k) as int)) % 2 == 1
}

/// The rounding increment that `vxrm` adds after shifting `x` right by
/// `shift` bits.
pub open spec fn round_increment_spec(x: int, shift: nat, round: FixedPointRoundingMode) -> int {
    if shift == 0 {
        0
    } else {
        let half = bit_at(x, (shift - 1) as nat);
        let below_half = x % (pow2((shift - 1) as nat) as int) != 0;
        let discarded = x % (pow2(shift) as int) != 0;
        let inc = match round {
            FixedPointRoundingMode::RoundToNearestUp => half,
            FixedPointRoundingMode::RoundToNearestEven => half && (below_half || bit_at(x, shift)),
            FixedPointRoundingMode::RoundDown => false,
            FixedPointRoundingMode::RoundToOdd => !bit_at(x, shift) && discarded,
        };
        if inc {
            1
        } else {
            0
        }
    }
}

/// `x` shifted right (by floor division) `shift` bits and rounded.
pub open spec fn round_spec(x: int, shift: nat, round: FixedPointRoundingMode) -> int {
    if shift == 0 {
        x
    } else {
        x / (pow2(shift) as int) + round_increment_spec(x, shift, round)
    }
}

/// The largest unsigned `bits`-wide value.
pub open spec fn umax_spec(bits: nat) -> int {
    pow2(bits) - 1
}

/// The smallest signed `bits`-wide value.
pub open spec fn smin_spec(bits: nat) -> int {
    -(pow2((bits - 1) as nat) as int)
}

/// The largest signed `bits`-wide value.
pub open spec fn smax_spec(bits: nat) -> int {
    pow2((bits - 1) as nat) - 1
}

/// `x` clamped to the unsigned `bits`-wide range, and whether it was clamped.
pub open spec fn sat_u_spec(x: int, bits: nat) -> (int, bool) {
    if x > umax_spec(bits) {
        (umax_spec(bits), true)
    } else {
        (x, false)
    }
}

/// `x` clamped to the signed `bits`-wide range, as a `bits`-wide pattern,
/// and whether it was clamped.
pub open spec fn sat_s_spec(x: int, bits: nat) -> (int, bool) {
    if x > smax_spec(bits) {
        (wrap(smax_spec(bits), bits), true)
    } else if x < smin_spec(bits) {
        (wrap(smin_spec(bits), bits), true)
    } else {
        (wrap(x, bits), false)
    }
}

/// The single-width fixed-point operations.
#[derive(Clone, Copy, Debug, PartialEq, Eq, Structural)]
pub enum FixedPointOp {
    /// `vsaddu`: saturating unsigned add.
    Saddu,
    /// `vsadd`: saturating signed add.
    Sadd,
    /// `vssubu`: saturating unsigned subtract.
    Ssubu,
    /// `vssub`: saturating signed subtract.
    Ssub,
    /// `vaaddu`: averaging unsigned add.
    Aaddu,
    /// `vaadd`: averaging signed add.
    Aadd,
    /// `vasubu`: averaging unsigned subtract.
    Asubu,
    /// `vasub`: averaging signed subtract.
    Asub,
    /// `vsmul`: signed fractional multiply with rounding and saturation.
    Smul,
    /// `vssrl`: scaling logical shift right.
    Ssrl,
    /// `vssra`: scaling arithmetic shift right.
    Ssra,
}

/// The narrowing fixed-point clips.
#[derive(Clone, Copy, Debug, PartialEq, Eq, Structural)]
pub enum NarrowingClipOp {
    /// `vnclipu`: unsigned narrowing clip.
    Nclipu,
    /// `vnclip`: signed narrowing clip.
    Nclip,
}

/// The result and saturation flag of a single-width fixed-point operation on
/// the `bits`-wide elements `a` (from `vs2`) and `b` (from `vs1` or the
/// scalar).
pub open spec fn fixed_point_binary_spec(
    op: FixedPointOp,
    bits: nat,
    a: int,
    b: int,
    round: FixedPointRoundingMode,
) -> (int, bool) {
    let sa = to_signed(a, bits);
    let sb = to_signed(b, bits);
    match op {
        FixedPointOp::Saddu => sat_u_spec(a + b, bits),
        FixedPointOp::Sadd => sat_s_spec(sa + sb, bits),
        FixedPointOp::Ssubu => if a < b {
            (0, true)
        } else {
            (a - b, false)
        },
        FixedPointOp::Ssub => sat_s_spec(sa - sb, bits),
        FixedPointOp::Aaddu => (wrap(round_spec(a + b, 1, round), bits), false),
        FixedPointOp::Aadd => (wrap(round_spec(sa + sb, 1, round), bits), false),
        FixedPointOp::Asubu => (wrap(round_spec(a - b, 1, round), bits), false),
        FixedPointOp::Asub => (wrap(round_spec(sa - sb, 1, round), bits), false),
        FixedPointOp::Smul => sat_s_spec(round_spec(sa * sb, (bits - 1) as nat, round), bits),
        FixedPointOp::Ssrl => (wrap(round_spec(a, (b % bits as int) as nat, round), bits), false),
        FixedPointOp::Ssra => (wrap(round_spec(sa, (b % bits as int) as nat, round), bits), false),
    }
}

/// The result and saturation flag of a narrowing clip of the
/// `2 * dst_bits`-wide element `src`, shifted by the low bits of `shift`.
pub open spec fn narrowing_clip_spec(
    op: NarrowingClipOp,
    dst_bits: nat,
    src: int,
    shift: int,
    round: FixedPointRoundingMode,
) -> (int, bool) {
    let src_bits = 2 * dst_bits;
    let sh = (shift % src_bits as int) as nat;
    match op {
        NarrowingClipOp::Nclipu => sat_u_spec(round_spec(src, sh, round), dst_bits),
        NarrowingClipOp::Nclip => sat_s_spec(
            round_spec(to_signed(src, src_bits), sh, round),
            dst_bits,
        ),
    }
}

/// The rounding increment for the pattern `value_bits` shifted right by
/// `shift` bits.
pub fn round_increment(value_bits: u128, shift: u32, round: FixedPointRoundingMode) -> (r: i128)
    requires
        shift < 128,
    ensures
        r == round_increment_spec(value_bits as int, shift as nat, round),
{
    if shift == 0 {
        return 0;
    }
    let p = pow2_u128(shift);
    let p_half = pow2_u128(shift - 1);
    proof {
        lemma_pow2_pos(shift as nat);
        lemma_pow2_pos((shift - 1) as nat);
    }
    let half = (value_bits / p_half) % 2 == 1;
    let below_half = value_bits % p_half != 0;
    let discarded = value_bits % p != 0;
    let above = (value_bits / p) % 2 == 1;
    let increment = match round {
        FixedPointRoundingMode::RoundToNearestUp => half,
        FixedPointRoundingMode::RoundToNearestEven => half && (below_half || above),
        FixedPointRoundingMode::RoundDown => false,
        FixedPointRoundingMode::RoundToOdd => !above && discarded,
    };
    if increment {
        1
    } else {
        0
    }
}

/// `value` shifted right by `shift` bits and rounded.
pub fn round_unsigned(value: u128, shift: u32, round: FixedPointRoundingMode) -> (r: u128)
    requires
        shift < 128,
    ensures
        r == round_spec(value as int, shift as nat, round),
{
    if shift == 0 {
        value
    } else {
        let p = pow2_u128(shift);
        proof {
            lemma_pow2_unfold(shift as nat);
            lemma_pow2_pos((shift - 1) as nat);
            lemma_div_is_ordered_by_denominator(value as int, 2, p as int);
        }
        (value / p) + round_increment(value, shift, round) as u128
    }
}

/// Adding a multiple of `2^(shift + 1)` leaves the rounding increment as it
/// was.
proof fn lemma_round_increment_shift(x: int, shift: nat, k: int, round: FixedPointRoundingMode)
    requires
        shift >= 1,
    ensures
        round_increment_spec(x + k * pow2(shift + 1), shift, round) == round_increment_spec(
            x,
            shift,
            round,
        ),
{
    let c = k * pow2(shift + 1);
    let p = pow2(shift) as int;
    let ph = pow2((shift - 1) as nat) as int;
    lemma_pow2_unfold(shift + 1);
    lemma_pow2_unfold(shift);
    lemma_pow2_pos(shift);
    lemma_pow2_pos((shift - 1) as nat);
    assert(c == (2 * k) * p) by (nonlinear_arith)
        requires
            c == k * pow2(shift + 1),
            pow2(shift + 1) == 2 * p,
    ;
    assert(c == (4 * k) * ph) by (nonlinear_arith)
        requires
            c == (2 * k) * p,
            p == 2 * ph,
    ;
    lemma_hoist_over_denominator(x, 2 * k, p as nat);
    lemma_hoist_over_denominator(x, 4 * k, ph as nat);
    assert((x + c) / p == x / p + 2 * k);
    assert((x + c) / ph == x / ph + 4 * k);
    lemma_mod_multiples_vanish(k, x / p, 2);
    lemma_mod_multiples_vanish(2 * k, x / ph, 2);
    assert((x / p + 2 * k) % 2 == (x / p) % 2);
    assert((x / ph + 4 * k) % 2 == (x / ph) % 2);
    lemma_mod_multiples_vanish(2 * k, x, p);
    lemma_mod_multiples_vanish(4 * k, x, ph);
    assert((x + c) % p == x % p) by {
        assert(x + c == p * (2 * k) + x) by (nonlinear_arith)
            requires
                c == (2 * k) * p,
        ;
    }
    assert((x + c) % ph == x % ph) by {
        assert(x + c == ph * (4 * k) + x) by (nonlinear_arith)
            requires
                c == (4 * k) * ph,
        ;
    }
}

/// `value` shifted right arithmetically by `shift` bits and rounded.
pub fn round_signed(value: i128, shift: u32, round: FixedPointRoundingMode) -> (r: i128)
    requires
        shift <= 64,
        -0x4000_0000_0000_0000_0000_0000_0000_0000 <= value <= 0x4000_0000_0000_0000_0000_0000_0000_0000,
    ensures
        r == round_spec(value as int, shift as nat, round),
{
    if shift == 0 {
        return value;
    }
    let c: u128 = 0x4000_0000_0000_0000_0000_0000_0000_0000;
    let u: u128 = if value >= 0 {
        (value as u128) + c
    } else {
        c - ((-value) as u128)
    };
    let p = pow2_u128(shift);
    proof {
        lemma_pow2_pos(shift as nat);
    }
    let q = u / p;
    let cq = c / p;
    let inc = round_increment(u, shift, round);
    proof {
        let k = pow2((125 - shift) as nat) as int;
        lemma2_to64();
        lemma2_to64_rest();
        lemma_pow2_adds(62, 64);
        lemma_pow2_adds((125 - shift) as nat, (shift + 1) as nat);
        assert(pow2(126) == c);
        assert((125 - shift) as nat + (shift + 1) as nat == 126);
        assert(c == k * pow2((shift + 1) as nat));
        lemma_round_increment_shift(value as int, shift as nat, k, round);
        lemma_pow2_unfold((shift + 1) as nat);
        lemma_pow2_pos(shift as nat);
        assert(c as int == (2 * k) * p) by (nonlinear_arith)
            requires
                c == k * pow2((shift + 1) as nat),
                pow2((shift + 1) as nat) == 2 * p,
        ;
        lemma_hoist_over_denominator(value as int, 2 * k, p as nat);
        lemma_div_by_multiple(2 * k, p as int);
        assert(cq == 2 * k);
        assert(q as int == value as int / p as int + 2 * k);
        lemma_pow2_strictly_increases(shift as nat, 127);
        lemma_pow2_adds(63, 64);
        lemma_div_is_ordered_by_denominator(u as int, 2, p as int);
    }
    (q as i128) - (cq as i128) + inc
}

/// The largest unsigned value of the given width.
pub fn unsigned_max(bits: u32) -> (r: u128)
    requires
        1 <= bits < 128,
    ensures
        r == umax_spec(bits as nat),
{
    proof {
        lemma_pow2_pos(bits as nat);
    }
    pow2_u128(bits) - 1
}

/// The smallest signed value of the given width.
pub fn lowest_signed(bits: u32) -> (r: i128)
    requires
        1 <= bits <= 64,
    ensures
        r == smin_spec(bits as nat),
{
    proof {
        lemma_pow2_strictly_increases((bits - 1) as nat, 64);
        lemma2_to64_rest();
    }
    -(pow2_u128(bits - 1) as i128)
}

/// The largest signed value of the given width.
pub fn signed_max(bits: u32) -> (r: i128)
    requires
        1 <= bits <= 64,
    ensures
        r == smax_spec(bits as nat),
{
    proof {
        lemma_pow2_strictly_increases((bits - 1) as nat, 64);
        lemma_pow2_pos((bits - 1) as nat);
        lemma2_to64_rest();
    }
    (pow2_u128(bits - 1) as i128) - 1
}

/// Clamps `value` to the unsigned `bits`-wide range and reports whether it
/// had to.
pub fn saturate_unsigned(value: u128, bits: u32) -> (r: (u64, bool))
    requires
        valid_bits(bits as nat),
    ensures
        (r.0 as int, r.1) == sat_u_spec(value as int, bits as nat),
        r.0 < pow2(bits as nat),
{
    proof {
        lemma_width_pow2(bits as nat);
    }
    let max = unsigned_max(bits);
    if value > max {
        (max as u64, true)
    } else {
        (value as u64, false)
    }
}

/// Clamps `value` to the signed `bits`-wide range, returns the clamped value
/// as a `bits`-wide pattern and reports whether it had to clamp.
pub fn saturate_signed(value: i128, bits: u32) -> (r: (u64, bool))
    requires
        valid_bits(bits as nat),
        -0x4000_0000_0000_0000_0000_0000_0000_0000 <= value <= 0x4000_0000_0000_0000_0000_0000_0000_0000,
    ensures
        (r.0 as int, r.1) == sat_s_spec(value as int, bits as nat),
        r.0 < pow2(bits as nat),
{
    proof {
        lemma_width_pow2(bits as nat);
    }
    let min = lowest_signed(bits);
    let max = signed_max(bits);
    if value > max {
        (from_signed_i128(max, bits), true)
    } else if value < min {
        (from_signed_i128(min, bits), true)
    } else {
        (from_signed_i128(value, bits), false)
    }
}


/// Bounds of the signed values of `bits`-wide elements.
proof fn lemma_signed_bounds(a: int, bits: nat)
    requires
        valid_bits(bits),
        0 <= a < pow2(bits),
    ensures
        -0x8000_0000_0000_0000 <= to_signed(a, bits) <= 0x7fff_ffff_ffff_ffff,
        -(pow2((bits - 1) as nat) as int) <= to_signed(a, bits) < pow2((bits - 1) as nat),
{
    lemma_width_pow2(bits);
    lemma2_to64_rest();
}

/// One single-width fixed-point operation on the `bits`-wide elements `vs2`
/// and `vs1`: the result and whether it saturated.
pub fn fixed_point_binary(
    op: FixedPointOp,
    bits: u32,
    vs2: u64,
    vs1: u64,
    round: FixedPointRoundingMode,
) -> (r: (u64, bool))
    requires
        valid_bits(bits as nat),
        vs2 < pow2(bits as nat),
        vs1 < pow2(bits as nat),
    ensures
        (r.0 as int, r.1) == fixed_point_binary_spec(op, bits as nat, vs2 as int, vs1 as int, round),
        r.0 < pow2(bits as nat),
{
    proof {
        lemma_width_pow2(bits as nat);
        lemma_signed_bounds(vs2 as int, bits as nat);
        lemma_signed_bounds(vs1 as int, bits as nat);
        lemma2_to64_rest();
    }
    match op {
        FixedPointOp::Saddu => saturate_unsigned(vs2 as u128 + vs1 as u128, bits),
        FixedPointOp::Sadd => {
            let a = as_signed_i128(vs2, bits);
            let b = as_signed_i128(vs1, bits);
            saturate_signed(a + b, bits)
        },
        FixedPointOp::Ssubu => {
            if vs2 < vs1 {
                (0, true)
            } else {
                (vs2 - vs1, false)
            }
        },
        FixedPointOp::Ssub => {
            let a = as_signed_i128(vs2, bits);
            let b = as_signed_i128(vs1, bits);
            saturate_signed(a - b, bits)
        },
        FixedPointOp::Aaddu => {
            let rounded = round_signed(vs2 as i128 + vs1 as i128, 1, round);
            proof {
                lemma2_to64();
            }
            (from_signed_i128(rounded, bits), false)
        },
        FixedPointOp::Aadd => {
            let a = as_signed_i128(vs2, bits);
            let b = as_signed_i128(vs1, bits);
            let rounded = round_signed(a + b, 1, round);
            proof {
                lemma2_to64();
            }
            (from_signed_i128(rounded, bits), false)
        },
        FixedPointOp::Asubu => {
            let rounded = round_signed(vs2 as i128 - vs1 as i128, 1, round);
            proof {
                lemma2_to64();
            }
            (from_signed_i128(rounded, bits), false)
        },
        FixedPointOp::Asub => {
            let a = as_signed_i128(vs2, bits);
            let b = as_signed_i128(vs1, bits);
            let rounded = round_signed(a - b, 1, round);
            proof {
                lemma2_to64();
            }
            (from_signed_i128(rounded, bits), false)
        },
        FixedPointOp::Smul => {
            let a = as_signed_i128(vs2, bits);
            let b = as_signed_i128(vs1, bits);
            assert(-0x4000_0000_0000_0000_0000_0000_0000_0000 <= a * b <= 0x4000_0000_0000_0000_0000_0000_0000_0000)
                by (nonlinear_arith)
                requires
                    -0x8000_0000_0000_0000 <= a <= 0x7fff_ffff_ffff_ffff,
                    -0x8000_0000_0000_0000 <= b <= 0x7fff_ffff_ffff_ffff,
            ;
            let product = a * b;
            let rounded = round_signed(product, bits - 1, round);
            proof {
                lemma_round_signed_bound(product as int, (bits - 1) as nat, round);
            }
            saturate_signed(rounded, bits)
        },
        FixedPointOp::Ssrl => {
            let shift = shift_amount(vs1, bits);
            let rounded = round_signed(vs2 as i128, shift, round);
            proof {
                lemma_round_signed_bound(vs2 as int, shift as nat, round);
            }
            (from_signed_i128(rounded, bits), false)
        },
        FixedPointOp::Ssra => {
            let shift = shift_amount(vs1, bits);
            let a = as_signed_i128(vs2, bits);
            let rounded = round_signed(a, shift, round);
            proof {
                lemma_round_signed_bound(a as int, shift as nat, round);
            }
            (from_signed_i128(rounded, bits), false)
        },
    }
}

/// Rounding a right shift does not move a value further from zero than it
/// was, up to the one unit that rounding may add.
proof fn lemma_round_signed_bound(x: int, shift: nat, round: FixedPointRoundingMode)
    requires
        -0x4000_0000_0000_0000_0000_0000_0000_0000 <= x <= 0x4000_0000_0000_0000_0000_0000_0000_0000,
    ensures
        -0x4000_0000_0000_0000_0000_0000_0000_0000 <= round_spec(x, shift, round)
            <= 0x4000_0000_0000_0000_0000_0000_0000_0000,
        x >= 0 ==> round_spec(x, shift, round) >= 0,
        x >= 0 ==> round_spec(x, shift, round) <= x + 1,
{
    if shift > 0 {
        lemma_pow2_pos(shift);
        lemma_pow2_unfold(shift);
        lemma_pow2_pos((shift - 1) as nat);
        if x >= 0 {
            lemma_div_is_ordered_by_denominator(x, 2, pow2(shift) as int);
            lemma_div_pos_is_pos(x, pow2(shift) as int);
        } else {
            lemma_div_is_ordered_by_denominator(-x, 2, pow2(shift) as int);
            assert(x / (pow2(shift) as int) >= x) by (nonlinear_arith)
                requires
                    x < 0,
                    pow2(shift) >= 2,
            ;
            assert(x / (pow2(shift) as int) <= 0) by (nonlinear_arith)
                requires
                    x < 0,
                    pow2(shift) >= 2,
            ;
        }
    }
}

/// One narrowing clip of the `2 * dst_bits`-wide element `src` by the low
/// bits of `shift`: the `dst_bits`-wide result and whether it saturated.
pub fn narrowing_clip(
    op: NarrowingClipOp,
    dst_bits: u32,
    src: u64,
    shift: u64,
    round: FixedPointRoundingMode,
) -> (r: (u64, bool))
    requires
        dst_bits == 8 || dst_bits == 16 || dst_bits == 32,
        src < pow2(2 * dst_bits as nat),
    ensures
        (r.0 as int, r.1) == narrowing_clip_spec(op, dst_bits as nat, src as int, shift as int, round),
        r.0 < pow2(dst_bits as nat),
{
    let src_bits = 2 * dst_bits;
    proof {
        lemma_width_pow2(src_bits as nat);
        lemma_width_pow2(dst_bits as nat);
        lemma_signed_bounds(src as int, src_bits as nat);
        lemma2_to64_rest();
    }
    let sh = shift_amount(shift, src_bits);
    match op {
        NarrowingClipOp::Nclipu => {
            let rounded = round_unsigned(src as u128, sh, round);
            saturate_unsigned(rounded, dst_bits)
        },
        NarrowingClipOp::Nclip => {
            let a = as_signed_i128(src, src_bits);
            let rounded = round_signed(a, sh, round);
            proof {
                lemma_round_signed_bound(a as int, sh as nat, round);
            }
            saturate_signed(rounded, dst_bits)
        },
    }
}

/// `x` limited to `lo ..= hi`.
pub open spec fn clamp(x: int, lo: int, hi: int) -> int {
    if x < lo {
        lo
    } else if x > hi {
        hi
    } else {
        x
    }
}

/// A rounded right shift lands on the floor of the quotient or one above
/// it, and on the floor itself when rounding down.
proof fn lemma_round_near(x: int, shift: nat, round: FixedPointRoundingMode)
    ensures
        round_spec(x, shift, round) == x / (pow2(shift) as int) || round_spec(x, shift, round) == x / (pow2(shift) as int)
            + 1,
        round == FixedPointRoundingMode::RoundDown ==> round_spec(x, shift, round) == x / (pow2(shift) as int),
{
    if shift == 0 {
        lemma2_to64();
    }
}

/// The scaling shifts divide by `2^shift`, the shift taken from the low
/// bits of `b`, and round to the floor of the quotient or one above it
/// (the floor when rounding down): `vssrl` divides `a` as unsigned,
/// `vssra` divides the two's complement value of `a`, so that a negative
/// element stays negative.
pub proof fn law_scaling_shifts(bits: nat, a: int, b: int, round: FixedPointRoundingMode)
    requires
        valid_bits(bits),
        0 <= a < pow2(bits),
        0 <= b < pow2(bits),
    ensures
        ({
            let p = pow2((b % bits as int) as nat) as int;
            let r = fixed_point_binary_spec(FixedPointOp::Ssrl, bits, a, b, round).0;
            &&& r == wrap(a / p, bits) || r == wrap(a / p + 1, bits)
            &&& round == FixedPointRoundingMode::RoundDown ==> r == wrap(a / p, bits)
        }),
        ({
            let p = pow2((b % bits as int) as nat) as int;
            let sa = to_signed(a, bits);
            let r = fixed_point_binary_spec(FixedPointOp::Ssra, bits, a, b, round).0;
            &&& r == wrap(sa / p, bits) || r == wrap(sa / p + 1, bits)
            &&& round == FixedPointRoundingMode::RoundDown ==> r == wrap(sa / p, bits)
        }),
{
    let sh = (b % bits as int) as nat;
    lemma_round_near(a, sh, round);
    lemma_round_near(to_signed(a, bits), sh, round);
}

/// The averaging operations halve the sum or difference, of the unsigned
/// values for `vaaddu` and `vasubu` and of the two's complement values for
/// `vaadd` and `vasub`, rounding to the floor or one above it (the floor
/// when rounding down).
pub proof fn law_averaging(bits: nat, a: int, b: int, round: FixedPointRoundingMode)
    requires
        valid_bits(bits),
        0 <= a < pow2(bits),
        0 <= b < pow2(bits),
    ensures
        ({
            let r = fixed_point_binary_spec(FixedPointOp::Aaddu, bits, a, b, round).0;
            &&& r == wrap((a + b) / 2, bits) || r == wrap((a + b) / 2 + 1, bits)
            &&& round == FixedPointRoundingMode::RoundDown ==> r == wrap((a + b) / 2, bits)
        }),
        ({
            let r = fixed_point_binary_spec(FixedPointOp::Asubu, bits, a, b, round).0;
            &&& r == wrap((a - b) / 2, bits) || r == wrap((a - b) / 2 + 1, bits)
            &&& round == FixedPointRoundingMode::RoundDown ==> r == wrap((a - b) / 2, bits)
        }),
        ({
            let s = to_signed(a, bits) + to_signed(b, bits);
            let r = fixed_point_binary_spec(FixedPointOp::Aadd, bits, a, b, round).0;
            &&& r == wrap(s / 2, bits) || r == wrap(s / 2 + 1, bits)
            &&& round == FixedPointRoundingMode::RoundDown ==> r == wrap(s / 2, bits)
        }),
        ({
            let d = to_signed(a, bits) - to_signed(b, bits);
            let r = fixed_point_binary_spec(FixedPointOp::Asub, bits, a, b, round).0;
            &&& r == wrap(d / 2, bits) || r == wrap(d / 2 + 1, bits)
            &&& round == FixedPointRoundingMode::RoundDown ==> r == wrap(d / 2, bits)
        }),
{
    lemma2_to64();
    lemma_round_near(a + b, 1, round);
    lemma_round_near(a - b, 1, round);
    lemma_round_near(to_signed(a, bits) + to_signed(b, bits), 1, round);
    lemma_round_near(to_signed(a, bits) - to_signed(b, bits), 1, round);
}

/// The saturating operations give the exact sum or difference where it fits
/// the element and the nearest bound otherwise, and say whether they
/// saturated: `vsaddu` and `vssubu` on the unsigned values, `vsadd` and
/// `vssub` on the two's complement values.
pub proof fn law_saturating(bits: nat, a: int, b: int, round: FixedPointRoundingMode)
    requires
        valid_bits(bits),
        0 <= a < pow2(bits),
        0 <= b < pow2(bits),
    ensures
        ({
            let (r, sat) = fixed_point_binary_spec(FixedPointOp::Saddu, bits, a, b, round);
            &&& r == clamp(a + b, 0, pow2(bits) - 1)
            &&& sat == (a + b > pow2(bits) - 1)
        }),
        ({
            let (r, sat) = fixed_point_binary_spec(FixedPointOp::Ssubu, bits, a, b, round);
            &&& r == clamp(a - b, 0, pow2(bits) - 1)
            &&& sat == (a - b < 0)
        }),
        ({
            let lo = -(pow2((bits - 1) as nat) as int);
            let hi = pow2((bits - 1) as nat) - 1;
            let s = to_signed(a, bits) + to_signed(b, bits);
            let (r, sat) = fixed_point_binary_spec(FixedPointOp::Sadd, bits, a, b, round);
            &&& r == wrap(clamp(s, lo, hi), bits)
            &&& sat == (s < lo || s > hi)
        }),
        ({
            let lo = -(pow2((bits - 1) as nat) as int);
            let hi = pow2((bits - 1) as nat) - 1;
            let d = to_signed(a, bits) - to_signed(b, bits);
            let (r, sat) = fixed_point_binary_spec(FixedPointOp::Ssub, bits, a, b, round);
            &&& r == wrap(clamp(d, lo, hi), bits)
            &&& sat == (d < lo || d > hi)
        }),
{
}

/// The fractional multiply `vsmul` takes the product of the two's
/// complement values shifted right by `bits - 1`, rounded to the floor or
/// one above it (the floor when rounding down), and saturates it to the
/// signed range.
pub proof fn law_fractional_multiply(bits: nat, a: int, b: int, round: FixedPointRoundingMode)
    requires
        valid_bits(bits),
        0 <= a < pow2(bits),
        0 <= b < pow2(bits),
    ensures
        ({
            let lo = -(pow2((bits - 1) as nat) as int);
            let hi = pow2((bits - 1) as nat) - 1;
            let q = to_signed(a, bits) * to_signed(b, bits) / (pow2((bits - 1) as nat) as int);
            let r = fixed_point_binary_spec(FixedPointOp::Smul, bits, a, b, round).0;
            &&& r == wrap(clamp(q, lo, hi), bits) || r == wrap(clamp(q + 1, lo, hi), bits)
            &&& round == FixedPointRoundingMode::RoundDown ==> r == wrap(clamp(q, lo, hi), bits)
        }),
{
    lemma_round_near(to_signed(a, bits) * to_signed(b, bits), (bits - 1) as nat, round);
}

/// The narrowing clips shift the wide element right by the low bits of
/// `shift`, rounding to the floor or one above it (the floor when rounding
/// down), and saturate to the narrow range: `vnclipu` as unsigned values,
/// `vnclip` as two's complement values.
pub proof fn law_narrowing_clips(dst_bits: nat, src: int, shift: int, round: FixedPointRoundingMode)
    requires
        dst_bits == 8 || dst_bits == 16 || dst_bits == 32,
        0 <= src < pow2(2 * dst_bits),
    ensures
        ({
            let p = pow2((shift % (2 * dst_bits) as int) as nat) as int;
            let hi = pow2(dst_bits) - 1;
            let r = narrowing_clip_spec(NarrowingClipOp::Nclipu, dst_bits, src, shift, round).0;
            &&& r == clamp(src / p, 0, hi) || r == clamp(src / p + 1, 0, hi)
            &&& round == FixedPointRoundingMode::RoundDown ==> r == clamp(src / p, 0, hi)
        }),
        ({
            let p = pow2((shift % (2 * dst_bits) as int) as nat) as int;
            let lo = -(pow2((dst_bits - 1) as nat) as int);
            let hi = pow2((dst_bits - 1) as nat) - 1;
            let s = to_signed(src, 2 * dst_bits);
            let r = narrowing_clip_spec(NarrowingClipOp::Nclip, dst_bits, src, shift, round).0;
            &&& r == wrap(clamp(s / p, lo, hi), dst_bits) || r == wrap(clamp(s / p + 1, lo, hi), dst_bits)
            &&& round == FixedPointRoundingMode::RoundDown ==> r == wrap(clamp(s / p, lo, hi), dst_bits)
        }),
{
    let sh = (shift % (2 * dst_bits) as int) as nat;
    lemma_round_near(src, sh, round);
    lemma_round_near(to_signed(src, 2 * dst_bits), sh, round);
    lemma_pow2_pos(sh);
    lemma_div_pos_is_pos(src, pow2(sh) as int);
}

} // verus!
