//! Element-level integer arithmetic of the vector extension: single-width
//! binary operations, multiply-add, widening and narrowing forms, carry and
//! borrow, and comparisons.

use vstd::prelude::*;
use vstd::arithmetic::power2::*;
use vstd::arithmetic::div_mod::*;
use crate::bits::{
    pow2_u128, valid_bits, wrap, to_signed, lemma_width_pow2, from_signed_i128, as_signed_i128,
    shift_amount,
};

verus! {

/// The single-width integer operations `op(vs2, vs1)`.
#[derive(Clone, Copy, Debug, PartialEq, Eq, Structural)]
pub enum IntegerOp {
    Add,
    Addu,
    Sub,
    Subu,
    /// `vrsub`: `vs1 - vs2`.
    RevSub,
    And,
    Or,
    Xor,
    Sll,
    Srl,
    Sra,
    Max,
    Maxu,
    Min,
    Minu,
    Mul,
    Mulh,
    Mulhu,
    Mulhsu,
    Div,
    Divu,
    Rem,
    Remu,
}

/// Division truncating toward zero.
pub open spec fn tdiv(x: int, y: int) -> int {
    let q = (if x < 0 { -x } else { x }) / (if y < 0 { -y } else { y });
    if (x < 0) != (y < 0) {
        -q
    } else {
        q
    }
}

/// The remainder of division truncating toward zero; it takes the sign of
/// the dividend.
pub open spec fn trem(x: int, y: int) -> int {
    let r = (if x < 0 { -x } else { x }) % (if y < 0 { -y } else { y });
    if x < 0 {
        -r
    } else {
        r
    }
}

/// The result of `op` on the `bits`-wide elements `a` (from `vs2`) and `b`
/// (from `vs1` or the scalar), as a `bits`-wide pattern.
pub open spec fn integer_binary_spec(op: IntegerOp, bits: nat, a: u64, b: u64) -> int {
    let m = pow2(bits) as int;
    let sa = to_signed(a as int, bits);
    let sb = to_signed(b as int, bits);
    let sh = (b as int % bits as int) as nat;
    match op {
        IntegerOp::Add | IntegerOp::Addu => wrap(a + b, bits),
        IntegerOp::Sub | IntegerOp::Subu => wrap(a - b, bits),
        IntegerOp::RevSub => wrap(b - a, bits),
        IntegerOp::And => (a & b) as int,
        IntegerOp::Or => (a | b) as int,
        IntegerOp::Xor => (a ^ b) as int,
        IntegerOp::Sll => wrap(a * pow2(sh), bits),
        IntegerOp::Srl => a as int / (pow2(sh) as int),
        IntegerOp::Sra => wrap(sa / (pow2(sh) as int), bits),
        IntegerOp::Max => if sa >= sb { a as int } else { b as int },
        IntegerOp::Maxu => if a >= b { a as int } else { b as int },
        IntegerOp::Min => if sa <= sb { a as int } else { b as int },
        IntegerOp::Minu => if a <= b { a as int } else { b as int },
        IntegerOp::Mul => wrap(a * b, bits),
        IntegerOp::Mulh => wrap((sa * sb) / m, bits),
        IntegerOp::Mulhu => (a * b) / m,
        IntegerOp::Mulhsu => wrap((sa * b) / m, bits),
        IntegerOp::Div => if b == 0 { m - 1 } else { wrap(tdiv(sa, sb), bits) },
        IntegerOp::Divu => if b == 0 { m - 1 } else { a as int / b as int },
        IntegerOp::Rem => if b == 0 { a as int } else { wrap(trem(sa, sb), bits) },
        IntegerOp::Remu => if b == 0 { a as int } else { a as int % b as int },
    }
}

/// Bitwise results of elements stay within the element width.
proof fn lemma_bitwise_bounds(a: u64, b: u64, bits: nat)
    requires
        valid_bits(bits),
        a < pow2(bits),
        b < pow2(bits),
    ensures
        (a & b) < pow2(bits),
        (a | b) < pow2(bits),
        (a ^ b) < pow2(bits),
{
    lemma_width_pow2(bits);
    if bits == 8 {
        assert(a < 0x100 && b < 0x100 ==> (a & b) < 0x100 && (a | b) < 0x100 && (a ^ b) < 0x100) by (bit_vector);
    } else if bits == 16 {
        assert(a < 0x1_0000 && b < 0x1_0000 ==> (a & b) < 0x1_0000 && (a | b) < 0x1_0000 && (a ^ b) < 0x1_0000) by (bit_vector);
    } else if bits == 32 {
        assert(a < 0x1_0000_0000 && b < 0x1_0000_0000 ==> (a & b) < 0x1_0000_0000 && (a | b) < 0x1_0000_0000 && (a ^ b) < 0x1_0000_0000) by (bit_vector);
    }
}

/// `x` divided by `2^shift`, rounding toward negative infinity.
pub fn floor_shift_right(x: i128, shift: u32) -> (r: i128)
    requires
        shift <= 64,
        x > i128::MIN,
    ensures
        r == x as int / (pow2(shift as nat) as int),
        shift >= 8 ==> -0x4000_0000_0000_0000_0000_0000_0000_0000 <= r <= 0x4000_0000_0000_0000_0000_0000_0000_0000,
{
    let p = pow2_u128(shift);
    proof {
        lemma_pow2_pos(shift as nat);
        lemma2_to64();
        lemma2_to64_rest();
        if shift < 64 {
            lemma_pow2_strictly_increases(shift as nat, 64);
        }
        if shift >= 8 {
            lemma_pow2_strictly_increases(7, shift as nat);
        }
    }
    let r = if x >= 0 {
        proof {
            lemma_div_is_ordered_by_denominator(x as int, 1, p as int);
        }
        ((x as u128) / p) as i128
    } else {
        let mag = (-x) as u128;
        let q = (mag + p - 1) / p;
        proof {
            let pi = p as int;
            let xi = x as int;
            lemma_fundamental_div_mod(xi, pi);
            lemma_mod_bound(xi, pi);
            let fq = xi / pi;
            let fr = xi % pi;
            assert(xi == pi * fq + fr);
            assert((mag as int + pi - 1) == pi * (-fq) + (pi - 1 - fr)) by (nonlinear_arith)
                requires
                    mag as int == -xi,
                    xi == pi * fq + fr,
            ;
            lemma_fundamental_div_mod_converse((mag as int + pi - 1), pi, -fq, pi - 1 - fr);
            assert(fq >= xi) by (nonlinear_arith)
                requires
                    xi == pi * fq + fr,
                    0 <= fr < pi,
                    pi >= 1,
                    xi < 0,
            ;
            assert(fq < 0) by (nonlinear_arith)
                requires
                    xi == pi * fq + fr,
                    0 <= fr < pi,
                    pi >= 1,
                    xi < 0,
            ;
        }
        -(q as i128)
    };
    proof {
        let pi = p as int;
        let xi = x as int;
        lemma_fundamental_div_mod(xi, pi);
        lemma_mod_bound(xi, pi);
        if shift >= 8 {
            assert(-0x4000_0000_0000_0000_0000_0000_0000_0000 <= xi / pi <= 0x4000_0000_0000_0000_0000_0000_0000_0000)
                by (nonlinear_arith)
                requires
                    xi == pi * (xi / pi) + xi % pi,
                    0 <= xi % pi < pi,
                    pi > 128,
                    pi <= 0x1_0000_0000_0000_0000,
                    -0x8000_0000_0000_0000_0000_0000_0000_0000 < xi < 0x8000_0000_0000_0000_0000_0000_0000_0000,
            ;
        }
    }
    r
}

/// `(a + b) mod 2^bits`.
fn add_elem(a: u64, b: u64, bits: u32) -> (r: u64)
    requires
        valid_bits(bits as nat),
        a < pow2(bits as nat),
        b < pow2(bits as nat),
    ensures
        r == wrap(a + b, bits as nat),
{
    proof {
        lemma_width_pow2(bits as nat);
    }
    let m = pow2_u128(bits);
    ((a as u128 + b as u128) % m) as u64
}

/// `(a - b) mod 2^bits`.
fn sub_elem(a: u64, b: u64, bits: u32) -> (r: u64)
    requires
        valid_bits(bits as nat),
        a < pow2(bits as nat),
        b < pow2(bits as nat),
    ensures
        r == wrap(a - b, bits as nat),
{
    proof {
        lemma_width_pow2(bits as nat);
        lemma_mod_add_multiples_vanish(a - b, pow2(bits as nat) as int);
    }
    let m = pow2_u128(bits);
    ((a as u128 + m - b as u128) % m) as u64
}

/// `a` shifted left by the low bits of `b`, within `bits` bits.
fn sll_elem(a: u64, b: u64, bits: u32) -> (r: u64)
    requires
        valid_bits(bits as nat),
        a < pow2(bits as nat),
    ensures
        r == wrap(a * pow2((b as int % bits as int) as nat), bits as nat),
{
    proof {
        lemma_width_pow2(bits as nat);
        lemma2_to64_rest();
    }
    let m = pow2_u128(bits);
    let sh = shift_amount(b, bits);
    let p = pow2_u128(sh);
    proof {
        if sh < 63 {
            lemma_pow2_strictly_increases(sh as nat, 63);
        }
        assert(a as u128 * p <= 0xffff_ffff_ffff_ffff * 0x8000_0000_0000_0000) by (nonlinear_arith)
            requires
                a <= 0xffff_ffff_ffff_ffff,
                p <= 0x8000_0000_0000_0000,
        ;
    }
    ((a as u128 * p) % m) as u64
}

/// `a` shifted right logically by the low bits of `b`.
fn srl_elem(a: u64, b: u64, bits: u32) -> (r: u64)
    requires
        valid_bits(bits as nat),
    ensures
        r == a as int / (pow2((b as int % bits as int) as nat) as int),
{
    let sh = shift_amount(b, bits);
    let p = pow2_u128(sh);
    proof {
        lemma_pow2_pos(sh as nat);
        lemma_div_is_ordered_by_denominator(a as int, 1, p as int);
    }
    (a as u128 / p) as u64
}

/// The `bits`-wide element `a` shifted right arithmetically by the low bits
/// of `b`.
fn sra_elem(a: u64, b: u64, bits: u32) -> (r: u64)
    requires
        valid_bits(bits as nat),
        a < pow2(bits as nat),
    ensures
        r == wrap(to_signed(a as int, bits as nat) / (pow2((b as int % bits as int) as nat) as int), bits as nat),
{
    proof {
        lemma_width_pow2(bits as nat);
        lemma2_to64_rest();
    }
    let sh = shift_amount(b, bits);
    let sa = as_signed_i128(a, bits);
    let q = floor_shift_right(sa, sh);
    proof {
        lemma_pow2_pos(sh as nat);
        if sa >= 0 {
            lemma_div_is_ordered_by_denominator(sa as int, 1, pow2(sh as nat) as int);
            lemma_div_pos_is_pos(sa as int, pow2(sh as nat) as int);
        } else {
            let p = pow2(sh as nat) as int;
            let fq = sa as int / p;
            let fr = sa as int % p;
            lemma_fundamental_div_mod(sa as int, p);
            lemma_mod_bound(sa as int, p);
            assert(fq >= sa && fq < 0) by (nonlinear_arith)
                requires
                    sa == p * fq + fr,
                    0 <= fr < p,
                    p >= 1,
                    sa < 0,
            ;
        }
    }
    from_signed_i128(q, bits)
}

/// The low `bits` bits of the product.
fn mul_elem(a: u64, b: u64, bits: u32) -> (r: u64)
    requires
        valid_bits(bits as nat),
    ensures
        r == wrap(a * b, bits as nat),
{
    proof {
        lemma_width_pow2(bits as nat);
        assert(a as u128 * b as u128 <= 0xffff_ffff_ffff_ffff * 0xffff_ffff_ffff_ffff) by (nonlinear_arith)
            requires
                a <= 0xffff_ffff_ffff_ffff,
                b <= 0xffff_ffff_ffff_ffff,
        ;
    }
    let m = pow2_u128(bits);
    ((a as u128 * b as u128) % m) as u64
}

/// The high `bits` bits of the unsigned product.
fn mulhu_elem(a: u64, b: u64, bits: u32) -> (r: u64)
    requires
        valid_bits(bits as nat),
        a < pow2(bits as nat),
        b < pow2(bits as nat),
    ensures
        r == (a * b) / (pow2(bits as nat) as int),
        r < pow2(bits as nat),
{
    proof {
        lemma_width_pow2(bits as nat);
    }
    let m = pow2_u128(bits);
    proof {
        assert(a as u128 * b as u128 <= 0xffff_ffff_ffff_ffff * 0xffff_ffff_ffff_ffff) by (nonlinear_arith)
            requires
                a <= 0xffff_ffff_ffff_ffff,
                b <= 0xffff_ffff_ffff_ffff,
        ;
        assert(a * b < m * m) by (nonlinear_arith)
            requires
                a < m,
                b < m,
        ;
        lemma_multiply_divide_lt(a as int * b as int, m as int, m as int);
    }
    ((a as u128 * b as u128) / m) as u64
}

/// The high `bits` bits of the product of the signed `a` with `b`, which is
/// signed too when `b_signed` holds.
fn mulh_elem(a: u64, b: u64, bits: u32, b_signed: bool) -> (r: u64)
    requires
        valid_bits(bits as nat),
        a < pow2(bits as nat),
        b < pow2(bits as nat),
    ensures
        r == wrap(
            (to_signed(a as int, bits as nat) * (if b_signed { to_signed(b as int, bits as nat) } else { b as int }))
                / (pow2(bits as nat) as int),
            bits as nat,
        ),
{
    proof {
        lemma_width_pow2(bits as nat);
        lemma2_to64_rest();
    }
    let sa = as_signed_i128(a, bits);
    let sb = if b_signed { as_signed_i128(b, bits) } else { b as i128 };
    proof {
        assert(-0x8000_0000_0000_0000_0000_0000_0000_0000 < sa * sb < 0x8000_0000_0000_0000_0000_0000_0000_0000)
            by (nonlinear_arith)
            requires
                -0x8000_0000_0000_0000 <= sa < 0x8000_0000_0000_0000,
                -0x8000_0000_0000_0000 <= sb < 0x1_0000_0000_0000_0000,
        ;
    }
    let product = sa * sb;
    let q = floor_shift_right(product, bits);
    from_signed_i128(q, bits)
}

/// Signed division or remainder of nonzero-divisor elements, truncating
/// toward zero.
fn signed_div_rem_elem(a: u64, b: u64, bits: u32, remainder: bool) -> (r: u64)
    requires
        valid_bits(bits as nat),
        a < pow2(bits as nat),
        b < pow2(bits as nat),
        b != 0,
    ensures
        r == wrap(
            if remainder {
                trem(to_signed(a as int, bits as nat), to_signed(b as int, bits as nat))
            } else {
                tdiv(to_signed(a as int, bits as nat), to_signed(b as int, bits as nat))
            },
            bits as nat,
        ),
{
    proof {
        lemma_width_pow2(bits as nat);
        lemma2_to64_rest();
    }
    let sa = as_signed_i128(a, bits);
    let sb = as_signed_i128(b, bits);
    let ma: u128 = if sa < 0 { (-sa) as u128 } else { sa as u128 };
    let mb: u128 = if sb < 0 { (-sb) as u128 } else { sb as u128 };
    proof {
        lemma_div_is_ordered_by_denominator(ma as int, 1, mb as int);
        lemma_mod_bound(ma as int, mb as int);
    }
    if !remainder {
        let q = (ma / mb) as i128;
        let sq = if (sa < 0) != (sb < 0) { -q } else { q };
        from_signed_i128(sq, bits)
    } else {
        let rm = (ma % mb) as i128;
        let sr = if sa < 0 { -rm } else { rm };
        from_signed_i128(sr, bits)
    }
}

/// Every single-width result is a `bits`-wide pattern.
pub proof fn lemma_integer_binary_bound(op: IntegerOp, bits: nat, a: u64, b: u64)
    requires
        valid_bits(bits),
        a < pow2(bits),
        b < pow2(bits),
    ensures
        0 <= integer_binary_spec(op, bits, a, b) < pow2(bits),
{
    let m = pow2(bits) as int;
    lemma_width_pow2(bits);
    lemma_bitwise_bounds(a, b, bits);
    let sh = (b as int % bits as int) as nat;
    lemma_pow2_pos(sh);
    match op {
        IntegerOp::Add | IntegerOp::Addu => lemma_mod_bound(a + b, m),
        IntegerOp::Sub | IntegerOp::Subu => lemma_mod_bound(a - b, m),
        IntegerOp::RevSub => lemma_mod_bound(b - a, m),
        IntegerOp::Sll => lemma_mod_bound(a * pow2(sh), m),
        IntegerOp::Srl => {
            lemma_div_is_ordered_by_denominator(a as int, 1, pow2(sh) as int);
            lemma_div_pos_is_pos(a as int, pow2(sh) as int);
        },
        IntegerOp::Sra => lemma_mod_bound(to_signed(a as int, bits) / (pow2(sh) as int), m),
        IntegerOp::Mul => lemma_mod_bound(a * b, m),
        IntegerOp::Mulh => lemma_mod_bound((to_signed(a as int, bits) * to_signed(b as int, bits)) / m, m),
        IntegerOp::Mulhu => {
            assert(a * b < m * m) by (nonlinear_arith)
                requires
                    a < m,
                    b < m,
            ;
            assert(a * b >= 0) by (nonlinear_arith)
                requires
                    a >= 0,
                    b >= 0,
            ;
            lemma_multiply_divide_lt(a * b, m, m);
            lemma_div_pos_is_pos(a * b, m);
        },
        IntegerOp::Mulhsu => lemma_mod_bound((to_signed(a as int, bits) * b) / m, m),
        IntegerOp::Div => {
            if b != 0 {
                lemma_mod_bound(tdiv(to_signed(a as int, bits), to_signed(b as int, bits)), m);
            }
        },
        IntegerOp::Divu => {
            if b != 0 {
                lemma_div_is_ordered_by_denominator(a as int, 1, b as int);
                lemma_div_pos_is_pos(a as int, b as int);
            }
        },
        IntegerOp::Rem => {
            if b != 0 {
                lemma_mod_bound(trem(to_signed(a as int, bits), to_signed(b as int, bits)), m);
            }
        },
        IntegerOp::Remu => {
            if b != 0 {
                lemma_mod_bound(a as int, b as int);
            }
        },
        _ => {},
    }
}

/// The result of `op` on the `bits`-wide elements `vs2` and `vs1`.
pub fn integer_binary(op: IntegerOp, bits: u32, vs2: u64, vs1: u64) -> (r: u64)
    requires
        valid_bits(bits as nat),
        vs2 < pow2(bits as nat),
        vs1 < pow2(bits as nat),
    ensures
        r == integer_binary_spec(op, bits as nat, vs2, vs1),
        r < pow2(bits as nat),
{
    proof {
        lemma_width_pow2(bits as nat);
        lemma_bitwise_bounds(vs2, vs1, bits as nat);
        lemma_integer_binary_bound(op, bits as nat, vs2, vs1);
    }
    match op {
        IntegerOp::Add | IntegerOp::Addu => add_elem(vs2, vs1, bits),
        IntegerOp::Sub | IntegerOp::Subu => sub_elem(vs2, vs1, bits),
        IntegerOp::RevSub => sub_elem(vs1, vs2, bits),
        IntegerOp::And => vs2 & vs1,
        IntegerOp::Or => vs2 | vs1,
        IntegerOp::Xor => vs2 ^ vs1,
        IntegerOp::Sll => sll_elem(vs2, vs1, bits),
        IntegerOp::Srl => srl_elem(vs2, vs1, bits),
        IntegerOp::Sra => sra_elem(vs2, vs1, bits),
        IntegerOp::Max => {
            let sa = as_signed_i128(vs2, bits);
            let sb = as_signed_i128(vs1, bits);
            if sa >= sb { vs2 } else { vs1 }
        },
        IntegerOp::Maxu => if vs2 >= vs1 { vs2 } else { vs1 },
        IntegerOp::Min => {
            let sa = as_signed_i128(vs2, bits);
            let sb = as_signed_i128(vs1, bits);
            if sa <= sb { vs2 } else { vs1 }
        },
        IntegerOp::Minu => if vs2 <= vs1 { vs2 } else { vs1 },
        IntegerOp::Mul => mul_elem(vs2, vs1, bits),
        IntegerOp::Mulh => mulh_elem(vs2, vs1, bits, true),
        IntegerOp::Mulhu => mulhu_elem(vs2, vs1, bits),
        IntegerOp::Mulhsu => mulh_elem(vs2, vs1, bits, false),
        IntegerOp::Div => if vs1 == 0 { (pow2_u128(bits) - 1) as u64 } else { signed_div_rem_elem(vs2, vs1, bits, false) },
        IntegerOp::Divu => if vs1 == 0 { (pow2_u128(bits) - 1) as u64 } else { vs2 / vs1 },
        IntegerOp::Rem => if vs1 == 0 { vs2 } else { signed_div_rem_elem(vs2, vs1, bits, true) },
        IntegerOp::Remu => if vs1 == 0 { vs2 } else { vs2 % vs1 },
    }
}


/// The single-width multiply-add operations on `(vs2, vs1, vd)`.
#[derive(Clone, Copy, Debug, PartialEq, Eq, Structural)]
pub enum MultiplyAddOp {
    /// `vmacc`: `vs1 * vs2 + vd`.
    Macc,
    /// `vnmsac`: `-(vs1 * vs2) + vd`.
    Nmsac,
    /// `vmadd`: `vs1 * vd + vs2`.
    Madd,
    /// `vnmsub`: `-(vs1 * vd) + vs2`.
    Nmsub,
}

/// The result of a multiply-add on `bits`-wide elements.
pub open spec fn multiply_add_spec(op: MultiplyAddOp, bits: nat, vs2: int, vs1: int, vd: int) -> int {
    match op {
        MultiplyAddOp::Macc => wrap(vs1 * vs2 + vd, bits),
        MultiplyAddOp::Nmsac => wrap(vd - vs1 * vs2, bits),
        MultiplyAddOp::Madd => wrap(vs1 * vd + vs2, bits),
        MultiplyAddOp::Nmsub => wrap(vs2 - vs1 * vd, bits),
    }
}

/// One multiply-add on the `bits`-wide elements `vs2`, `vs1` and `vd`.
pub fn multiply_add(op: MultiplyAddOp, bits: u32, vs2: u64, vs1: u64, vd: u64) -> (r: u64)
    requires
        valid_bits(bits as nat),
        vs2 < pow2(bits as nat),
        vs1 < pow2(bits as nat),
        vd < pow2(bits as nat),
    ensures
        r == multiply_add_spec(op, bits as nat, vs2 as int, vs1 as int, vd as int),
{
    proof {
        lemma_width_pow2(bits as nat);
    }
    let (factor, addend) = match op {
        MultiplyAddOp::Macc | MultiplyAddOp::Nmsac => (vs2, vd),
        MultiplyAddOp::Madd | MultiplyAddOp::Nmsub => (vd, vs2),
    };
    let product = mul_elem(vs1, factor, bits);
    proof {
        lemma_mod_bound(vs1 * factor, pow2(bits as nat) as int);
    }
    match op {
        MultiplyAddOp::Macc | MultiplyAddOp::Madd => {
            let r = add_elem(product, addend, bits);
            proof {
                lemma_add_mod_noop(vs1 * factor, addend as int, pow2(bits as nat) as int);
                lemma_mod_twice(addend as int, pow2(bits as nat) as int);
                lemma_small_mod(addend as nat, pow2(bits as nat));
            }
            r
        },
        MultiplyAddOp::Nmsac | MultiplyAddOp::Nmsub => {
            let r = sub_elem(addend, product, bits);
            proof {
                lemma_sub_mod_noop(addend as int, vs1 * factor, pow2(bits as nat) as int);
                lemma_small_mod(addend as nat, pow2(bits as nat));
            }
            r
        },
    }
}

/// How the two source elements of a widening operation are extended:
/// `vs2` first, then `vs1` (or the scalar).
#[derive(Clone, Copy, Debug, PartialEq, Eq, Structural)]
pub enum WideningSign {
    Signed,
    Unsigned,
    /// `vs2` signed, `vs1` unsigned.
    SignedUnsigned,
    /// `vs2` unsigned, `vs1` signed.
    UnsignedSigned,
}

/// The widening arithmetic operations.
#[derive(Clone, Copy, Debug, PartialEq, Eq, Structural)]
pub enum WideningOp {
    Add,
    Sub,
    Mul,
}

/// `a` extended from `bits` bits, as a signed or an unsigned value.
pub open spec fn extend(a: int, bits: nat, signed: bool) -> int {
    if signed {
        to_signed(a, bits)
    } else {
        a
    }
}

/// Whether `vs2` is extended as signed under the given sign kind.
pub open spec fn vs2_signed(sign: WideningSign) -> bool {
    sign == WideningSign::Signed || sign == WideningSign::SignedUnsigned
}

/// Whether `vs1` is extended as signed under the given sign kind.
pub open spec fn vs1_signed(sign: WideningSign) -> bool {
    sign == WideningSign::Signed || sign == WideningSign::UnsignedSigned
}

/// The `2 * bits`-wide result of a widening operation on already extended
/// operands.
pub open spec fn widening_apply(op: WideningOp, bits: nat, a: int, b: int) -> int {
    match op {
        WideningOp::Add => wrap(a + b, 2 * bits),
        WideningOp::Sub => wrap(a - b, 2 * bits),
        WideningOp::Mul => wrap(a * b, 2 * bits),
    }
}

/// `a` extended from `bits` bits to a full integer.
fn extend_elem(a: u64, bits: u32, signed: bool) -> (r: i128)
    requires
        valid_bits(bits as nat),
        a < pow2(bits as nat),
    ensures
        r == extend(a as int, bits as nat, signed),
        -0x8000_0000_0000_0000 <= r < 0x1_0000_0000_0000_0000,
        -(pow2((bits - 1) as nat) as int) <= r < pow2(bits as nat),
{
    proof {
        lemma_width_pow2(bits as nat);
        lemma2_to64_rest();
    }
    if signed {
        as_signed_i128(a, bits)
    } else {
        a as i128
    }
}

/// A widening operation on extended operands `a` and `b` of width `bits`,
/// wrapped to `2 * bits` bits.
pub fn widening_apply_exec(op: WideningOp, bits: u32, a: i128, b: i128) -> (r: u64)
    requires
        bits == 8 || bits == 16 || bits == 32,
        -0x8000_0000_0000_0000 <= a < 0x1_0000_0000_0000_0000,
        -0x8000_0000_0000_0000 <= b < 0x1_0000_0000_0000_0000,
        op == WideningOp::Mul ==> -0x8000_0000 <= a < 0x1_0000_0000 && -0x8000_0000 <= b < 0x1_0000_0000,
    ensures
        r < pow2(2 * bits as nat),
        r == widening_apply(op, bits as nat, a as int, b as int),
{
    proof {
        lemma_width_pow2((2 * bits) as nat);
    }
    match op {
        WideningOp::Add => from_signed_i128(a + b, 2 * bits),
        WideningOp::Sub => from_signed_i128(a - b, 2 * bits),
        WideningOp::Mul => {
            assert(-0x4000_0000_0000_0000_0000_0000_0000_0000 <= a * b <= 0x4000_0000_0000_0000_0000_0000_0000_0000)
                by (nonlinear_arith)
                requires
                    -0x8000_0000 <= a < 0x1_0000_0000,
                    -0x8000_0000 <= b < 0x1_0000_0000,
            ;
            from_signed_i128(a * b, 2 * bits)
        },
    }
}

/// One widening operation on the `bits`-wide elements `vs2` and `vs1`.
pub fn widening_binary(op: WideningOp, sign: WideningSign, bits: u32, vs2: u64, vs1: u64) -> (r: u64)
    requires
        bits == 8 || bits == 16 || bits == 32,
        vs2 < pow2(bits as nat),
        vs1 < pow2(bits as nat),
    ensures
        r < pow2(2 * bits as nat),
        r == widening_apply(
            op,
            bits as nat,
            extend(vs2 as int, bits as nat, vs2_signed(sign)),
            extend(vs1 as int, bits as nat, vs1_signed(sign)),
        ),
{
    let a = extend_elem(vs2, bits, sign == WideningSign::Signed || sign == WideningSign::SignedUnsigned);
    let b = extend_elem(vs1, bits, sign == WideningSign::Signed || sign == WideningSign::UnsignedSigned);
    proof {
        lemma_width_pow2(bits as nat);
        lemma2_to64();
    }
    widening_apply_exec(op, bits, a, b)
}

/// One widening operation on the `2 * bits`-wide element `vs2` and the
/// `bits`-wide element `vs1`, extended as signed when `signed` holds.
pub fn widening_wide_binary(op: WideningOp, signed: bool, bits: u32, vs2: u64, vs1: u64) -> (r: u64)
    requires
        bits == 8 || bits == 16 || bits == 32,
        op != WideningOp::Mul,
        vs2 < pow2(2 * bits as nat),
        vs1 < pow2(bits as nat),
    ensures
        r < pow2(2 * bits as nat),
        r == widening_apply(
            op,
            bits as nat,
            extend(vs2 as int, 2 * bits as nat, signed),
            extend(vs1 as int, bits as nat, signed),
        ),
{
    let a = extend_elem(vs2, 2 * bits, signed);
    let b = extend_elem(vs1, bits, signed);
    widening_apply_exec(op, bits, a, b)
}

/// One widening multiply-add: `ext(vs1) * ext(vs2) + vd`, wrapped to
/// `2 * bits` bits.
pub fn widening_multiply_add(sign: WideningSign, bits: u32, vs2: u64, vs1: u64, vd: u64) -> (r: u64)
    requires
        bits == 8 || bits == 16 || bits == 32,
        vs2 < pow2(bits as nat),
        vs1 < pow2(bits as nat),
        vd < pow2(2 * bits as nat),
    ensures
        r < pow2(2 * bits as nat),
        r == wrap(
            extend(vs1 as int, bits as nat, vs1_signed(sign)) * extend(vs2 as int, bits as nat, vs2_signed(sign))
                + vd,
            2 * bits as nat,
        ),
{
    proof {
        lemma_width_pow2(bits as nat);
        lemma_width_pow2((2 * bits) as nat);
        lemma2_to64_rest();
    }
    let a = extend_elem(vs2, bits, sign == WideningSign::Signed || sign == WideningSign::SignedUnsigned);
    let b = extend_elem(vs1, bits, sign == WideningSign::Signed || sign == WideningSign::UnsignedSigned);
    assert(-0x1_0000_0000_0000_0000_0000_0000 <= b * a <= 0x1_0000_0000_0000_0000_0000_0000)
        by (nonlinear_arith)
        requires
            -0x8000_0000 <= a < 0x1_0000_0000,
            -0x8000_0000 <= b < 0x1_0000_0000,
    {
    }
    from_signed_i128(b * a + vd as i128, 2 * bits)
}

/// The narrowing integer shifts.
#[derive(Clone, Copy, Debug, PartialEq, Eq, Structural)]
pub enum NarrowingShiftOp {
    /// `vnsrl`: logical.
    Nsrl,
    /// `vnsra`: arithmetic.
    Nsra,
}

/// The `dst_bits`-wide result of shifting the `2 * dst_bits`-wide `src`
/// right by the low `log2(dst_bits)` bits of `shift`.
pub open spec fn narrowing_shift_spec(op: NarrowingShiftOp, dst_bits: nat, src: int, shift: int) -> int {
    let sh = (shift % dst_bits as int) as nat;
    match op {
        NarrowingShiftOp::Nsrl => wrap(src / (pow2(sh) as int), dst_bits),
        NarrowingShiftOp::Nsra => wrap(to_signed(src, 2 * dst_bits) / (pow2(sh) as int), dst_bits),
    }
}

/// One narrowing shift of the `2 * dst_bits`-wide element `src`.
pub fn narrowing_shift(op: NarrowingShiftOp, dst_bits: u32, src: u64, shift: u64) -> (r: u64)
    requires
        dst_bits == 8 || dst_bits == 16 || dst_bits == 32,
        src < pow2(2 * dst_bits as nat),
    ensures
        r < pow2(dst_bits as nat),
        r == narrowing_shift_spec(op, dst_bits as nat, src as int, shift as int),
{
    proof {
        lemma_width_pow2(dst_bits as nat);
        lemma_width_pow2((2 * dst_bits) as nat);
        lemma2_to64_rest();
    }
    let sh = shift_amount(shift, dst_bits);
    let value: i128 = match op {
        NarrowingShiftOp::Nsrl => src as i128,
        NarrowingShiftOp::Nsra => as_signed_i128(src, 2 * dst_bits),
    };
    let q = floor_shift_right(value, sh);
    proof {
        lemma_pow2_pos(sh as nat);
        let p = pow2(sh as nat) as int;
        lemma_fundamental_div_mod(value as int, p);
        lemma_mod_bound(value as int, p);
        let fq = value as int / p;
        assert(-0x8000_0000_0000_0000 <= fq < 0x1_0000_0000_0000_0000) by (nonlinear_arith)
            requires
                value == p * fq + value as int % p,
                0 <= value as int % p < p,
                p >= 1,
                -0x8000_0000_0000_0000 <= value < 0x1_0000_0000_0000_0000,
        ;
    }
    from_signed_i128(q, dst_bits)
}

/// `a + b + carry`, wrapped to `bits` bits.
pub fn add_with_carry(a: u64, b: u64, carry: bool, bits: u32) -> (r: u64)
    requires
        valid_bits(bits as nat),
        a < pow2(bits as nat),
        b < pow2(bits as nat),
    ensures
        r == wrap(a + b + (if carry { 1int } else { 0int }), bits as nat),
{
    proof {
        lemma_width_pow2(bits as nat);
    }
    let m = pow2_u128(bits);
    let c: u128 = if carry { 1 } else { 0 };
    ((a as u128 + b as u128 + c) % m) as u64
}

/// `a - b - borrow`, wrapped to `bits` bits.
pub fn sub_with_borrow(a: u64, b: u64, borrow: bool, bits: u32) -> (r: u64)
    requires
        valid_bits(bits as nat),
        a < pow2(bits as nat),
        b < pow2(bits as nat),
    ensures
        r == wrap(a - b - (if borrow { 1int } else { 0int }), bits as nat),
{
    proof {
        lemma_width_pow2(bits as nat);
        let c: int = if borrow { 1 } else { 0 };
        lemma_mod_multiples_vanish(2, a - b - c, pow2(bits as nat) as int);
    }
    let m = pow2_u128(bits);
    let c: u128 = if borrow { 1 } else { 0 };
    ((a as u128 + 2 * m - b as u128 - c) % m) as u64
}

/// Whether `a + b + carry` carries out of `bits` bits.
pub fn carry_out(a: u64, b: u64, carry: bool, bits: u32) -> (r: bool)
    requires
        valid_bits(bits as nat),
    ensures
        r == (a + b + (if carry { 1int } else { 0int }) >= pow2(bits as nat)),
{
    proof {
        lemma_width_pow2(bits as nat);
    }
    let m = pow2_u128(bits);
    let c: u128 = if carry { 1 } else { 0 };
    a as u128 + b as u128 + c >= m
}

/// Whether `a - b - borrow` borrows.
pub fn borrow_out(a: u64, b: u64, borrow: bool) -> (r: bool)
    ensures
        r == (a < b + (if borrow { 1int } else { 0int })),
{
    let c: u128 = if borrow { 1 } else { 0 };
    (a as u128) < (b as u128) + c
}

/// The comparisons that produce mask bits, as `op(vs2, vs1)`.
#[derive(Clone, Copy, Debug, PartialEq, Eq, Structural)]
pub enum CompareOp {
    Eq,
    Ne,
    Ltu,
    Lt,
    Leu,
    Le,
    /// `vmsgtu` with a scalar: the scalar is greater than `vs2`.
    Gtu,
    /// `vmsgt` with a scalar: the scalar is greater than `vs2`, signed.
    Gt,
}

/// The mask bit of a comparison of the `bits`-wide elements `a` (from `vs2`)
/// and `b` (from `vs1` or the scalar).
pub open spec fn compare_spec(op: CompareOp, bits: nat, a: int, b: int) -> bool {
    let sa = to_signed(a, bits);
    let sb = to_signed(b, bits);
    match op {
        CompareOp::Eq => a == b,
        CompareOp::Ne => a != b,
        CompareOp::Ltu => a < b,
        CompareOp::Lt => sa < sb,
        CompareOp::Leu => a <= b,
        CompareOp::Le => sa <= sb,
        CompareOp::Gtu => b > a,
        CompareOp::Gt => sb > sa,
    }
}

/// One comparison of the `bits`-wide elements `vs2` and `vs1`.
pub fn compare(op: CompareOp, bits: u32, vs2: u64, vs1: u64) -> (r: bool)
    requires
        valid_bits(bits as nat),
        vs2 < pow2(bits as nat),
        vs1 < pow2(bits as nat),
    ensures
        r == compare_spec(op, bits as nat, vs2 as int, vs1 as int),
{
    match op {
        CompareOp::Eq => vs2 == vs1,
        CompareOp::Ne => vs2 != vs1,
        CompareOp::Ltu => vs2 < vs1,
        CompareOp::Leu => vs2 <= vs1,
        CompareOp::Gtu => vs1 > vs2,
        CompareOp::Lt => as_signed_i128(vs2, bits) < as_signed_i128(vs1, bits),
        CompareOp::Le => as_signed_i128(vs2, bits) <= as_signed_i128(vs1, bits),
        CompareOp::Gt => as_signed_i128(vs1, bits) > as_signed_i128(vs2, bits),
    }
}

/// The `dst_bits`-wide zero or sign extension of the `src_bits`-wide `a`.
pub fn extend_to(a: u64, src_bits: u32, dst_bits: u32, signed: bool) -> (r: u64)
    requires
        valid_bits(src_bits as nat),
        valid_bits(dst_bits as nat),
        src_bits < dst_bits,
        a < pow2(src_bits as nat),
    ensures
        r == wrap(extend(a as int, src_bits as nat, signed), dst_bits as nat),
        r < pow2(dst_bits as nat),
{
    proof {
        lemma_width_pow2(src_bits as nat);
        lemma_width_pow2(dst_bits as nat);
        lemma2_to64_rest();
    }
    let v = extend_elem(a, src_bits, signed);
    from_signed_i128(v, dst_bits)
}


/// The operations that read one bit of a mask register per element: add
/// with carry, subtract with borrow, and merge.
#[derive(Clone, Copy, Debug, PartialEq, Eq, Structural)]
pub enum CarryOp {
    /// `vadc`: `vs2 + vs1 + carry`.
    Adc,
    /// `vsbc`: `vs2 - vs1 - borrow`.
    Sbc,
    /// `vmerge`: `vs1` where the bit is set, `vs2` elsewhere.
    Merge,
}

/// The `bits`-wide result of `op` on `vs2`, `vs1` and the mask bit `c`.
pub open spec fn carry_op_spec(op: CarryOp, bits: nat, vs2: int, vs1: int, c: bool) -> int {
    let ci: int = if c { 1 } else { 0 };
    match op {
        CarryOp::Adc => wrap(vs2 + vs1 + ci, bits),
        CarryOp::Sbc => wrap(vs2 - vs1 - ci, bits),
        CarryOp::Merge => if c { vs1 } else { vs2 },
    }
}

/// One carry operation on the `bits`-wide elements `vs2` and `vs1`.
pub fn carry_op(op: CarryOp, bits: u32, vs2: u64, vs1: u64, c: bool) -> (r: u64)
    requires
        valid_bits(bits as nat),
        vs2 < pow2(bits as nat),
        vs1 < pow2(bits as nat),
    ensures
        r == carry_op_spec(op, bits as nat, vs2 as int, vs1 as int, c),
        r < pow2(bits as nat),
{
    proof {
        lemma_pow2_pos(bits as nat);
    }
    match op {
        CarryOp::Adc => add_with_carry(vs2, vs1, c, bits),
        CarryOp::Sbc => sub_with_borrow(vs2, vs1, c, bits),
        CarryOp::Merge => if c { vs1 } else { vs2 },
    }
}

/// The operations that produce one mask bit per element.
#[derive(Clone, Copy, Debug, PartialEq, Eq, Structural)]
pub enum MaskOp {
    /// `vmadc`: the carry out of `vs2 + vs1 (+ carry)`.
    Madc,
    /// `vmsbc`: the borrow out of `vs2 - vs1 (- borrow)`.
    Msbc,
    /// An integer comparison; it reads no carry.
    Compare(CompareOp),
}

/// The mask bit of `op` on the `bits`-wide `vs2`, `vs1` and the carry `c`.
pub open spec fn mask_op_spec(op: MaskOp, bits: nat, vs2: int, vs1: int, c: bool) -> bool {
    let ci: int = if c { 1 } else { 0 };
    match op {
        MaskOp::Madc => vs2 + vs1 + ci >= pow2(bits),
        MaskOp::Msbc => vs2 < vs1 + ci,
        MaskOp::Compare(rel) => compare_spec(rel, bits, vs2, vs1),
    }
}

/// One mask-producing operation on the `bits`-wide elements `vs2` and `vs1`.
pub fn mask_op(op: MaskOp, bits: u32, vs2: u64, vs1: u64, c: bool) -> (r: bool)
    requires
        valid_bits(bits as nat),
        vs2 < pow2(bits as nat),
        vs1 < pow2(bits as nat),
    ensures
        r == mask_op_spec(op, bits as nat, vs2 as int, vs1 as int, c),
{
    match op {
        MaskOp::Madc => carry_out(vs2, vs1, c, bits),
        MaskOp::Msbc => borrow_out(vs2, vs1, c),
        MaskOp::Compare(rel) => compare(rel, bits, vs2, vs1),
    }
}

/// What each element operation gives on `bits`-wide elements, with `sa` and
/// `sb` the two's complement values: sums, differences and products wrap at
/// `2^bits`, `vrsub` subtracts the other way, the maxima and minima pick
/// one of the two operands that is not below (not above) the other in the
/// signed or unsigned order, the high multiplies give the upper half of the
/// double-width product, shifts take their amount from the low bits of `b`,
/// and a division by zero gives all ones and its remainder the dividend.
pub proof fn law_element_operations(op: IntegerOp, bits: nat, a: u64, b: u64)
    requires
        bits == 8 || bits == 16 || bits == 32 || bits == 64,
        a < pow2(bits),
        b < pow2(bits),
    ensures
        ({
            let m = pow2(bits) as int;
            let sa = to_signed(a as int, bits);
            let sb = to_signed(b as int, bits);
            let p = pow2((b as int % bits as int) as nat) as int;
            let r = integer_binary_spec(op, bits, a, b);
            match op {
                IntegerOp::Add | IntegerOp::Addu => r == (a + b) % m,
                IntegerOp::Sub | IntegerOp::Subu => r == (a - b) % m,
                IntegerOp::RevSub => r == (b - a) % m,
                IntegerOp::And => r == (a & b) as int,
                IntegerOp::Or => r == (a | b) as int,
                IntegerOp::Xor => r == (a ^ b) as int,
                IntegerOp::Sll => r == (a * p) % m,
                IntegerOp::Srl => r == (a as int) / p,
                IntegerOp::Sra => r == (sa / p) % m,
                IntegerOp::Max => (r == a || r == b) && to_signed(r, bits) >= sa && to_signed(r, bits) >= sb,
                IntegerOp::Maxu => (r == a || r == b) && r >= a && r >= b,
                IntegerOp::Min => (r == a || r == b) && to_signed(r, bits) <= sa && to_signed(r, bits) <= sb,
                IntegerOp::Minu => (r == a || r == b) && r <= a && r <= b,
                IntegerOp::Mul => r == (a * b) % m,
                IntegerOp::Mulh => r == (sa * sb / m) % m,
                IntegerOp::Mulhu => r == a * b / m,
                IntegerOp::Mulhsu => r == (sa * b / m) % m,
                IntegerOp::Div => r == (if b == 0 { m - 1 } else { tdiv(sa, sb) % m }),
                IntegerOp::Divu => r == (if b == 0 { m - 1 } else { (a as int) / (b as int) }),
                IntegerOp::Rem => r == (if b == 0 { a as int } else { trem(sa, sb) % m }),
                IntegerOp::Remu => r == (if b == 0 { a as int } else { (a as int) % (b as int) }),
            }
        }),
{
}

} // verus!
