//! Text built character by character: decimal and hexadecimal numbers,
//! padding, and the conversion of the characters into a `String`.

use vstd::prelude::*;
use vstd::string::*;

verus! {

/// The character of digit `d`, lowercase for `d` from ten on.
pub open spec fn digit_char(d: nat) -> char {
    if d < 10 {
        (d + 48) as char
    } else {
        (d + 87) as char
    }
}

/// The decimal digits of `v`, without leading zeros.
pub open spec fn dec_spec(v: nat) -> Seq<char>
    decreases v,
{
    if v < 10 {
        seq![digit_char(v)]
    } else {
        dec_spec(v / 10).push(digit_char(v % 10))
    }
}

/// The lowercase hexadecimal digits of `v`, without leading zeros.
pub open spec fn hex_digits(v: nat) -> Seq<char>
    decreases v,
{
    if v < 16 {
        seq![digit_char(v)]
    } else {
        hex_digits(v / 16).push(digit_char(v % 16))
    }
}

/// `n` copies of `c`.
pub open spec fn fill(c: char, n: int) -> Seq<char> {
    Seq::new(if n > 0 { n as nat } else { 0 }, |_i: int| c)
}

/// `v` in lowercase hexadecimal, zero-padded to `width` digits.
pub open spec fn hex_spec(v: nat, width: nat) -> Seq<char> {
    fill('0', width - hex_digits(v).len()) + hex_digits(v)
}

/// `s` followed by spaces up to `width` characters.
pub open spec fn pad_right(s: Seq<char>, width: nat) -> Seq<char> {
    s + fill(' ', width - s.len())
}

/// `s` after spaces up to `width` characters.
pub open spec fn pad_left(s: Seq<char>, width: nat) -> Seq<char> {
    fill(' ', width - s.len()) + s
}

/// The character of digit `d`, as `digit_char` says.
fn digit(d: u64) -> (r: char)
    requires
        d < 16,
    ensures
        r == digit_char(d as nat),
{
    if d < 10 {
        ((d + 48) as u8) as char
    } else {
        ((d + 87) as u8) as char
    }
}

/// The decimal digits of `v`, as `dec_spec` says.
pub fn dec_chars(v: u64) -> (r: Vec<char>)
    ensures
        r@ == dec_spec(v as nat),
    decreases v,
{
    if v < 10 {
        let mut r = Vec::new();
        r.push(digit(v));
        proof {
            assert(r@ =~= seq![digit_char(v as nat)]);
        }
        r
    } else {
        let mut r = dec_chars(v / 10);
        r.push(digit(v % 10));
        r
    }
}

/// The hexadecimal digits of `v`, as `hex_digits` says.
pub fn hex_chars(v: u64) -> (r: Vec<char>)
    ensures
        r@ == hex_digits(v as nat),
    decreases v,
{
    if v < 16 {
        let mut r = Vec::new();
        r.push(digit(v));
        proof {
            assert(r@ =~= seq![digit_char(v as nat)]);
        }
        r
    } else {
        let mut r = hex_chars(v / 16);
        r.push(digit(v % 16));
        r
    }
}

/// Appends the characters of `s`.
pub fn push_str(out: &mut Vec<char>, s: &str)
    ensures
        final(out)@ == old(out)@ + s@,
{
    let n = s.unicode_len();
    let mut i: usize = 0;
    while i < n
        invariant
            i <= n,
            n == s@.len(),
            out@ == old(out)@ + s@.subrange(0, i as int),
        decreases n - i,
    {
        out.push(s.get_char(i));
        i = i + 1;
        proof {
            assert(out@ =~= old(out)@ + s@.subrange(0, i as int));
        }
    }
    proof {
        assert(s@.subrange(0, n as int) =~= s@);
    }
}

/// Appends the characters of `s`.
pub fn push_chars(out: &mut Vec<char>, s: &Vec<char>)
    ensures
        final(out)@ == old(out)@ + s@,
{
    let mut i: usize = 0;
    while i < s.len()
        invariant
            i <= s@.len(),
            out@ == old(out)@ + s@.subrange(0, i as int),
        decreases s@.len() - i,
    {
        out.push(s[i]);
        i = i + 1;
        proof {
            assert(out@ =~= old(out)@ + s@.subrange(0, i as int));
        }
    }
    proof {
        assert(s@.subrange(0, s@.len() as int) =~= s@);
    }
}

/// Appends `n` copies of `c`.
pub fn push_fill(out: &mut Vec<char>, c: char, n: usize)
    ensures
        final(out)@ == old(out)@ + fill(c, n as int),
{
    let mut i: usize = 0;
    while i < n
        invariant
            i <= n,
            out@ == old(out)@ + fill(c, i as int),
        decreases n - i,
    {
        out.push(c);
        i = i + 1;
        proof {
            assert(out@ =~= old(out)@ + fill(c, i as int));
        }
    }
}

/// Appends `s` followed by spaces up to `width` characters.
pub fn push_pad_right(out: &mut Vec<char>, s: &Vec<char>, width: usize)
    ensures
        final(out)@ == old(out)@ + pad_right(s@, width as nat),
{
    push_chars(out, s);
    let n = if s.len() < width { width - s.len() } else { 0 };
    push_fill(out, ' ', n);
    proof {
        assert(fill(' ', n as int) =~= fill(' ', width - s@.len()));
        assert(out@ =~= old(out)@ + pad_right(s@, width as nat));
    }
}

/// Appends `s` after spaces up to `width` characters.
pub fn push_pad_left(out: &mut Vec<char>, s: &Vec<char>, width: usize)
    ensures
        final(out)@ == old(out)@ + pad_left(s@, width as nat),
{
    let n = if s.len() < width { width - s.len() } else { 0 };
    push_fill(out, ' ', n);
    push_chars(out, s);
    proof {
        assert(fill(' ', n as int) =~= fill(' ', width - s@.len()));
        assert(out@ =~= old(out)@ + pad_left(s@, width as nat));
    }
}

/// Appends the decimal digits of `v`.
pub fn push_dec(out: &mut Vec<char>, v: u64)
    ensures
        final(out)@ == old(out)@ + dec_spec(v as nat),
{
    let d = dec_chars(v);
    push_chars(out, &d);
}

/// Appends `v` in hexadecimal, zero-padded to `width` digits.
pub fn push_hex(out: &mut Vec<char>, v: u64, width: usize)
    ensures
        final(out)@ == old(out)@ + hex_spec(v as nat, width as nat),
{
    let d = hex_chars(v);
    let n = if d.len() < width { width - d.len() } else { 0 };
    push_fill(out, '0', n);
    push_chars(out, &d);
    proof {
        assert(fill('0', n as int) =~= fill('0', width - d@.len()));
        assert(out@ =~= old(out)@ + hex_spec(v as nat, width as nat));
    }
}

/// The characters collected into a `String`, through `FromIterator`.
#[verifier::external_body]
pub(crate) fn chars_to_string(v: &Vec<char>) -> (r: String)
    ensures
        r@ == v@,
{
    v.iter().collect()
}

/// `v` in lowercase hexadecimal, zero-padded to `width` digits.
pub fn hex_padded(v: u64, width: usize) -> (r: String)
    ensures
        r@ == hex_spec(v as nat, width as nat),
{
    let mut out = Vec::new();
    push_hex(&mut out, v, width);
    proof {
        assert(out@ =~= hex_spec(v as nat, width as nat));
    }
    chars_to_string(&out)
}

} // verus!
