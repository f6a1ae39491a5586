//! Guest addresses given on the command line: decimal, or hexadecimal after
//! `0x`, with `_` allowed between digits and white space around.

use vstd::prelude::*;
use vstd::string::StrSliceExecFns;

verus! {

/// Why an address does not parse.
#[derive(Clone, Copy, Debug, PartialEq, Eq, Structural)]
pub enum AddressError {
    /// There are no digits.
    Empty,
    /// A character is not a digit of the radix.
    InvalidDigit,
    /// The number does not fit in 64 bits.
    Overflow,
}

/// Whether `c` is white space in the sense of Unicode's `White_Space`.
pub open spec fn is_ws(c: char) -> bool {
    ||| '\t' <= c <= '\r'
    ||| c == ' '
    ||| c == '\u{85}'
    ||| c == '\u{a0}'
    ||| c == '\u{1680}'
    ||| '\u{2000}' <= c <= '\u{200a}'
    ||| c == '\u{2028}'
    ||| c == '\u{2029}'
    ||| c == '\u{202f}'
    ||| c == '\u{205f}'
    ||| c == '\u{3000}'
}

/// `s` without its leading white space.
pub open spec fn trim_start(s: Seq<char>) -> Seq<char>
    decreases s.len(),
{
    if s.len() > 0 && is_ws(s[0]) {
        trim_start(s.drop_first())
    } else {
        s
    }
}

/// `s` without its trailing white space.
pub open spec fn trim_end(s: Seq<char>) -> Seq<char>
    decreases s.len(),
{
    if s.len() > 0 && is_ws(s.last()) {
        trim_end(s.drop_last())
    } else {
        s
    }
}

/// `s` without white space at either end.
pub open spec fn trim(s: Seq<char>) -> Seq<char> {
    trim_end(trim_start(s))
}

/// `s` without its underscores.
pub open spec fn strip_underscores(s: Seq<char>) -> Seq<char>
    decreases s.len(),
{
    if s.len() == 0 {
        s
    } else if s.last() == '_' {
        strip_underscores(s.drop_last())
    } else {
        strip_underscores(s.drop_last()).push(s.last())
    }
}

/// The value of the digit `c` in base `radix` (letters of either case are
/// the digits from ten on), if it is one.
pub open spec fn digit_value(c: char, radix: nat) -> Option<nat> {
    let v: int = if '0' <= c <= '9' {
        c as int - '0' as int
    } else if 'a' <= c <= 'z' {
        c as int - 'a' as int + 10
    } else if 'A' <= c <= 'Z' {
        c as int - 'A' as int + 10
    } else {
        radix as int
    };
    if v < radix {
        Some(v as nat)
    } else {
        None
    }
}

/// The digits `d[i..]` read in base `radix` after the value `acc` of the
/// digits before them: the first character that is no digit is an invalid
/// digit, and a value past `u64::MAX` an overflow, whichever comes first.
pub open spec fn scan_digits(d: Seq<char>, radix: nat, acc: nat, i: int) -> Result<u64, AddressError>
    decreases d.len() - i,
{
    if i >= d.len() || i < 0 {
        Ok(acc as u64)
    } else {
        match digit_value(d[i], radix) {
            None => Err(AddressError::InvalidDigit),
            Some(x) => if acc * radix + x > u64::MAX {
                Err(AddressError::Overflow)
            } else {
                scan_digits(d, radix, acc * radix + x, i + 1)
            },
        }
    }
}

/// An unsigned number in base `radix` as `u64::from_str_radix` reads it:
/// no characters is `Empty`; one leading `+` is allowed; a sign alone is an
/// invalid digit.
pub open spec fn parse_radix_spec(d: Seq<char>, radix: nat) -> Result<u64, AddressError> {
    if d.len() == 0 {
        Err(AddressError::Empty)
    } else if (d[0] == '+' || d[0] == '-') && d.len() == 1 {
        Err(AddressError::InvalidDigit)
    } else if d[0] == '+' {
        scan_digits(d, radix, 0, 1)
    } else {
        scan_digits(d, radix, 0, 0)
    }
}

/// The address that `value` names: white space around it is dropped; a
/// number that starts with `0x` once the underscores are dropped is
/// hexadecimal, as is one that starts with `0X` as written (its underscores
/// then stay and are invalid digits); any other is decimal without its
/// underscores.
pub open spec fn parse_address_spec(value: Seq<char>) -> Result<u64, AddressError> {
    let t = trim(value);
    let n = strip_underscores(t);
    if n.len() >= 2 && n[0] == '0' && n[1] == 'x' {
        parse_radix_spec(n.skip(2), 16)
    } else if t.len() >= 2 && t[0] == '0' && t[1] == 'X' {
        parse_radix_spec(t.skip(2), 16)
    } else {
        parse_radix_spec(n, 10)
    }
}

/// Whether `c` is white space, as `is_ws` says.
fn is_whitespace(c: char) -> (r: bool)
    ensures
        r == is_ws(c),
{
    ('\t' <= c && c <= '\r') || c == ' ' || c == '\u{85}' || c == '\u{a0}' || c == '\u{1680}' || ('\u{2000}'
        <= c && c <= '\u{200a}') || c == '\u{2028}' || c == '\u{2029}' || c == '\u{202f}' || c == '\u{205f}'
        || c == '\u{3000}'
}

/// The value of the digit `c` in base `radix`, as `digit_value` says.
fn to_digit(c: char, radix: u64) -> (r: Option<u64>)
    requires
        radix <= 36,
    ensures
        match r {
            Some(x) => digit_value(c, radix as nat) == Some(x as nat),
            None => digit_value(c, radix as nat) is None,
        },
{
    let v: u64 = if '0' <= c && c <= '9' {
        (c as u32 - '0' as u32) as u64
    } else if 'a' <= c && c <= 'z' {
        (c as u32 - 'a' as u32 + 10) as u64
    } else if 'A' <= c && c <= 'Z' {
        (c as u32 - 'A' as u32 + 10) as u64
    } else {
        radix
    };
    if v < radix {
        Some(v)
    } else {
        None
    }
}

/// The characters `d[start..]` read as `parse_radix_spec` says.
pub(crate) fn parse_radix(d: &Vec<char>, start: usize, radix: u64) -> (r: Result<u64, AddressError>)
    requires
        start <= d@.len(),
        radix == 10 || radix == 16,
    ensures
        r == parse_radix_spec(d@.skip(start as int), radix as nat),
{
    let ghost s = d@.skip(start as int);
    let len = d.len();
    if start == len {
        return Err(AddressError::Empty);
    }
    let first = d[start];
    if (first == '+' || first == '-') && len - start == 1 {
        return Err(AddressError::InvalidDigit);
    }
    let mut i: usize = if first == '+' {
        start + 1
    } else {
        start
    };
    let mut acc: u64 = 0;
    let ghost i0 = i - start;
    proof {
        assert(parse_radix_spec(s, radix as nat) == scan_digits(s, radix as nat, 0, i0));
    }
    while i < len
        invariant
            start <= i <= len,
            len == d@.len(),
            s == d@.skip(start as int),
            radix == 10 || radix == 16,
            parse_radix_spec(s, radix as nat) == scan_digits(s, radix as nat, acc as nat, i - start),
        decreases len - i,
    {
        proof {
            assert(s[i - start] == d@[i as int]);
        }
        let x = match to_digit(d[i], radix) {
            Some(x) => x,
            None => {
                return Err(AddressError::InvalidDigit);
            },
        };
        let limit = (u64::MAX - x) / radix;
        if acc > limit {
            proof {
                assert(acc * radix + x > u64::MAX) by (nonlinear_arith)
                    requires
                        limit == (u64::MAX - x) / (radix as int),
                        acc > limit,
                        radix > 0,
                        x <= u64::MAX,
                ;
            }
            return Err(AddressError::Overflow);
        }
        proof {
            assert(acc * radix + x <= u64::MAX) by (nonlinear_arith)
                requires
                    limit == (u64::MAX - x) / (radix as int),
                    acc <= limit,
                    radix > 0,
                    x <= u64::MAX,
            ;
        }
        acc = acc * radix + x;
        i = i + 1;
    }
    Ok(acc)
}

/// The characters of `value` without white space at either end.
pub(crate) fn trimmed(value: &str) -> (r: Vec<char>)
    ensures
        r@ == trim(value@),
{
    let n = value.unicode_len();
    let mut chars: Vec<char> = Vec::new();
    let mut i: usize = 0;
    while i < n
        invariant
            i <= n,
            n == value@.len(),
            chars@ == value@.subrange(0, i as int),
        decreases n - i,
    {
        chars.push(value.get_char(i));
        i = i + 1;
        proof {
            assert(chars@ =~= value@.subrange(0, i as int));
        }
    }
    proof {
        assert(chars@ =~= value@);
    }
    // Drop the white space at the start.
    let mut lo: usize = 0;
    while lo < n && is_whitespace(chars[lo])
        invariant
            lo <= n,
            n == chars@.len(),
            trim_start(chars@) == trim_start(chars@.skip(lo as int)),
        decreases n - lo,
    {
        proof {
            assert(chars@.skip(lo as int).drop_first() =~= chars@.skip(lo + 1));
        }
        lo = lo + 1;
    }
    // Drop the white space at the end.
    let mut hi: usize = n;
    proof {
        assert(trim_start(chars@.skip(lo as int)) == chars@.skip(lo as int));
        assert(chars@.skip(lo as int) =~= chars@.subrange(lo as int, hi as int));
    }
    while hi > lo && is_whitespace(chars[hi - 1])
        invariant
            lo <= hi <= n,
            n == chars@.len(),
            trim(chars@) == trim_end(chars@.subrange(lo as int, hi as int)),
        decreases hi - lo,
    {
        proof {
            assert(chars@.subrange(lo as int, hi as int).drop_last() =~= chars@.subrange(lo as int, hi - 1));
        }
        hi = hi - 1;
    }
    proof {
        assert(trim_end(chars@.subrange(lo as int, hi as int)) == chars@.subrange(lo as int, hi as int));
    }
    let mut t: Vec<char> = Vec::new();
    let mut k: usize = lo;
    proof {
        assert(t@ =~= chars@.subrange(lo as int, lo as int));
    }
    while k < hi
        invariant
            lo <= k <= hi <= n,
            n == chars@.len(),
            t@ == chars@.subrange(lo as int, k as int),
        decreases hi - k,
    {
        t.push(chars[k]);
        proof {
            assert(t@ =~= chars@.subrange(lo as int, k + 1));
        }
        k = k + 1;
    }
    t
}

/// The address that `value` names, as `parse_address_spec` says.
pub fn parse_address(value: &str) -> (r: Result<u64, AddressError>)
    ensures
        r == parse_address_spec(value@),
{
    let t = trimmed(value);
    let mut digits: Vec<char> = Vec::new();
    let mut k: usize = 0;
    proof {
        assert(strip_underscores(t@.subrange(0, 0)) =~= digits@);
    }
    while k < t.len()
        invariant
            k <= t@.len(),
            digits@ == strip_underscores(t@.subrange(0, k as int)),
        decreases t@.len() - k,
    {
        let c = t[k];
        if c != '_' {
            digits.push(c);
        }
        proof {
            assert(t@.subrange(0, k + 1).drop_last() =~= t@.subrange(0, k as int));
        }
        k = k + 1;
    }
    proof {
        assert(t@.subrange(0, t@.len() as int) =~= t@);
    }
    if digits.len() >= 2 && digits[0] == '0' && digits[1] == 'x' {
        parse_radix(&digits, 2, 16)
    } else if t.len() >= 2 && t[0] == '0' && t[1] == 'X' {
        parse_radix(&t, 2, 16)
    } else {
        proof {
            assert(digits@.skip(0) =~= digits@);
        }
        parse_radix(&digits, 0, 10)
    }
}

/// A number as the debugger reads it: white space around it is dropped; one
/// that starts with `0x` or `0X` is hexadecimal, any other decimal.
pub open spec fn parse_number_spec(value: Seq<char>) -> Result<u64, AddressError> {
    let t = trim(value);
    if t.len() >= 2 && t[0] == '0' && (t[1] == 'x' || t[1] == 'X') {
        parse_radix_spec(t.skip(2), 16)
    } else {
        parse_radix_spec(t, 10)
    }
}

/// The number that `value` names, as `parse_number_spec` says.
pub fn parse_number(value: &str) -> (r: Result<u64, AddressError>)
    ensures
        r == parse_number_spec(value@),
{
    let t = trimmed(value);
    if t.len() >= 2 && t[0] == '0' && (t[1] == 'x' || t[1] == 'X') {
        parse_radix(&t, 2, 16)
    } else {
        proof {
            assert(t@.skip(0) =~= t@);
        }
        parse_radix(&t, 0, 10)
    }
}

} // verus!
