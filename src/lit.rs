//! Values and suffixes of Rust literal tokens.
//!
//! Each parser takes the text of one literal token, as the lexer produced it,
//! and returns its value and its suffix (`"u8"` in `1u8`). The text is read
//! as a sequence of characters; the delimiters and escapes of the literal
//! syntax are all ASCII.

use vstd::prelude::*;
use vstd::string::{StrSliceExecFns, StringExecFns};

verus! {

/// The byte at offset `idx` of `s`, or `0` past its end.
pub fn byte(s: &[u8], idx: usize) -> (r: u8)
    ensures
        r == if idx < s@.len() {
            s@[idx as int]
        } else {
            0u8
        },
{
    if idx < s.len() {
        s[idx]
    } else {
        0
    }
}

/// The character at `i` of `cs`, or `'\0'` outside of it.
pub open spec fn chr_at(cs: Seq<char>, i: int) -> char {
    if 0 <= i < cs.len() {
        cs[i]
    } else {
        '\0'
    }
}

/// Value of hexadecimal digit `c`.
pub open spec fn hex_digit(c: char) -> Option<u32> {
    if '0' <= c <= '9' {
        Some((c as u32 - '0' as u32) as u32)
    } else if 'a' <= c <= 'f' {
        Some((c as u32 - 'a' as u32 + 10) as u32)
    } else if 'A' <= c <= 'F' {
        Some((c as u32 - 'A' as u32 + 10) as u32)
    } else {
        None
    }
}

/// Character denoted by the one-letter escape `\c`.
pub open spec fn simple_escape(c: char) -> Option<char> {
    if c == 'n' {
        Some('\n')
    } else if c == 'r' {
        Some('\r')
    } else if c == 't' {
        Some('\t')
    } else if c == '\\' {
        Some('\\')
    } else if c == '0' {
        Some('\0')
    } else if c == '\'' {
        Some('\'')
    } else if c == '"' {
        Some('"')
    } else {
        None
    }
}

/// Byte escape whose letter is at `i` (just after the backslash): its value
/// and the index after it.
pub open spec fn byte_escape(cs: Seq<char>, i: int) -> Option<(u8, int)> {
    let c = chr_at(cs, i);
    if c == 'x' {
        match (hex_digit(chr_at(cs, i + 1)), hex_digit(chr_at(cs, i + 2))) {
            (Some(h), Some(l)) => Some(((h * 16 + l) as u8, i + 3)),
            _ => None,
        }
    } else {
        match simple_escape(c) {
            Some(e) => Some((e as u8, i + 1)),
            None => None,
        }
    }
}

/// `v` is a Unicode scalar value.
pub open spec fn is_scalar(v: int) -> bool {
    (0 <= v <= 0xD7FF) || (0xE000 <= v <= 0x10FFFF)
}

/// Digits of a `\u{...}` escape from `i` on, after `digits` digits that
/// gave `value`: the code and the index after the closing brace.
pub open spec fn unicode_digits(cs: Seq<char>, i: int, value: nat, digits: nat) -> Option<(nat, int)>
    decreases cs.len() - i,
{
    if i < 0 || i >= cs.len() {
        None
    } else {
        let c = cs[i];
        match hex_digit(c) {
            Some(d) => if digits == 6 {
                None
            } else {
                unicode_digits(cs, i + 1, (value * 16 + d) as nat, digits + 1)
            },
            None => if c == '_' && digits > 0 {
                unicode_digits(cs, i + 1, value, digits)
            } else if c == '}' && digits > 0 {
                Some((value, i + 1))
            } else {
                None
            },
        }
    }
}

/// The `{...}` part of a `\u` escape, starting at `i`: the character and the
/// index after it.
pub open spec fn unicode_escape(cs: Seq<char>, i: int) -> Option<(char, int)> {
    if chr_at(cs, i) != '{' {
        None
    } else {
        match unicode_digits(cs, i + 1, 0, 0) {
            Some((v, j)) => if is_scalar(v as int) {
                Some((v as char, j))
            } else {
                None
            },
            None => None,
        }
    }
}

/// Character escape whose letter is at `i`: its value and the index after it.
pub open spec fn char_escape(cs: Seq<char>, i: int) -> Option<(char, int)> {
    let c = chr_at(cs, i);
    if c == 'x' {
        match (hex_digit(chr_at(cs, i + 1)), hex_digit(chr_at(cs, i + 2))) {
            (Some(h), Some(l)) => if h * 16 + l <= 0x80 {
                Some(((h * 16 + l) as char, i + 3))
            } else {
                None
            },
            _ => None,
        }
    } else if c == 'u' {
        unicode_escape(cs, i + 1)
    } else {
        match simple_escape(c) {
            Some(e) => Some((e, i + 1)),
            None => None,
        }
    }
}

/// The characters of `s`.
fn chars_of(s: &str) -> (r: Vec<char>)
    ensures
        r@ == s@,
{
    let n = s.unicode_len();
    let mut v: Vec<char> = Vec::new();
    let mut i: usize = 0;
    while i < n
        invariant
            n == s@.len(),
            i <= n,
            v@ == s@.subrange(0, i as int),
        decreases n - i,
    {
        v.push(s.get_char(i));
        i += 1;
    }
    assert(v@ =~= s@);
    v
}

/// The character at `i` of `cs`, or `'\0'` past its end.
fn char_at(cs: &Vec<char>, i: usize) -> (r: char)
    ensures
        r == chr_at(cs@, i as int),
{
    if i < cs.len() {
        cs[i]
    } else {
        '\0'
    }
}

/// The text of `s` from character `from` on.
fn suffix_from(s: &str, from: usize, n: usize) -> (r: String)
    requires
        n == s@.len(),
        from <= n,
    ensures
        r@ == s@.subrange(from as int, n as int),
{
    String::from_str(s.substring_char(from, n))
}

/// Appends `c` to `s`.
///
/// Relies on `String::push`, which appends the given character to the end of
/// the string.
#[verifier::external_body]
fn push_char(s: &mut String, c: char)
    ensures
        final(s)@ == old(s)@.push(c),
{
    s.push(c)
}

/// Value of hexadecimal digit `c`.
fn hex_value(c: char) -> (r: Option<u32>)
    ensures
        r == hex_digit(c),
{
    if '0' <= c && c <= '9' {
        Some(c as u32 - '0' as u32)
    } else if 'a' <= c && c <= 'f' {
        Some(c as u32 - 'a' as u32 + 10)
    } else if 'A' <= c && c <= 'F' {
        Some(c as u32 - 'A' as u32 + 10)
    } else {
        None
    }
}

/// Character denoted by the one-letter escape `\c`.
fn simple_escape_value(c: char) -> (r: Option<char>)
    ensures
        r == simple_escape(c),
{
    if c == 'n' {
        Some('\n')
    } else if c == 'r' {
        Some('\r')
    } else if c == 't' {
        Some('\t')
    } else if c == '\\' {
        Some('\\')
    } else if c == '0' {
        Some('\0')
    } else if c == '\'' {
        Some('\'')
    } else if c == '"' {
        Some('"')
    } else {
        None
    }
}

/// Two hexadecimal digits at `i` and `i + 1`, as a byte.
fn backslash_x(cs: &Vec<char>, i: usize) -> (r: Option<u8>)
    requires
        i + 2 <= usize::MAX,
    ensures
        r == match (hex_digit(chr_at(cs@, i as int)), hex_digit(chr_at(cs@, i + 1))) {
            (Some(h), Some(l)) => Some((h * 16 + l) as u8),
            _ => None::<u8>,
        },
{
    match (hex_value(char_at(cs, i)), hex_value(char_at(cs, i + 1))) {
        (Some(h), Some(l)) => Some((h * 16 + l) as u8),
        _ => None,
    }
}

/// Byte escape whose letter is at `i`.
fn byte_escape_value(cs: &Vec<char>, i: usize) -> (r: Option<(u8, usize)>)
    requires
        i + 3 <= usize::MAX,
    ensures
        r matches Some((v, j)) ==> byte_escape(cs@, i as int) == Some((v, j as int)),
        r is None ==> byte_escape(cs@, i as int) is None,
{
    let c = char_at(cs, i);
    if c == 'x' {
        match backslash_x(cs, i + 1) {
            Some(b) => Some((b, i + 3)),
            None => None,
        }
    } else {
        match simple_escape_value(c) {
            Some(e) => Some((e as u8, i + 1)),
            None => None,
        }
    }
}

/// Converts `v` to a character.
///
/// Relies on `char::from_u32`, which returns the character when `v` is a
/// Unicode scalar value and `None` otherwise.
#[verifier::external_body]
fn char_from_u32(v: u32) -> (r: Option<char>)
    ensures
        is_scalar(v as int) ==> r == Some(v as char),
        !is_scalar(v as int) ==> r is None,
{
    char::from_u32(v)
}

/// `16^d`.
pub open spec fn pow16(d: nat) -> nat
    decreases d,
{
    if d == 0 {
        1
    } else {
        16 * pow16((d - 1) as nat)
    }
}

/// The `{...}` part of a `\u` escape starting at `i`.
fn backslash_u(cs: &Vec<char>, i: usize) -> (r: Option<(char, usize)>)
    requires
        cs@.len() < usize::MAX,
    ensures
        r matches Some((c, j)) ==> unicode_escape(cs@, i as int) == Some((c, j as int)),
        r is None ==> unicode_escape(cs@, i as int) is None,
{
    if char_at(cs, i) != '{' {
        return None;
    }
    let mut k = i + 1;
    let mut ch: u32 = 0;
    let mut digits: u32 = 0;
    loop
        invariant
            cs@.len() < usize::MAX,
            chr_at(cs@, i as int) == '{',
            i < k,
            digits <= 6,
            ch < pow16(digits as nat),
            unicode_digits(cs@, i + 1, 0, 0) == unicode_digits(cs@, k as int, ch as nat, digits as nat),
        decreases cs@.len() - k,
    {
        if k >= cs.len() {
            return None;
        }
        let c = cs[k];
        match hex_value(c) {
            Some(d) => {
                if digits == 6 {
                    return None;
                }
                proof {
                    reveal_with_fuel(pow16, 7);
                }
                ch = ch * 16 + d;
                digits += 1;
            },
            None => {
                if c == '_' && digits > 0 {
                } else if c == '}' && digits > 0 {
                    return match char_from_u32(ch) {
                        Some(v) => Some((v, k + 1)),
                        None => None,
                    };
                } else {
                    return None;
                }
            },
        }
        k += 1;
    }
}

/// Character escape whose letter is at `i`.
fn char_escape_value(cs: &Vec<char>, i: usize) -> (r: Option<(char, usize)>)
    requires
        cs@.len() < usize::MAX - 3,
        i <= cs@.len(),
    ensures
        r matches Some((v, j)) ==> char_escape(cs@, i as int) == Some((v, j as int)),
        r is None ==> char_escape(cs@, i as int) is None,
{
    let c = char_at(cs, i);
    if c == 'x' {
        match backslash_x(cs, i + 1) {
            Some(b) => if b <= 0x80 {
                match char_from_u32(b as u32) {
                    Some(v) => Some((v, i + 3)),
                    None => None,
                }
            } else {
                None
            },
            None => None,
        }
    } else if c == 'u' {
        backslash_u(cs, i + 1)
    } else {
        match simple_escape_value(c) {
            Some(e) => Some((e, i + 1)),
            None => None,
        }
    }
}

/// A byte literal `b'.'`: its value and the index after its closing quote.
pub open spec fn lit_byte(cs: Seq<char>) -> Option<(u8, int)> {
    if chr_at(cs, 0) != 'b' || chr_at(cs, 1) != '\'' {
        None
    } else if chr_at(cs, 2) == '\\' {
        match byte_escape(cs, 3) {
            Some((v, j)) => if chr_at(cs, j) == '\'' {
                Some((v, j + 1))
            } else {
                None
            },
            None => None,
        }
    } else {
        let c = chr_at(cs, 2);
        if (c as u32) < 128 && chr_at(cs, 3) == '\'' {
            Some((c as u32 as u8, 4))
        } else {
            None
        }
    }
}

/// Parses the byte literal `s`; returns its value and its suffix.
pub fn parse_lit_byte(s: &str) -> (r: (u8, String))
    requires
        lit_byte(s@) is Some,
        s@.len() < usize::MAX - 4,
    ensures
        r.0 == lit_byte(s@)->Some_0.0,
        r.1@ == s@.subrange(lit_byte(s@)->Some_0.1, s@.len() as int),
{
    let cs = chars_of(s);
    let n = cs.len();
    let (b, end) = if char_at(&cs, 2) == '\\' {
        match byte_escape_value(&cs, 3) {
            Some((v, j)) => (v, j),
            None => vstd::pervasive::unreached(),
        }
    } else {
        let c = char_at(&cs, 2);
        (c as u32 as u8, 3)
    };
    (b, suffix_from(s, end + 1, n))
}

/// A character literal `'.'`: its value and the index after its closing
/// quote.
pub open spec fn lit_char(cs: Seq<char>) -> Option<(char, int)> {
    if chr_at(cs, 0) != '\'' {
        None
    } else if chr_at(cs, 1) == '\\' {
        match char_escape(cs, 2) {
            Some((v, j)) => if chr_at(cs, j) == '\'' {
                Some((v, j + 1))
            } else {
                None
            },
            None => None,
        }
    } else if cs.len() >= 2 && chr_at(cs, 2) == '\'' {
        Some((cs[1], 3))
    } else {
        None
    }
}

/// Parses the character literal `s`; returns its value and its suffix.
pub fn parse_lit_char(s: &str) -> (r: (char, String))
    requires
        lit_char(s@) is Some,
        s@.len() < usize::MAX - 4,
    ensures
        r.0 == lit_char(s@)->Some_0.0,
        r.1@ == s@.subrange(lit_char(s@)->Some_0.1, s@.len() as int),
{
    let cs = chars_of(s);
    let n = cs.len();
    let (c, end) = if char_at(&cs, 1) == '\\' {
        match char_escape_value(&cs, 2) {
            Some((v, j)) => (v, j),
            None => vstd::pervasive::unreached(),
        }
    } else {
        (cs[1], 2)
    };
    (c, suffix_from(s, end + 1, n))
}

/// `c` is a decimal digit.
pub open spec fn is_dec(c: char) -> bool {
    '0' <= c <= '9'
}

/// The digit `c` in base `base` as the integer lexer reads it: letters count
/// only above base 10. Whether it is below the base is checked apart.
pub open spec fn int_digit(c: char, base: nat) -> Option<nat> {
    if is_dec(c) {
        Some((c as u32 - '0' as u32) as nat)
    } else if base > 10 && 'a' <= c <= 'f' {
        Some((c as u32 - 'a' as u32 + 10) as nat)
    } else if base > 10 && 'A' <= c <= 'F' {
        Some((c as u32 - 'A' as u32 + 10) as nat)
    } else {
        None
    }
}

/// From `j` on, past underscores, the text continues like the exponent of a
/// float literal: a sign, or at least one digit (`has`: one was already seen).
pub open spec fn exponent_ahead(cs: Seq<char>, j: int, has: bool) -> bool
    decreases cs.len() - j,
{
    if j < 0 || j >= cs.len() {
        has
    } else {
        let c = cs[j];
        if c == '_' {
            exponent_ahead(cs, j + 1, has)
        } else if c == '-' || c == '+' {
            true
        } else if is_dec(c) {
            exponent_ahead(cs, j + 1, true)
        } else {
            has
        }
    }
}

/// Digits of an integer literal in base `base` from `i` on, after digits
/// that gave `value`: the value and the index where the suffix starts. No
/// value when a digit is out of the base, when the text turns out to be a
/// float literal, or when the value needs more than 128 bits.
pub open spec fn int_digits(cs: Seq<char>, i: int, base: nat, value: nat) -> Option<(nat, int)>
    decreases cs.len() - i,
{
    if i < 0 || i >= cs.len() {
        Some((value, i))
    } else {
        let c = cs[i];
        match int_digit(c, base) {
            Some(d) => if d >= base || value * base + d > u128::MAX {
                None
            } else {
                int_digits(cs, i + 1, base, value * base + d)
            },
            None => if c == '_' {
                int_digits(cs, i + 1, base, value)
            } else if c == '.' && base == 10 {
                None
            } else if (c == 'e' || c == 'E') && base == 10 {
                if exponent_ahead(cs, i + 1, false) {
                    None
                } else {
                    Some((value, i))
                }
            } else {
                Some((value, i))
            },
        }
    }
}

/// An integer literal: whether it is negative, its magnitude and the index
/// where its suffix starts.
pub open spec fn lit_int(cs: Seq<char>) -> Option<(bool, nat, int)> {
    let neg = chr_at(cs, 0) == '-';
    let k: int = if neg {
        1
    } else {
        0
    };
    let c0 = chr_at(cs, k);
    let c1 = chr_at(cs, k + 1);
    let (base, start): (nat, int) = if c0 == '0' && c1 == 'x' {
        (16, k + 2)
    } else if c0 == '0' && c1 == 'o' {
        (8, k + 2)
    } else if c0 == '0' && c1 == 'b' {
        (2, k + 2)
    } else {
        (10, k)
    };
    if base == 10 && !is_dec(c0) {
        None
    } else {
        match int_digits(cs, start, base, 0) {
            Some((v, j)) => Some((neg, v, j)),
            None => None,
        }
    }
}

/// The decimal character of digit `d`.
pub open spec fn digit_char(d: nat) -> char {
    (('0' as u32) + d) as char
}

/// Decimal representation of `n`, without leading zeros.
pub open spec fn decimal(n: nat) -> Seq<char>
    decreases n,
{
    if n < 10 {
        seq![digit_char(n)]
    } else {
        decimal(n / 10).push(digit_char(n % 10))
    }
}

/// Appends the decimal representation of `n` to `out`.
fn push_decimal(out: &mut String, n: u128)
    ensures
        final(out)@ == old(out)@ + decimal(n as nat),
    decreases n,
{
    let ghost start = out@;
    if n >= 10 {
        push_decimal(out, n / 10);
    }
    let d = (n % 10) as u8;
    push_char(out, (48u8 + d) as char);
    proof {
        if n >= 10 {
            assert(out@ =~= start + decimal(n as nat));
        } else {
            assert(out@ =~= start + decimal(n as nat));
        }
    }
}

/// Digits of an integer literal from `i` on; see [`int_digits`].
fn scan_int_digits(cs: &Vec<char>, i: usize, base: u32) -> (r: Option<(u128, usize)>)
    requires
        cs@.len() < usize::MAX,
        i <= cs@.len(),
        base == 2 || base == 8 || base == 10 || base == 16,
    ensures
        r matches Some((v, j)) ==> int_digits(cs@, i as int, base as nat, 0) == Some((v as nat, j as int))
            && j <= cs@.len(),
        r is None ==> int_digits(cs@, i as int, base as nat, 0) is None,
{
    let mut k = i;
    let mut value: u128 = 0;
    loop
        invariant
            cs@.len() < usize::MAX,
            i <= k <= cs@.len(),
            base == 2 || base == 8 || base == 10 || base == 16,
            int_digits(cs@, i as int, base as nat, 0) == int_digits(cs@, k as int, base as nat, value as nat),
        decreases cs@.len() - k,
    {
        if k >= cs.len() {
            return Some((value, k));
        }
        let c = cs[k];
        let digit: Option<u32> = if '0' <= c && c <= '9' {
            Some(c as u32 - '0' as u32)
        } else if base > 10 && 'a' <= c && c <= 'f' {
            Some(c as u32 - 'a' as u32 + 10)
        } else if base > 10 && 'A' <= c && c <= 'F' {
            Some(c as u32 - 'A' as u32 + 10)
        } else {
            None
        };
        match digit {
            Some(d) => {
                if d >= base {
                    return None;
                }
                if value > (u128::MAX - d as u128) / base as u128 {
                    assert(value * base + d > u128::MAX) by (nonlinear_arith)
                        requires value > (u128::MAX - d) / (base as int), base > 0, d < base;
                    return None;
                }
                assert(value * base + d <= u128::MAX) by (nonlinear_arith)
                    requires value <= (u128::MAX - d) / (base as int), base > 0, d < base;
                value = value * base as u128 + d as u128;
            },
            None => {
                if c == '_' {
                } else if c == '.' && base == 10 {
                    return None;
                } else if (c == 'e' || c == 'E') && base == 10 {
                    if exponent_follows(cs, k + 1) {
                        return None;
                    } else {
                        return Some((value, k));
                    }
                } else {
                    return Some((value, k));
                }
            },
        }
        k += 1;
    }
}

/// See [`exponent_ahead`].
fn exponent_follows(cs: &Vec<char>, j: usize) -> (r: bool)
    ensures
        r == exponent_ahead(cs@, j as int, false),
{
    let mut k = j;
    let mut has = false;
    while k < cs.len()
        invariant
            j <= k,
            exponent_ahead(cs@, j as int, false) == exponent_ahead(cs@, k as int, has),
        decreases cs@.len() - k,
    {
        let c = cs[k];
        if c == '_' {
        } else if c == '-' || c == '+' {
            return true;
        } else if '0' <= c && c <= '9' {
            has = true;
        } else {
            return has;
        }
        k += 1;
    }
    has
}

/// Parses the integer literal `s`; returns its value in decimal, with a
/// leading `-` when negative, and its suffix. `None` when `s` is not an
/// integer literal (a float literal, a digit out of its base) or its value
/// does not fit in 128 bits.
pub fn parse_lit_int(s: &str) -> (r: Option<(String, String)>)
    requires
        s@.len() < usize::MAX - 2,
    ensures
        match lit_int(s@) {
            None => r is None,
            Some((neg, v, j)) => r matches Some((repr, suffix)) && repr@ == (if neg {
                seq!['-']
            } else {
                Seq::empty()
            }) + decimal(v) && suffix@ == s@.subrange(j, s@.len() as int),
        },
{
    let cs = chars_of(s);
    let n = cs.len();
    let negative = char_at(&cs, 0) == '-';
    let k: usize = if negative {
        1
    } else {
        0
    };
    let c0 = char_at(&cs, k);
    let c1 = char_at(&cs, k + 1);
    let (base, start): (u32, usize) = if c0 == '0' && c1 == 'x' {
        (16, k + 2)
    } else if c0 == '0' && c1 == 'o' {
        (8, k + 2)
    } else if c0 == '0' && c1 == 'b' {
        (2, k + 2)
    } else {
        (10, k)
    };
    if base == 10 && !('0' <= c0 && c0 <= '9') {
        return None;
    }
    let start = if start > n {
        n
    } else {
        start
    };
    match scan_int_digits(&cs, start, base) {
        Some((value, j)) => {
            let mut repr = String::new();
            if negative {
                push_char(&mut repr, '-');
            }
            push_decimal(&mut repr, value);
            proof {
                if !negative {
                    assert(repr@ =~= Seq::<char>::empty() + decimal(value as nat));
                }
            }
            Some((repr, suffix_from(s, j, n)))
        },
        None => None,
    }
}

/// The first character from `j` on that is not an underscore, or `'\0'`.
pub open spec fn next_non_underscore(cs: Seq<char>, j: int) -> char
    decreases cs.len() - j,
{
    if j < 0 || j >= cs.len() {
        '\0'
    } else if cs[j] == '_' {
        next_non_underscore(cs, j + 1)
    } else {
        cs[j]
    }
}

/// End of the digits of a float literal at `read`: the digits kept and where
/// the suffix starts, unless an exponent marker has no digit.
pub open spec fn float_end(out: Seq<char>, read: int, has_e: bool, has_exponent: bool) -> Option<(
    Seq<char>,
    int,
)> {
    if has_e && !has_exponent {
        None
    } else {
        Some((out, read))
    }
}

/// Digits of a float literal from `read` on, after keeping `out`: drops the
/// underscores and a `+` in the exponent, writes the exponent marker as `e`,
/// and stops at the suffix. No value for a misplaced dot, sign or exponent.
pub open spec fn float_digits(
    cs: Seq<char>,
    read: int,
    out: Seq<char>,
    has_dot: bool,
    has_e: bool,
    has_sign: bool,
    has_exponent: bool,
) -> Option<(Seq<char>, int)>
    decreases cs.len() - read,
{
    if read < 0 || read >= cs.len() {
        float_end(out, read, has_e, has_exponent)
    } else {
        let c = cs[read];
        if c == '_' {
            float_digits(cs, read + 1, out, has_dot, has_e, has_sign, has_exponent)
        } else if is_dec(c) {
            float_digits(cs, read + 1, out.push(c), has_dot, has_e, has_sign, has_exponent || has_e)
        } else if c == '.' {
            if has_e || has_dot {
                None
            } else {
                float_digits(cs, read + 1, out.push('.'), true, has_e, has_sign, has_exponent)
            }
        } else if c == 'e' || c == 'E' {
            let nx = next_non_underscore(cs, read + 1);
            if !(nx == '-' || nx == '+' || is_dec(nx)) {
                float_end(out, read, has_e, has_exponent)
            } else if has_e {
                if has_exponent {
                    float_end(out, read, has_e, has_exponent)
                } else {
                    None
                }
            } else {
                float_digits(cs, read + 1, out.push('e'), has_dot, true, has_sign, has_exponent)
            }
        } else if c == '-' || c == '+' {
            if has_sign || has_exponent || !has_e {
                None
            } else if c == '-' {
                float_digits(cs, read + 1, out.push('-'), has_dot, has_e, true, has_exponent)
            } else {
                float_digits(cs, read + 1, out, has_dot, has_e, true, has_exponent)
            }
        } else {
            float_end(out, read, has_e, has_exponent)
        }
    }
}

/// A float literal: its digits without underscores and where its suffix
/// starts.
pub open spec fn lit_float(cs: Seq<char>) -> Option<(Seq<char>, int)> {
    let start: int = if chr_at(cs, 0) == '-' {
        1
    } else {
        0
    };
    if cs.len() == 0 || start >= cs.len() || !is_dec(cs[start]) {
        None
    } else {
        float_digits(cs, start, cs.subrange(0, start), false, false, false, false)
    }
}

/// See [`next_non_underscore`].
fn next_non_underscore_char(cs: &Vec<char>, j: usize) -> (r: char)
    ensures
        r == next_non_underscore(cs@, j as int),
{
    let mut k = j;
    while k < cs.len()
        invariant
            j <= k,
            next_non_underscore(cs@, j as int) == next_non_underscore(cs@, k as int),
        decreases cs@.len() - k,
    {
        if cs[k] != '_' {
            return cs[k];
        }
        k += 1;
    }
    '\0'
}

/// Parses the float literal `s`; returns its digits without underscores,
/// with the exponent marker written `e` and no `+` in the exponent, and its
/// suffix. `None` when `s` is not a float literal.
pub fn parse_lit_float(input: &str) -> (r: Option<(String, String)>)
    requires
        input@.len() < usize::MAX,
    ensures
        match lit_float(input@) {
            None => r is None,
            Some((digits, j)) => r matches Some((d, suffix)) && d@ == digits && suffix@
                == input@.subrange(j, input@.len() as int),
        },
{
    let cs = chars_of(input);
    let n = cs.len();
    if n == 0 {
        return None;
    }
    let start: usize = if cs[0] == '-' {
        1
    } else {
        0
    };
    if start >= n || !('0' <= cs[start] && cs[start] <= '9') {
        return None;
    }
    let mut digits = String::new();
    if start == 1 {
        push_char(&mut digits, '-');
    }
    assert(digits@ =~= cs@.subrange(0, start as int));
    let mut read = start;
    let mut has_dot = false;
    let mut has_e = false;
    let mut has_sign = false;
    let mut has_exponent = false;
    while read < n
        invariant
            n == cs@.len(),
            cs@ == input@,
            n < usize::MAX,
            start <= read <= n,
            lit_float(cs@) == float_digits(
                cs@,
                read as int,
                digits@,
                has_dot,
                has_e,
                has_sign,
                has_exponent,
            ),
        ensures
            start <= read <= n,
            lit_float(cs@) == float_end(digits@, read as int, has_e, has_exponent),
        decreases n - read,
    {
        let c = cs[read];
        if c == '_' {
        } else if '0' <= c && c <= '9' {
            if has_e {
                has_exponent = true;
            }
            push_char(&mut digits, c);
        } else if c == '.' {
            if has_e || has_dot {
                return None;
            }
            has_dot = true;
            push_char(&mut digits, '.');
        } else if c == 'e' || c == 'E' {
            let nx = next_non_underscore_char(&cs, read + 1);
            if !(nx == '-' || nx == '+' || ('0' <= nx && nx <= '9')) {
                break;
            }
            if has_e {
                if has_exponent {
                    break;
                } else {
                    return None;
                }
            }
            has_e = true;
            push_char(&mut digits, 'e');
        } else if c == '-' || c == '+' {
            if has_sign || has_exponent || !has_e {
                return None;
            }
            has_sign = true;
            if c == '-' {
                push_char(&mut digits, '-');
            }
        } else {
            break;
        }
        read += 1;
    }
    if has_e && !has_exponent {
        return None;
    }
    Some((digits, suffix_from(input, read, n)))
}

/// `c` has the Unicode `White_Space` property.
pub open spec fn is_white_space(c: char) -> bool {
    let v = c as u32;
    (0x9 <= v <= 0xD) || v == 0x20 || v == 0x85 || v == 0xA0 || v == 0x1680 || (0x2000 <= v
        <= 0x200A) || v == 0x2028 || v == 0x2029 || v == 0x202F || v == 0x205F || v == 0x3000
}

/// Whether `c` is white space.
///
/// Relies on `char::is_whitespace`: `true` exactly for the characters with
/// the Unicode `White_Space` property.
#[verifier::external_body]
fn is_whitespace(c: char) -> (r: bool)
    ensures
        r == is_white_space(c),
{
    c.is_whitespace()
}

/// Index of the first character from `j` on that does not count as white
/// space; in a byte string (`bytes`) only ASCII characters count.
pub open spec fn skip_white_space(cs: Seq<char>, j: int, bytes: bool) -> int
    decreases cs.len() - j,
{
    if 0 <= j < cs.len() && is_white_space(cs[j]) && (!bytes || (cs[j] as u32) < 128) {
        skip_white_space(cs, j + 1, bytes)
    } else {
        j
    }
}

/// Body of a string literal from `i` on, after `acc` was read: the content
/// and the index after the closing quote.
pub open spec fn str_cooked(cs: Seq<char>, i: int, acc: Seq<char>) -> Option<(Seq<char>, int)>
    decreases cs.len() - i,
{
    if i < 0 || i >= cs.len() {
        None
    } else {
        let c = cs[i];
        if c == '"' {
            Some((acc, i + 1))
        } else if c == '\\' {
            let b = chr_at(cs, i + 1);
            if i + 1 >= cs.len() {
                None
            } else if b == '\r' || b == '\n' {
                let j = skip_white_space(cs, i + 2, false);
                if i < j <= cs.len() {
                    str_cooked(cs, j, acc)
                } else {
                    None
                }
            } else {
                match char_escape(cs, i + 1) {
                    Some((v, j)) => if i < j <= cs.len() {
                        str_cooked(cs, j, acc.push(v))
                    } else {
                        None
                    },
                    None => None,
                }
            }
        } else if c == '\r' {
            if chr_at(cs, i + 1) == '\n' {
                str_cooked(cs, i + 2, acc.push('\n'))
            } else {
                None
            }
        } else {
            str_cooked(cs, i + 1, acc.push(c))
        }
    }
}

/// Number of `#` from `j` on.
pub open spec fn count_hashes(cs: Seq<char>, j: int) -> nat
    decreases cs.len() - j,
{
    if 0 <= j < cs.len() && cs[j] == '#' {
        1 + count_hashes(cs, j + 1)
    } else {
        0
    }
}

/// Index of the last `"` before `k`, or -1.
pub open spec fn last_quote(cs: Seq<char>, k: int) -> int
    decreases k,
{
    if k <= 0 {
        -1
    } else if cs[k - 1] == '"' {
        k - 1
    } else {
        last_quote(cs, k - 1)
    }
}

/// Raw string literal whose `r` is at `off`: the content and the index where
/// the suffix starts.
pub open spec fn str_raw(cs: Seq<char>, off: int) -> Option<(Seq<char>, int)> {
    let p = count_hashes(cs, off + 1);
    let open = off + 1 + p;
    let close = last_quote(cs, cs.len() as int);
    if chr_at(cs, open) != '"' || close < open + 1 || close + 1 + p > cs.len() {
        None
    } else if exists|k: int| close + 1 <= k < close + 1 + p && cs[k] != '#' {
        None
    } else {
        Some((cs.subrange(open + 1, close), close + 1 + p))
    }
}

/// A string literal, cooked or raw: its content and the index where its
/// suffix starts.
pub open spec fn lit_str(cs: Seq<char>) -> Option<(Seq<char>, int)> {
    if chr_at(cs, 0) == '"' {
        str_cooked(cs, 1, Seq::empty())
    } else if chr_at(cs, 0) == 'r' {
        str_raw(cs, 0)
    } else {
        None
    }
}

/// See [`skip_white_space`].
fn skip_white_space_from(cs: &Vec<char>, j: usize, bytes: bool) -> (r: usize)
    requires
        j <= cs@.len(),
    ensures
        r as int == skip_white_space(cs@, j as int, bytes),
        j <= r <= cs@.len(),
{
    let mut k = j;
    while k < cs.len() && is_whitespace(cs[k]) && (!bytes || (cs[k] as u32) < 128)
        invariant
            j <= k <= cs@.len(),
            skip_white_space(cs@, j as int, bytes) == skip_white_space(cs@, k as int, bytes),
        decreases cs@.len() - k,
    {
        k += 1;
    }
    k
}

/// Body of a cooked string literal from `i` on.
fn parse_str_cooked(cs: &Vec<char>, i: usize) -> (r: Option<(String, usize)>)
    requires
        cs@.len() < usize::MAX - 4,
        i <= cs@.len(),
    ensures
        r matches Some((content, j)) ==> str_cooked(cs@, i as int, Seq::empty()) == Some((content@, j as int))
            && j <= cs@.len(),
        r is None ==> str_cooked(cs@, i as int, Seq::empty()) is None,
{
    let mut k = i;
    let mut content = String::new();
    loop
        invariant
            cs@.len() < usize::MAX - 4,
            k <= cs@.len(),
            str_cooked(cs@, i as int, Seq::empty()) == str_cooked(cs@, k as int, content@),
        decreases cs@.len() - k,
    {
        if k >= cs.len() {
            return None;
        }
        let c = cs[k];
        if c == '"' {
            return Some((content, k + 1));
        } else if c == '\\' {
            if k + 1 >= cs.len() {
                return None;
            }
            let b = cs[k + 1];
            if b == '\r' || b == '\n' {
                k = skip_white_space_from(cs, k + 2, false);
            } else {
                match char_escape_value(cs, k + 1) {
                    Some((v, j)) => {
                        if j <= k || j > cs.len() {
                            return None;
                        }
                        push_char(&mut content, v);
                        k = j;
                    },
                    None => return None,
                }
            }
        } else if c == '\r' {
            if char_at(cs, k + 1) == '\n' {
                push_char(&mut content, '\n');
                k = k + 2;
            } else {
                return None;
            }
        } else {
            push_char(&mut content, c);
            k = k + 1;
        }
    }
}

/// Raw string literal whose `r` is at `off`.
fn parse_str_raw(s: &str, cs: &Vec<char>, off: usize) -> (r: Option<(String, usize)>)
    requires
        cs@ == s@,
        cs@.len() < usize::MAX - 4,
        off < cs@.len(),
    ensures
        r matches Some((content, j)) ==> str_raw(cs@, off as int) == Some((content@, j as int)) && j
            <= cs@.len(),
        r is None ==> str_raw(cs@, off as int) is None,
{
    let n = cs.len();
    let mut pounds: usize = 0;
    while off + 1 + pounds < n && cs[off + 1 + pounds] == '#'
        invariant
            off < n == cs@.len(),
            off + 1 + pounds <= n,
            count_hashes(cs@, off + 1) == pounds + count_hashes(cs@, off + 1 + pounds),
        decreases n - pounds,
    {
        pounds += 1;
    }
    let open = off + 1 + pounds;
    if char_at(cs, open) != '"' {
        return None;
    }
    let mut close = n;
    while close > 0 && cs[close - 1] != '"'
        invariant
            close <= n == cs@.len(),
            last_quote(cs@, n as int) == last_quote(cs@, close as int),
        decreases close,
    {
        close -= 1;
    }
    if close == 0 {
        return None;
    }
    let close = close - 1;
    if close < open + 1 || pounds > n - close - 1 {
        return None;
    }
    let end = close + 1 + pounds;
    let mut k = close + 1;
    while k < end && cs[k] == '#'
        invariant
            close + 1 <= k <= end <= n == cs@.len(),
            forall|m: int| close + 1 <= m < k ==> #[trigger] cs@[m] == '#',
        decreases end - k,
    {
        k += 1;
    }
    if k < end {
        assert(cs@[k as int] != '#');
        return None;
    }
    let content = String::from_str(s.substring_char(open + 1, close));
    Some((content, close + 1 + pounds))
}

/// Parses the string literal `s`, cooked or raw; returns its content and
/// its suffix.
pub fn parse_lit_str(s: &str) -> (r: (String, String))
    requires
        lit_str(s@) is Some,
        s@.len() < usize::MAX - 4,
    ensures
        r.0@ == lit_str(s@)->Some_0.0,
        r.1@ == s@.subrange(lit_str(s@)->Some_0.1, s@.len() as int),
{
    let cs = chars_of(s);
    let n = cs.len();
    let parsed = if cs[0] == '"' {
        parse_str_cooked(&cs, 1)
    } else {
        parse_str_raw(s, &cs, 0)
    };
    match parsed {
        Some((content, j)) => (content, suffix_from(s, j, n)),
        None => vstd::pervasive::unreached(),
    }
}

/// Body of a byte string literal from `i` on, after `acc` was read: the
/// bytes and the index after the closing quote. Byte strings hold ASCII
/// characters only.
pub open spec fn byte_str_cooked(cs: Seq<char>, i: int, acc: Seq<u8>) -> Option<(Seq<u8>, int)>
    decreases cs.len() - i,
{
    if i < 0 || i >= cs.len() {
        None
    } else {
        let c = cs[i];
        if c == '"' {
            Some((acc, i + 1))
        } else if c == '\\' {
            let b = chr_at(cs, i + 1);
            if i + 1 >= cs.len() {
                None
            } else if b == '\r' || b == '\n' {
                let j = skip_white_space(cs, i + 2, true);
                if i < j <= cs.len() {
                    byte_str_cooked(cs, j, acc)
                } else {
                    None
                }
            } else {
                match byte_escape(cs, i + 1) {
                    Some((v, j)) => if i < j <= cs.len() {
                        byte_str_cooked(cs, j, acc.push(v))
                    } else {
                        None
                    },
                    None => None,
                }
            }
        } else if c == '\r' {
            if chr_at(cs, i + 1) == '\n' {
                byte_str_cooked(cs, i + 2, acc.push(10u8))
            } else {
                None
            }
        } else if (c as u32) < 128 {
            byte_str_cooked(cs, i + 1, acc.push(c as u32 as u8))
        } else {
            None
        }
    }
}

/// `cs` holds ASCII characters only.
pub open spec fn all_ascii(cs: Seq<char>) -> bool {
    forall|k: int| 0 <= k < cs.len() ==> (#[trigger] cs[k] as u32) < 128
}

/// A byte string literal, cooked or raw: its bytes and the index where its
/// suffix starts.
pub open spec fn lit_byte_str(cs: Seq<char>) -> Option<(Seq<u8>, int)> {
    if chr_at(cs, 0) != 'b' {
        None
    } else if chr_at(cs, 1) == '"' {
        byte_str_cooked(cs, 2, Seq::empty())
    } else if chr_at(cs, 1) == 'r' {
        match str_raw(cs, 1) {
            Some((content, j)) => if all_ascii(content) {
                Some((content.map_values(|c: char| c as u32 as u8), j))
            } else {
                None
            },
            None => None,
        }
    } else {
        None
    }
}

/// Body of a cooked byte string literal from `i` on.
fn parse_byte_str_cooked(cs: &Vec<char>, i: usize) -> (r: Option<(Vec<u8>, usize)>)
    requires
        cs@.len() < usize::MAX - 4,
        i <= cs@.len(),
    ensures
        r matches Some((content, j)) ==> byte_str_cooked(cs@, i as int, Seq::empty()) == Some(
            (content@, j as int),
        ) && j <= cs@.len(),
        r is None ==> byte_str_cooked(cs@, i as int, Seq::empty()) is None,
{
    let mut k = i;
    let mut out: Vec<u8> = Vec::new();
    loop
        invariant
            cs@.len() < usize::MAX - 4,
            k <= cs@.len(),
            byte_str_cooked(cs@, i as int, Seq::empty()) == byte_str_cooked(cs@, k as int, out@),
        decreases cs@.len() - k,
    {
        if k >= cs.len() {
            return None;
        }
        let c = cs[k];
        if c == '"' {
            return Some((out, k + 1));
        } else if c == '\\' {
            if k + 1 >= cs.len() {
                return None;
            }
            let b = cs[k + 1];
            if b == '\r' || b == '\n' {
                k = skip_white_space_from(cs, k + 2, true);
            } else {
                match byte_escape_value(cs, k + 1) {
                    Some((v, j)) => {
                        if j <= k || j > cs.len() {
                            return None;
                        }
                        out.push(v);
                        k = j;
                    },
                    None => return None,
                }
            }
        } else if c == '\r' {
            if char_at(cs, k + 1) == '\n' {
                out.push(10);
                k = k + 2;
            } else {
                return None;
            }
        } else if (c as u32) < 128 {
            out.push(c as u32 as u8);
            k = k + 1;
        } else {
            return None;
        }
    }
}

/// Bytes of the ASCII text `s`, or `None` when it is not ASCII.
fn ascii_bytes(s: &String) -> (r: Option<Vec<u8>>)
    ensures
        all_ascii(s@) ==> (r matches Some(v) && v@ == s@.map_values(|c: char| c as u32 as u8)),
        !all_ascii(s@) ==> r is None,
{
    let cs = chars_of(s.as_str());
    let mut out: Vec<u8> = Vec::new();
    let mut k: usize = 0;
    while k < cs.len()
        invariant
            cs@ == s@,
            k <= cs@.len(),
            forall|m: int| 0 <= m < k ==> (#[trigger] cs@[m] as u32) < 128,
            out@ == cs@.subrange(0, k as int).map_values(|c: char| c as u32 as u8),
        decreases cs@.len() - k,
    {
        let c = cs[k];
        if (c as u32) >= 128 {
            return None;
        }
        out.push(c as u32 as u8);
        k += 1;
        assert(out@ =~= cs@.subrange(0, k as int).map_values(|c: char| c as u32 as u8));
    }
    assert(cs@.subrange(0, k as int) =~= cs@);
    Some(out)
}

/// Parses the byte string literal `s`, cooked or raw; returns its bytes and
/// its suffix.
pub fn parse_lit_byte_str(s: &str) -> (r: (Vec<u8>, String))
    requires
        lit_byte_str(s@) is Some,
        s@.len() < usize::MAX - 4,
    ensures
        r.0@ == lit_byte_str(s@)->Some_0.0,
        r.1@ == s@.subrange(lit_byte_str(s@)->Some_0.1, s@.len() as int),
{
    let cs = chars_of(s);
    let n = cs.len();
    if cs[1] == '"' {
        match parse_byte_str_cooked(&cs, 2) {
            Some((bytes, j)) => (bytes, suffix_from(s, j, n)),
            None => vstd::pervasive::unreached(),
        }
    } else {
        match parse_str_raw(s, &cs, 1) {
            Some((content, j)) => match ascii_bytes(&content) {
                Some(bytes) => (bytes, suffix_from(s, j, n)),
                None => vstd::pervasive::unreached(),
            },
            None => vstd::pervasive::unreached(),
        }
    }
}

} // verus!
