//! Text: UTF-16 decoding and the decimal and hexadecimal renderings of
//! integers.

use vstd::prelude::*;

verus! {

/// `String::push` of std appends the character to the end of the string.
pub assume_specification[ String::push ](s: &mut String, c: char)
    ensures
        final(s)@ == old(s)@.push(c),
;

/// `char::from_u32` of std returns the character with the given code point,
/// and `None` where the number is a surrogate or lies above `0x10FFFF`.
pub assume_specification[ char::from_u32 ](i: u32) -> (r: Option<char>)
    ensures
        r == (if is_scalar_value(i as int) {
            Some(i as char)
        } else {
            None::<char>
        }),
;

/// A Unicode scalar value: a code point that is not a surrogate.
pub open spec fn is_scalar_value(v: int) -> bool {
    0 <= v <= 0xD7FF || 0xE000 <= v <= 0x10FFFF
}

pub open spec fn is_high_surrogate(u: u16) -> bool {
    0xD800 <= u <= 0xDBFF
}

pub open spec fn is_low_surrogate(u: u16) -> bool {
    0xDC00 <= u <= 0xDFFF
}

/// The code point that a surrogate pair stands for.
pub open spec fn surrogate_pair(hi: u16, lo: u16) -> int {
    0x10000 + (hi - 0xD800) * 0x400 + (lo - 0xDC00)
}

/// Decodes the code units from index `i` on and appends the characters to
/// `acc`. A high surrogate must be followed by a low one, and a low surrogate
/// cannot stand alone: there is no replacement, such a sequence has no
/// decoding.
pub open spec fn utf16_from(units: Seq<u16>, i: int, acc: Seq<char>) -> Option<Seq<char>>
    decreases units.len() - i,
{
    if i < 0 || i >= units.len() {
        Some(acc)
    } else if is_high_surrogate(units[i]) {
        if i + 1 < units.len() && is_low_surrogate(units[i + 1]) {
            utf16_from(units, i + 2, acc.push(surrogate_pair(units[i], units[i + 1]) as char))
        } else {
            None
        }
    } else if is_low_surrogate(units[i]) {
        None
    } else {
        utf16_from(units, i + 1, acc.push(units[i] as char))
    }
}

/// The text that a sequence of UTF-16 code units encodes, if it is valid.
pub open spec fn utf16_decode(units: Seq<u16>) -> Option<Seq<char>> {
    utf16_from(units, 0, Seq::empty())
}

/// Decodes UTF-16 code units to a string.
pub fn decode_utf16(units: &Vec<u16>) -> (r: Option<String>)
    ensures
        match r {
            Some(s) => utf16_decode(units@) == Some(s@),
            None => utf16_decode(units@) is None,
        },
{
    let mut out: String = String::new();
    let mut i: usize = 0;
    while i < units.len()
        invariant
            i <= units.len(),
            utf16_from(units@, i as int, out@) == utf16_decode(units@),
        decreases units.len() - i,
    {
        let u: u16 = units[i];
        if 0xD800 <= u && u <= 0xDBFF {
            if i + 1 < units.len() && 0xDC00 <= units[i + 1] && units[i + 1] <= 0xDFFF {
                let lo: u16 = units[i + 1];
                let cp: u32 = 0x10000 + (u as u32 - 0xD800) * 0x400 + (lo as u32 - 0xDC00);
                match char::from_u32(cp) {
                    Some(c) => {
                        out.push(c);
                    },
                    None => {
                        return None;
                    },
                }
                i = i + 2;
            } else {
                return None;
            }
        } else if 0xDC00 <= u && u <= 0xDFFF {
            return None;
        } else {
            match char::from_u32(u as u32) {
                Some(c) => {
                    out.push(c);
                },
                None => {
                    return None;
                },
            }
            i = i + 1;
        }
    }
    Some(out)
}

/// The character of a decimal digit.
pub open spec fn digit_char(d: int) -> char {
    (48 + d) as char
}

/// The character of a hexadecimal digit, in upper case.
pub open spec fn hex_char(d: int) -> char {
    if d < 10 {
        (48 + d) as char
    } else {
        (55 + d) as char
    }
}

/// The decimal digits of `n`, most significant first, without leading zeros.
pub open spec fn decimal(n: nat) -> Seq<char>
    decreases n,
{
    if n < 10 {
        seq![digit_char(n as int)]
    } else {
        decimal(n / 10).push(digit_char((n % 10) as int))
    }
}

/// The decimal rendering of a signed number, with `-` in front of a negative
/// one.
pub open spec fn signed_decimal(v: int) -> Seq<char> {
    if v < 0 {
        seq!['-'] + decimal((-v) as nat)
    } else {
        decimal(v as nat)
    }
}

/// The last `width` decimal digits of `n`, padded with zeros on the left.
pub open spec fn decimal_fixed(n: nat, width: nat) -> Seq<char>
    decreases width,
{
    if width == 0 {
        Seq::empty()
    } else {
        decimal_fixed(n / 10, (width - 1) as nat).push(digit_char((n % 10) as int))
    }
}

/// The last `width` hexadecimal digits of `n`, in upper case, padded with
/// zeros on the left.
pub open spec fn hex_fixed(n: nat, width: nat) -> Seq<char>
    decreases width,
{
    if width == 0 {
        Seq::empty()
    } else {
        hex_fixed(n / 16, (width - 1) as nat).push(hex_char((n % 16) as int))
    }
}

fn digit(d: u8) -> (c: char)
    requires
        d < 10,
    ensures
        c == digit_char(d as int),
{
    (48u8 + d) as char
}

fn hex_digit(d: u8) -> (c: char)
    requires
        d < 16,
    ensures
        c == hex_char(d as int),
{
    if d < 10 {
        (48u8 + d) as char
    } else {
        (55u8 + d) as char
    }
}

/// Appends the decimal digits of `n`.
pub fn push_decimal(s: &mut String, n: u64)
    ensures
        final(s)@ == old(s)@ + decimal(n as nat),
    decreases n,
{
    if n >= 10 {
        push_decimal(s, n / 10);
    }
    s.push(digit((n % 10) as u8));
    assert(s@ =~= old(s)@ + decimal(n as nat));
}

/// Appends the decimal rendering of a signed number.
pub fn push_signed_decimal(s: &mut String, v: i64)
    ensures
        final(s)@ == old(s)@ + signed_decimal(v as int),
{
    if v < 0 {
        s.push('-');
        let m: u64 = ((-(v + 1)) as u64) + 1;
        push_decimal(s, m);
        assert(s@ =~= old(s)@ + signed_decimal(v as int));
    } else {
        push_decimal(s, v as u64);
    }
}

/// Appends the last `width` decimal digits of `n`, zero-padded.
pub fn push_decimal_fixed(s: &mut String, n: u64, width: u8)
    ensures
        final(s)@ == old(s)@ + decimal_fixed(n as nat, width as nat),
    decreases width,
{
    if width > 0 {
        push_decimal_fixed(s, n / 10, width - 1);
        s.push(digit((n % 10) as u8));
    }
    assert(s@ =~= old(s)@ + decimal_fixed(n as nat, width as nat));
}

/// Appends the last `width` hexadecimal digits of `n`, zero-padded.
pub fn push_hex_fixed(s: &mut String, n: u64, width: u8)
    ensures
        final(s)@ == old(s)@ + hex_fixed(n as nat, width as nat),
    decreases width,
{
    if width > 0 {
        push_hex_fixed(s, n / 16, width - 1);
        s.push(hex_digit((n % 16) as u8));
    }
    assert(s@ =~= old(s)@ + hex_fixed(n as nat, width as nat));
}

} // verus!
