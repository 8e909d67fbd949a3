//! Character classes of the manifest grammar: whitespace, line terminators,
//! digits, hexadecimal digits and ASCII letters.
use vstd::prelude::*;

verus! {

/// Whitespace: space, tab, and the fixed set of Unicode space separators the
/// grammar accepts between tokens.
pub open spec fn is_whitespace(c: char) -> bool {
    let v = c as u32;
    ||| v == 0x20
    ||| v == 0x09
    ||| v == 0xA0
    ||| v == 0xFEFF
    ||| v == 0x1680
    ||| v == 0x180E
    ||| (0x2000 <= v && v <= 0x200A)
    ||| v == 0x202F
    ||| v == 0x205F
    ||| v == 0x3000
}

/// Line terminators: LF, CR, and the Unicode line and paragraph separators.
pub open spec fn is_eol_char(c: char) -> bool {
    let v = c as u32;
    v == 0x0A || v == 0x0D || v == 0x2028 || v == 0x2029
}

/// ASCII decimal digit.
pub open spec fn is_digit(c: char) -> bool {
    0x30 <= c as u32 && c as u32 <= 0x39
}

/// ASCII hexadecimal digit, either case.
pub open spec fn is_hex_digit(c: char) -> bool {
    ||| is_digit(c)
    ||| (0x41 <= c as u32 && c as u32 <= 0x46)
    ||| (0x61 <= c as u32 && c as u32 <= 0x66)
}

/// ASCII letter, either case.
pub open spec fn is_letter(c: char) -> bool {
    ||| (0x41 <= c as u32 && c as u32 <= 0x5A)
    ||| (0x61 <= c as u32 && c as u32 <= 0x7A)
}

/// Numeric value of a hexadecimal digit.
pub open spec fn hex_value(c: char) -> u32 {
    let v = c as u32;
    if 0x30 <= v && v <= 0x39 {
        (v - 0x30) as u32
    } else if 0x41 <= v && v <= 0x46 {
        (v - 0x37) as u32
    } else if 0x61 <= v && v <= 0x66 {
        (v - 0x57) as u32
    } else {
        0
    }
}

pub fn whitespace(c: char) -> (r: bool)
    ensures
        r == is_whitespace(c),
{
    let v = c as u32;
    v == 0x20 || v == 0x09 || v == 0xA0 || v == 0xFEFF || v == 0x1680 || v == 0x180E || (0x2000
        <= v && v <= 0x200A) || v == 0x202F || v == 0x205F || v == 0x3000
}

pub fn eol_char(c: char) -> (r: bool)
    ensures
        r == is_eol_char(c),
{
    let v = c as u32;
    v == 0x0A || v == 0x0D || v == 0x2028 || v == 0x2029
}

pub fn digit(c: char) -> (r: bool)
    ensures
        r == is_digit(c),
{
    let v = c as u32;
    0x30 <= v && v <= 0x39
}

pub fn hex_digit(c: char) -> (r: bool)
    ensures
        r == is_hex_digit(c),
{
    let v = c as u32;
    (0x30 <= v && v <= 0x39) || (0x41 <= v && v <= 0x46) || (0x61 <= v && v <= 0x66)
}

pub fn letter(c: char) -> (r: bool)
    ensures
        r == is_letter(c),
{
    let v = c as u32;
    (0x41 <= v && v <= 0x5A) || (0x61 <= v && v <= 0x7A)
}

pub fn hex_digit_value(c: char) -> (r: u32)
    ensures
        r == hex_value(c),
        is_hex_digit(c) ==> r <= 15,
{
    let v = c as u32;
    if 0x30 <= v && v <= 0x39 {
        v - 0x30
    } else if 0x41 <= v && v <= 0x46 {
        v - 0x37
    } else if 0x61 <= v && v <= 0x66 {
        v - 0x57
    } else {
        0
    }
}

} // verus!
