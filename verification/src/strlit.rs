//! Quoted string literals: single- or double-quoted, with escape decoding.
//! An escape is, in priority order: a simple escape (`\` then anything that is
//! not a digit, `x`, `u` or a line terminator), the NUL escape `\0`, a
//! two-digit hex escape `\xHH`, a four-digit unicode escape `\uHHHH`, or a
//! line continuation (`\` directly before a line terminator), which decodes to
//! a newline.
use vstd::prelude::*;
use crate::chars::{is_eol_char, is_digit, is_hex_digit, hex_value, eol_char, digit, hex_digit,
    hex_digit_value};
use crate::scan::{skip_end, skip, lemma_skip_end_bounds};

verus! {

/// Code points that a `char` can hold: everything but the surrogate range.
pub open spec fn is_scalar_value(v: u32) -> bool {
    v < 0xD800 || (0xE000 <= v && v <= 0x10FFFF)
}

/// What a simple escape `\e` decodes to: `n`, `r` and `t` name control
/// characters, anything else stands for itself.
pub open spec fn escape_char(e: char) -> char {
    if e == 'n' {
        '\n'
    } else if e == 'r' {
        '\r'
    } else if e == 't' {
        '\t'
    } else {
        e
    }
}

/// One decoded character of a literal quoted with `q`, together with the
/// position after it; `None` where no character of the literal body starts at
/// `pos` (the closing quote, a bare line terminator, a malformed escape, or
/// the end of the input).
pub open spec fn lit_char_step(s: Seq<char>, pos: int, q: char) -> Option<(char, int)> {
    if !(0 <= pos && pos < s.len()) {
        None
    } else {
        let c = s[pos];
        if c == q || is_eol_char(c) {
            None
        } else if c != '\\' {
            Some((c, pos + 1))
        } else if pos + 1 >= s.len() {
            None
        } else {
            let e = s[pos + 1];
            if !is_digit(e) && e != 'x' && e != 'u' && !is_eol_char(e) {
                Some((escape_char(e), pos + 2))
            } else if e == '0' && !(pos + 2 < s.len() && is_digit(s[pos + 2])) {
                Some(('\0', pos + 2))
            } else if e == 'x' && pos + 3 < s.len() && is_hex_digit(s[pos + 2]) && is_hex_digit(
                s[pos + 3],
            ) {
                Some((((hex_value(s[pos + 2]) * 16 + hex_value(s[pos + 3])) as u32) as char, pos + 4))
            } else if e == 'u' && pos + 5 < s.len() && is_hex_digit(s[pos + 2]) && is_hex_digit(
                s[pos + 3],
            ) && is_hex_digit(s[pos + 4]) && is_hex_digit(s[pos + 5]) {
                let v = (hex_value(s[pos + 2]) * 4096 + hex_value(s[pos + 3]) * 256 + hex_value(
                    s[pos + 4],
                ) * 16 + hex_value(s[pos + 5])) as u32;
                if is_scalar_value(v) {
                    Some((v as char, pos + 6))
                } else {
                    None
                }
            } else if is_eol_char(e) {
                if e == '\r' && pos + 2 < s.len() && s[pos + 2] == '\n' {
                    Some(('\n', pos + 3))
                } else {
                    Some(('\n', pos + 2))
                }
            } else {
                None
            }
        }
    }
}

pub proof fn lemma_lit_char_step_advances(s: Seq<char>, pos: int, q: char)
    ensures
        lit_char_step(s, pos, q) matches Some(r) ==> pos < r.1 <= s.len(),
{
}

/// The decoded body of a literal quoted with `q`, from `pos` up to and
/// including the closing quote, with the position after that quote; `None`
/// where the literal is unterminated or holds a malformed escape.
pub open spec fn lit_body(s: Seq<char>, pos: int, q: char) -> Option<(Seq<char>, int)>
    decreases s.len() - pos,
    when 0 <= pos <= s.len()
    via lit_body_decreases
{
    if pos >= s.len() {
        None
    } else if s[pos] == q {
        Some((Seq::empty(), pos + 1))
    } else {
        match lit_char_step(s, pos, q) {
            None => None,
            Some((c, p2)) => match lit_body(s, p2, q) {
                None => None,
                Some((rest, end)) => Some((seq![c] + rest, end)),
            },
        }
    }
}

#[via_fn]
proof fn lit_body_decreases(s: Seq<char>, pos: int, q: char) {
    lemma_lit_char_step_advances(s, pos, q);
}

pub proof fn lemma_lit_body_bounds(s: Seq<char>, pos: int, q: char)
    requires
        0 <= pos <= s.len(),
    ensures
        lit_body(s, pos, q) matches Some(r) ==> pos < r.1 <= s.len(),
    decreases s.len() - pos,
{
    if pos < s.len() && s[pos] != q {
        match lit_char_step(s, pos, q) {
            None => {},
            Some((c, p2)) => {
                lemma_lit_char_step_advances(s, pos, q);
                lemma_lit_body_bounds(s, p2, q);
            },
        }
    }
}

/// A complete string literal at `pos`: an opening quote, a decoded body, the
/// closing quote, and the token separation after it, giving the decoded
/// characters and the position of the next token.
pub open spec fn spec_string_lit(s: Seq<char>, pos: int) -> Option<(Seq<char>, int)> {
    if 0 <= pos && pos < s.len() && (s[pos] == '"' || s[pos] == '\'') {
        match lit_body(s, pos + 1, s[pos]) {
            None => None,
            Some((content, p)) => Some((content, skip_end(s, p))),
        }
    } else {
        None
    }
}

pub proof fn lemma_string_lit_advances(s: Seq<char>, pos: int)
    requires
        0 <= pos <= s.len(),
    ensures
        spec_string_lit(s, pos) matches Some(r) ==> pos < r.1 <= s.len(),
{
    if 0 <= pos && pos < s.len() && (s[pos] == '"' || s[pos] == '\'') {
        lemma_lit_body_bounds(s, pos + 1, s[pos]);
        match lit_body(s, pos + 1, s[pos]) {
            None => {},
            Some((content, p)) => {
                lemma_skip_end_bounds(s, p);
            },
        }
    }
}

/// Relies on char::from_u32: it returns `Some` exactly on the Unicode scalar
/// values, and the character returned has code point `v`.
#[verifier::external_body]
fn char_from_u32(v: u32) -> (r: Option<char>)
    ensures
        r is Some <==> is_scalar_value(v),
        r matches Some(c) ==> c as u32 == v,
{
    char::from_u32(v)
}

/// Relies on String::push: it appends the one character to the string.
#[verifier::external_body]
pub(crate) fn push_char(s: &mut String, c: char)
    ensures
        final(s)@ == old(s)@.push(c),
{
    s.push(c)
}

fn lit_char(s: &Vec<char>, pos: usize, q: char) -> (r: Option<(char, usize)>)
    requires
        pos <= s@.len(),
    ensures
        match (r, lit_char_step(s@, pos as int, q)) {
            (Some((c, p)), Some(sr)) => c == sr.0 && p as int == sr.1,
            (None, None) => true,
            _ => false,
        },
{
    if pos >= s.len() {
        return None;
    }
    let c = s[pos];
    if c == q || eol_char(c) {
        return None;
    }
    if c != '\\' {
        return Some((c, pos + 1));
    }
    if pos + 1 >= s.len() {
        return None;
    }
    let e = s[pos + 1];
    if !digit(e) && e != 'x' && e != 'u' && !eol_char(e) {
        let d = if e == 'n' {
            '\n'
        } else if e == 'r' {
            '\r'
        } else if e == 't' {
            '\t'
        } else {
            e
        };
        return Some((d, pos + 2));
    }
    if e == '0' && !(pos + 2 < s.len() && digit(s[pos + 2])) {
        return Some(('\0', pos + 2));
    }
    if e == 'x' && s.len() - pos > 3 && hex_digit(s[pos + 2]) && hex_digit(s[pos + 3]) {
        let v = hex_digit_value(s[pos + 2]) * 16 + hex_digit_value(s[pos + 3]);
        match char_from_u32(v) {
            Some(d) => {
                proof {
                    vstd::utf8::char_u32_cast(d, v);
                }
                return Some((d, pos + 4));
            },
            None => {
                proof {
                    assert(false);
                }
                return None;
            },
        }
    }
    if e == 'u' && s.len() - pos > 5 && hex_digit(s[pos + 2]) && hex_digit(s[pos + 3]) && hex_digit(
        s[pos + 4],
    ) && hex_digit(s[pos + 5]) {
        let v = hex_digit_value(s[pos + 2]) * 4096 + hex_digit_value(s[pos + 3]) * 256
            + hex_digit_value(s[pos + 4]) * 16 + hex_digit_value(s[pos + 5]);
        match char_from_u32(v) {
            Some(d) => {
                proof {
                    vstd::utf8::char_u32_cast(d, v);
                }
                return Some((d, pos + 6));
            },
            None => {
                return None;
            },
        }
    }
    if eol_char(e) {
        if e == '\r' && pos + 2 < s.len() && s[pos + 2] == '\n' {
            return Some(('\n', pos + 3));
        } else {
            return Some(('\n', pos + 2));
        }
    }
    None
}

fn lit_body_exec(s: &Vec<char>, pos: usize, q: char) -> (r: Option<(String, usize)>)
    requires
        pos <= s@.len(),
    ensures
        match (r, lit_body(s@, pos as int, q)) {
            (Some((out, p)), Some(sr)) => out@ == sr.0 && p as int == sr.1,
            (None, None) => true,
            _ => false,
        },
{
    let mut out = String::new();
    let mut p = pos;
    loop
        invariant
            pos <= p <= s@.len(),
            lit_body(s@, pos as int, q) == (match lit_body(s@, p as int, q) {
                None => None::<(Seq<char>, int)>,
                Some((rest, end)) => Some((out@ + rest, end)),
            }),
        decreases s@.len() - p,
    {
        if p >= s.len() {
            return None;
        }
        let c = s[p];
        if c == q {
            proof {
                assert(out@ + Seq::<char>::empty() =~= out@);
            }
            return Some((out, p + 1));
        }
        match lit_char(s, p, q) {
            None => {
                return None;
            },
            Some((c2, p2)) => {
                proof {
                    lemma_lit_char_step_advances(s@, p as int, q);
                    match lit_body(s@, p2 as int, q) {
                        None => {},
                        Some((rest, end)) => {
                            assert(out@ + (seq![c2] + rest) =~= out@.push(c2) + rest);
                        },
                    }
                }
                push_char(&mut out, c2);
                p = p2;
            },
        }
    }
}

/// Parse a complete string literal at `pos`, as `spec_string_lit` describes.
pub fn string_lit(s: &Vec<char>, pos: usize) -> (r: Option<(String, usize)>)
    requires
        pos <= s@.len(),
    ensures
        match (r, spec_string_lit(s@, pos as int)) {
            (Some((out, p)), Some(sr)) => out@ == sr.0 && p as int == sr.1,
            (None, None) => true,
            _ => false,
        },
{
    if pos >= s.len() {
        return None;
    }
    let c = s[pos];
    if c == '"' || c == '\'' {
        match lit_body_exec(s, pos + 1, c) {
            None => None,
            Some((content, p)) => {
                proof {
                    lemma_lit_body_bounds(s@, pos + 1, c);
                }
                let e = skip(s, p);
                Some((content, e))
            },
        }
    } else {
        None
    }
}

} // verus!
