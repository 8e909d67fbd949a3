//! Scanning between tokens: the grammar lets any run of whitespace, line
//! terminators and `#` line comments stand between syntactically significant
//! tokens. `skip_end` gives the position after such a maximal run.
use vstd::prelude::*;
use vstd::string::StrSliceExecFns;
use crate::chars::{is_whitespace, is_eol_char, is_digit, is_letter, whitespace, eol_char, digit,
    letter};

verus! {

/// First position at or after `pos` holding a line terminator, or the end of
/// the input: where a `#` comment stops.
pub open spec fn line_end(s: Seq<char>, pos: int) -> int
    decreases s.len() - pos,
    when 0 <= pos <= s.len()
{
    if pos >= s.len() {
        pos
    } else if is_eol_char(s[pos]) {
        pos
    } else {
        line_end(s, pos + 1)
    }
}

pub proof fn lemma_line_end_bounds(s: Seq<char>, pos: int)
    requires
        0 <= pos <= s.len(),
    ensures
        pos <= line_end(s, pos) <= s.len(),
    decreases s.len() - pos,
{
    if pos < s.len() && !is_eol_char(s[pos]) {
        lemma_line_end_bounds(s, pos + 1);
    }
}

/// Position after the maximal run of whitespace, line terminators and line
/// comments starting at `pos`.
pub open spec fn skip_end(s: Seq<char>, pos: int) -> int
    decreases s.len() - pos,
    when 0 <= pos <= s.len()
    via skip_end_decreases
{
    if pos >= s.len() {
        pos
    } else if is_whitespace(s[pos]) || is_eol_char(s[pos]) {
        skip_end(s, pos + 1)
    } else if s[pos] == '#' {
        skip_end(s, line_end(s, pos + 1))
    } else {
        pos
    }
}

#[via_fn]
proof fn skip_end_decreases(s: Seq<char>, pos: int) {
    if 0 <= pos && pos < s.len() {
        lemma_line_end_bounds(s, pos + 1);
    }
}

pub proof fn lemma_skip_end_bounds(s: Seq<char>, pos: int)
    requires
        0 <= pos <= s.len(),
    ensures
        pos <= skip_end(s, pos) <= s.len(),
    decreases s.len() - pos,
{
    if pos < s.len() {
        if is_whitespace(s[pos]) || is_eol_char(s[pos]) {
            lemma_skip_end_bounds(s, pos + 1);
        } else if s[pos] == '#' {
            lemma_line_end_bounds(s, pos + 1);
            lemma_skip_end_bounds(s, line_end(s, pos + 1));
        }
    }
}

/// End of the maximal identifier-continuation run (letters, digits,
/// underscores) starting at `pos`.
pub open spec fn ident_end(s: Seq<char>, pos: int) -> int
    decreases s.len() - pos,
    when 0 <= pos <= s.len()
{
    if pos >= s.len() {
        pos
    } else if is_letter(s[pos]) || is_digit(s[pos]) || s[pos] == '_' {
        ident_end(s, pos + 1)
    } else {
        pos
    }
}

pub proof fn lemma_ident_end_bounds(s: Seq<char>, pos: int)
    requires
        0 <= pos <= s.len(),
    ensures
        pos <= ident_end(s, pos) <= s.len(),
    decreases s.len() - pos,
{
    if pos < s.len() && (is_letter(s[pos]) || is_digit(s[pos]) || s[pos] == '_') {
        lemma_ident_end_bounds(s, pos + 1);
    }
}

/// First index at or after `pos` holding `c`, or the length of `s`.
pub open spec fn find_from(s: Seq<char>, c: char, pos: int) -> int
    decreases s.len() - pos,
    when 0 <= pos <= s.len()
{
    if pos >= s.len() {
        pos
    } else if s[pos] == c {
        pos
    } else {
        find_from(s, c, pos + 1)
    }
}

pub proof fn lemma_find_from_bounds(s: Seq<char>, c: char, pos: int)
    requires
        0 <= pos <= s.len(),
    ensures
        pos <= find_from(s, c, pos) <= s.len(),
        find_from(s, c, pos) < s.len() ==> s[find_from(s, c, pos)] == c,
        forall|i: int| pos <= i < find_from(s, c, pos) ==> s[i] != c,
    decreases s.len() - pos,
{
    if pos < s.len() && s[pos] != c {
        lemma_find_from_bounds(s, c, pos + 1);
    }
}

pub fn line_to_end(s: &Vec<char>, pos: usize) -> (r: usize)
    requires
        pos <= s@.len(),
    ensures
        r as int == line_end(s@, pos as int),
        pos <= r <= s@.len(),
{
    let mut p = pos;
    loop
        invariant
            pos <= p <= s@.len(),
            line_end(s@, pos as int) == line_end(s@, p as int),
        decreases s@.len() - p,
    {
        if p >= s.len() {
            return p;
        }
        if eol_char(s[p]) {
            return p;
        }
        p = p + 1;
    }
}

pub fn skip(s: &Vec<char>, pos: usize) -> (r: usize)
    requires
        pos <= s@.len(),
    ensures
        r as int == skip_end(s@, pos as int),
        pos <= r <= s@.len(),
{
    let mut p = pos;
    loop
        invariant
            pos <= p <= s@.len(),
            skip_end(s@, pos as int) == skip_end(s@, p as int),
        decreases s@.len() - p,
    {
        if p >= s.len() {
            return p;
        }
        let c = s[p];
        if whitespace(c) || eol_char(c) {
            p = p + 1;
        } else if c == '#' {
            let e = line_to_end(s, p + 1);
            proof {
                lemma_line_end_bounds(s@, p + 1);
            }
            p = e;
        } else {
            return p;
        }
    }
}

/// The characters of `s`, one by one.
pub fn str_chars(s: &str) -> (r: Vec<char>)
    ensures
        r@ == s@,
{
    let n = s.unicode_len();
    let mut v: Vec<char> = Vec::new();
    let mut i: usize = 0;
    while i < n
        invariant
            i <= n,
            n == s@.len(),
            v@ == s@.subrange(0, i as int),
        decreases n - i,
    {
        let c = s.get_char(i);
        v.push(c);
        proof {
            assert(v@ =~= s@.subrange(0, i + 1));
        }
        i = i + 1;
    }
    proof {
        assert(v@ =~= s@);
    }
    v
}

/// First occurrence of `c` in `s` at or after `pos`, or the length of `s`.
pub fn find_char_from(s: &str, c: char, pos: usize) -> (r: usize)
    requires
        pos <= s@.len(),
    ensures
        r as int == find_from(s@, c, pos as int),
        pos <= r <= s@.len(),
{
    let n = s.unicode_len();
    let mut p = pos;
    loop
        invariant
            pos <= p <= n,
            n == s@.len(),
            find_from(s@, c, pos as int) == find_from(s@, c, p as int),
        decreases n - p,
    {
        if p >= n {
            return p;
        }
        if s.get_char(p) == c {
            return p;
        }
        p = p + 1;
    }
}

pub fn ident_to_end(s: &Vec<char>, pos: usize) -> (r: usize)
    requires
        pos <= s@.len(),
    ensures
        r as int == ident_end(s@, pos as int),
        pos <= r <= s@.len(),
{
    let mut p = pos;
    loop
        invariant
            pos <= p <= s@.len(),
            ident_end(s@, pos as int) == ident_end(s@, p as int),
        decreases s@.len() - p,
    {
        if p >= s.len() {
            return p;
        }
        let c = s[p];
        if letter(c) || digit(c) || c == '_' {
            p = p + 1;
        } else {
            return p;
        }
    }
}

} // verus!
