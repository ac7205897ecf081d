//! Executable character tests matching the grammar's character classes,
//! and small string-building helpers.

use vstd::prelude::*;
use crate::grammar::{is_digit, is_ident_cont, is_ident_start, is_name_char, is_space};

verus! {

/// Whether `c` is a decimal digit.
pub(crate) fn digit(c: char) -> (b: bool)
    ensures
        b == is_digit(c),
{
    let u = c as u32;
    (u >= '0' as u32) && (u <= '9' as u32)
}

/// Whether `c` may start an identifier.
pub(crate) fn ident_start(c: char) -> (b: bool)
    ensures
        b == is_ident_start(c),
{
    let u = c as u32;
    (u >= 'a' as u32 && u <= 'z' as u32) || (u >= 'A' as u32 && u <= 'Z' as u32) || c == '_'
}

/// Whether `c` may continue an identifier part.
pub(crate) fn ident_cont(c: char) -> (b: bool)
    ensures
        b == is_ident_cont(c),
{
    ident_start(c) || digit(c) || c == '-'
}

/// Whether the identifier scanner consumes `c`.
pub(crate) fn name_char(c: char) -> (b: bool)
    ensures
        b == is_name_char(c),
{
    ident_cont(c) || c == ':'
}

/// Whether `c` is insignificant whitespace.
pub(crate) fn space(c: char) -> (b: bool)
    ensures
        b == is_space(c),
{
    c == ' ' || c == '\n' || c == '\t' || c == '\r'
}

/// Relies on `String::push`: appends the given character to the end of
/// the string.
#[verifier::external_body]
pub(crate) fn push_char(s: &mut String, c: char)
    ensures
        final(s)@ == old(s)@.push(c),
{
    s.push(c)
}

/// Copies the characters at `[i, j)` into a fresh string.
pub(crate) fn chars_to_string(s: &Vec<char>, i: usize, j: usize) -> (r: String)
    requires
        i <= j <= s@.len(),
    ensures
        r@ == s@.subrange(i as int, j as int),
{
    let mut r = String::new();
    let mut m: usize = i;
    while m < j
        invariant
            i <= m <= j <= s@.len(),
            r@ == s@.subrange(i as int, m as int),
        decreases j - m,
    {
        push_char(&mut r, s[m]);
        m = m + 1;
        proof {
            assert(r@ =~= s@.subrange(i as int, m as int));
        }
    }
    r
}

/// Copies a string's characters into a vector.
pub(crate) fn string_to_chars(s: &str) -> (r: Vec<char>)
    ensures
        r@ == s@,
{
    let n = s.unicode_len();
    let mut r: Vec<char> = Vec::new();
    let mut i: usize = 0;
    while i < n
        invariant
            i <= n == s@.len(),
            r@ == s@.take(i as int),
        decreases n - i,
    {
        r.push(s.get_char(i));
        i = i + 1;
        proof {
            assert(r@ =~= s@.take(i as int));
        }
    }
    proof {
        assert(r@ =~= s@);
    }
    r
}

} // verus!
