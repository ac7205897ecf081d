//! The executable parser, proved equal to the grammar's parsing functions.

use vstd::prelude::*;
use crate::ast::{
    AstArgument, AstBlock, AstCommand, AstFloat, AstName, AstSwitch, AstTime, SpecArgument,
    SpecCommand, lemma_view_cmds, view_arg, view_args, view_cmd, view_cmds, view_name,
};
use crate::grammar::{
    comment_end, digits_val, is_digit, is_ident, is_ident_rest, is_ident_start, is_name_char,
    lemma_digits_val_mono, lemma_scan_unique, scan, skip_ws, sp_args, sp_argument, sp_cmds_eof,
    sp_cmds_until, sp_command, sp_file, sp_name, sp_number, sp_string_body,
};
use crate::text::{chars_to_string, digit, ident_cont, ident_start, name_char, push_char, space,
    string_to_chars};

verus! {

/// A parse failure: where it happened, in characters from the start of the
/// input, and what was expected there.
#[derive(Debug)]
pub struct SyntaxError {
    /// Position of the failure, in characters from the start of the input.
    pub offset: usize,
    /// A description of what was expected.
    pub expected: &'static str,
}

/// How many line breaks come before a position.
pub open spec fn count_newlines(s: Seq<char>) -> nat
    decreases s.len(),
{
    if s.len() == 0 {
        0
    } else {
        count_newlines(s.drop_last()) + (if s.last() == '\n' {
            1nat
        } else {
            0nat
        })
    }
}

/// The one-based column of the position that follows `s`.
pub open spec fn column_after(s: Seq<char>) -> nat
    decreases s.len(),
{
    if s.len() == 0 {
        1
    } else if s.last() == '\n' {
        1
    } else {
        column_after(s.drop_last()) + 1
    }
}

impl SyntaxError {
    /// The one-based line and column of the failure in the given text (the
    /// text the parser was called on).
    pub fn line_column(&self, text: &str) -> (r: (usize, usize))
        requires
            self.offset <= text@.len(),
            text@.len() < usize::MAX,
        ensures
            r.0 == count_newlines(text@.take(self.offset as int)) + 1,
            r.1 == column_after(text@.take(self.offset as int)),
    {
        let chars = string_to_chars(text);
        let mut line: usize = 1;
        let mut col: usize = 1;
        let mut i: usize = 0;
        proof {
            assert(chars@.take(0) =~= Seq::<char>::empty());
        }
        while i < self.offset
            invariant
                i <= self.offset <= chars@.len() == text@.len() < usize::MAX,
                chars@ == text@,
                line == count_newlines(text@.take(i as int)) + 1,
                col == column_after(text@.take(i as int)),
                line <= i + 1,
                col <= i + 1,
            decreases self.offset - i,
        {
            proof {
                assert(text@.take(i as int + 1).drop_last() =~= text@.take(i as int));
                assert(text@.take(i as int + 1).last() == text@[i as int]);
            }
            if chars[i] == '\n' {
                line = line + 1;
                col = 1;
            } else {
                col = col + 1;
            }
            i = i + 1;
        }
        (line, col)
    }
}

/// Skips whitespace and comments, returning the position that follows them.
fn p_ws(s: &Vec<char>, i: usize) -> (j: usize)
    requires
        i <= s@.len(),
    ensures
        i <= j <= s@.len(),
        skip_ws(s@.skip(i as int)) == s@.skip(j as int),
{
    let mut m: usize = i;
    loop
        invariant
            i <= m <= s@.len(),
            skip_ws(s@.skip(i as int)) == skip_ws(s@.skip(m as int)),
        decreases s@.len() - m,
    {
        if m == s.len() {
            proof {
                assert(s@.skip(m as int) =~= Seq::<char>::empty());
            }
            return m;
        }
        let c = s[m];
        if space(c) {
            proof {
                assert(s@.skip(m as int).drop_first() =~= s@.skip(m as int + 1));
            }
            m = m + 1;
        } else if c == '#' {
            proof {
                assert(s@.skip(m as int).drop_first() =~= s@.skip(m as int + 1));
            }
            match p_comment_end(s, m + 1) {
                Some(j) => {
                    m = j;
                },
                None => {
                    return m;
                },
            }
        } else {
            return m;
        }
    }
}

/// Finds the position after the end-of-line that closes a comment, the
/// search starting right after its `#`.
fn p_comment_end(s: &Vec<char>, i: usize) -> (r: Option<usize>)
    requires
        i <= s@.len(),
    ensures
        match r {
            Some(j) => i < j <= s@.len() && comment_end(s@.skip(i as int)) == Some(
                s@.skip(j as int),
            ),
            None => comment_end(s@.skip(i as int)) is None,
        },
{
    let mut m: usize = i;
    loop
        invariant
            i <= m <= s@.len(),
            comment_end(s@.skip(i as int)) == comment_end(s@.skip(m as int)),
        decreases s@.len() - m,
    {
        if m == s.len() {
            proof {
                assert(s@.skip(m as int) =~= Seq::<char>::empty());
            }
            return None;
        }
        let c = s[m];
        if c == '\r' {
            if m + 1 < s.len() && s[m + 1] == '\n' {
                proof {
                    assert(s@.skip(m as int).skip(2) =~= s@.skip(m as int + 2));
                }
                return Some(m + 2);
            } else {
                proof {
                    assert(s@.skip(m as int).drop_first() =~= s@.skip(m as int + 1));
                }
                return Some(m + 1);
            }
        } else if c == '\n' {
            proof {
                assert(s@.skip(m as int).drop_first() =~= s@.skip(m as int + 1));
            }
            return Some(m + 1);
        } else {
            proof {
                assert(s@.skip(m as int).drop_first() =~= s@.skip(m as int + 1));
            }
            m = m + 1;
        }
    }
}

/// Scans the identifier characters (and namespace colons) starting at `i`.
fn p_scan_name(s: &Vec<char>, i: usize) -> (j: usize)
    requires
        i <= s@.len(),
    ensures
        i <= j <= s@.len(),
        j - i == scan(s@.skip(i as int), |c: char| is_name_char(c)),
{
    let mut m: usize = i;
    while m < s.len() && name_char(s[m])
        invariant
            i <= m <= s@.len(),
            forall|x: int| i <= x < m ==> is_name_char(#[trigger] s@[x]),
        decreases s@.len() - m,
    {
        m = m + 1;
    }
    proof {
        let sub = s@.skip(i as int);
        assert forall|x: int| 0 <= x < m - i implies is_name_char(#[trigger] sub[x]) by {
            assert(sub[x] == s@[i + x]);
        }
        if (m - i) < sub.len() {
            assert(sub[m - i] == s@[m as int]);
        }
        lemma_scan_unique(sub, |c: char| is_name_char(c), (m - i) as nat);
    }
    m
}

/// Scans the digits starting at `i`.
fn p_scan_digits(s: &Vec<char>, i: usize) -> (j: usize)
    requires
        i <= s@.len(),
    ensures
        i <= j <= s@.len(),
        j - i == scan(s@.skip(i as int), |c: char| is_digit(c)),
{
    let mut m: usize = i;
    while m < s.len() && digit(s[m])
        invariant
            i <= m <= s@.len(),
            forall|x: int| i <= x < m ==> is_digit(#[trigger] s@[x]),
        decreases s@.len() - m,
    {
        m = m + 1;
    }
    proof {
        let sub = s@.skip(i as int);
        assert forall|x: int| 0 <= x < m - i implies is_digit(#[trigger] sub[x]) by {
            assert(sub[x] == s@[i + x]);
        }
        if (m - i) < sub.len() {
            assert(sub[m - i] == s@[m as int]);
        }
        lemma_scan_unique(sub, |c: char| is_digit(c), (m - i) as nat);
    }
    m
}

/// Checks that the characters at `[i, j)` form an identifier, with `::`
/// only between identifier parts.
fn p_check_ident(s: &Vec<char>, i: usize, j: usize) -> (b: bool)
    requires
        i <= j <= s@.len(),
    ensures
        b == is_ident(s@.subrange(i as int, j as int)),
{
    let ghost tok = s@.subrange(i as int, j as int);
    if i == j {
        return false;
    }
    if !ident_start(s[i]) {
        proof {
            assert(tok[0] == s@[i as int]);
        }
        return false;
    }
    proof {
        assert(tok[0] == s@[i as int]);
        assert(tok.drop_first() =~= s@.subrange(i as int + 1, j as int));
    }
    let mut m: usize = i + 1;
    loop
        invariant
            i + 1 <= m <= j <= s@.len(),
            tok == s@.subrange(i as int, j as int),
            tok.len() > 0 && is_ident_start(tok[0]),
            is_ident(tok) == is_ident_rest(s@.subrange(m as int, j as int)),
        decreases j - m,
    {
        if m == j {
            proof {
                assert(s@.subrange(m as int, j as int) =~= Seq::<char>::empty());
            }
            return true;
        }
        let ghost rest = s@.subrange(m as int, j as int);
        proof {
            assert(rest[0] == s@[m as int]);
        }
        let c = s[m];
        if ident_cont(c) {
            proof {
                assert(rest.drop_first() =~= s@.subrange(m as int + 1, j as int));
            }
            m = m + 1;
        } else if c == ':' {
            if j - m > 2 && s[m + 1] == ':' && ident_start(s[m + 2]) {
                proof {
                    assert(rest.len() >= 3);
                    assert(rest[1] == s@[m as int + 1]);
                    assert(rest[2] == s@[m as int + 2]);
                    assert(rest.skip(3) =~= s@.subrange(m as int + 3, j as int));
                }
                m = m + 3;
            } else {
                proof {
                    if rest.len() >= 3 {
                        assert(rest[1] == s@[m as int + 1]);
                        assert(rest[2] == s@[m as int + 2]);
                    } else {
                        if rest.len() == 2 {
                            assert(rest[1] == s@[m as int + 1]);
                        }
                    }
                }
                return false;
            }
        } else {
            return false;
        }
    }
}

/// Parses a name token.
fn p_name(s: &Vec<char>, i: usize) -> (r: Result<(AstName, usize), SyntaxError>)
    requires
        i <= s@.len(),
    ensures
        match r {
            Ok((n, j)) => i < j <= s@.len() && sp_name(s@.skip(i as int)) == Some(
                (view_name(n), s@.skip(j as int)),
            ),
            Err(e) => sp_name(s@.skip(i as int)) is None && e.offset <= s@.len(),
        },
{
    let ghost sub = s@.skip(i as int);
    if i == s.len() {
        return Err(SyntaxError { offset: i, expected: "a command or argument name" });
    }
    proof {
        assert(sub[0] == s@[i as int]);
    }
    let c = s[i];
    if c == '~' {
        proof {
            assert(sub.drop_first() =~= s@.skip(i as int + 1));
        }
        Ok((AstName::Placeholder, i + 1))
    } else if c == '$' {
        let ghost t = sub.drop_first();
        proof {
            assert(t =~= s@.skip(i as int + 1));
            if i + 1 < s@.len() {
                assert(t[0] == s@[i as int + 1]);
            }
        }
        if i + 1 < s.len() && ident_start(s[i + 1]) {
            let j = p_scan_name(s, i + 1);
            proof {
                assert(t.take(j - (i + 1)) =~= s@.subrange(i as int + 1, j as int));
                assert(t.skip(j - (i + 1)) =~= s@.skip(j as int));
            }
            if p_check_ident(s, i + 1, j) {
                let name = chars_to_string(s, i + 1, j);
                Ok((AstName::Variable(name), j))
            } else {
                Err(SyntaxError { offset: i + 1, expected: "a variable name" })
            }
        } else if i + 1 < s.len() && digit(s[i + 1]) {
            let j = p_scan_digits(s, i + 1);
            proof {
                assert(t.take(j - (i + 1)) =~= s@.subrange(i as int + 1, j as int));
                assert(t.skip(j - (i + 1)) =~= s@.skip(j as int));
            }
            let name = chars_to_string(s, i + 1, j);
            Ok((AstName::Variable(name), j))
        } else {
            Err(SyntaxError { offset: i + 1, expected: "a variable name" })
        }
    } else if ident_start(c) {
        let j = p_scan_name(s, i);
        proof {
            assert(sub.take(j - i) =~= s@.subrange(i as int, j as int));
            assert(sub.skip(j - i) =~= s@.skip(j as int));
        }
        if p_check_ident(s, i, j) {
            let name = chars_to_string(s, i, j);
            proof {
                assert(j > i) by {
                    assert(is_ident(s@.subrange(i as int, j as int)));
                }
            }
            Ok((AstName::Name(name), j))
        } else {
            Err(SyntaxError { offset: i, expected: "an identifier" })
        }
    } else {
        Err(SyntaxError { offset: i, expected: "a command or argument name" })
    }
}

/// Parses a number token: an integer, or a float kept as its digit runs.
#[verifier::loop_isolation(false)]
fn p_number(s: &Vec<char>, i: usize) -> (r: Result<(AstArgument, usize), SyntaxError>)
    requires
        i <= s@.len(),
    ensures
        match r {
            Ok((a, j)) => i < j <= s@.len() && sp_number(s@.skip(i as int)) == Some(
                (view_arg(a), s@.skip(j as int)),
            ),
            Err(e) => sp_number(s@.skip(i as int)) is None && e.offset <= s@.len(),
        },
{
    let ghost sub = s@.skip(i as int);
    if i == s.len() {
        return Err(SyntaxError { offset: i, expected: "a number" });
    }
    proof {
        assert(sub[0] == s@[i as int]);
    }
    if !digit(s[i]) {
        return Err(SyntaxError { offset: i, expected: "a number" });
    }
    let j = p_scan_digits(s, i);
    proof {
        assert(sub.take(j - i) =~= s@.subrange(i as int, j as int));
        assert(sub.skip(j - i) =~= s@.skip(j as int));
        if j < s@.len() {
            assert(s@.skip(j as int)[0] == s@[j as int]);
        }
        if j + 1 < s@.len() {
            assert(s@.skip(j as int)[1] == s@[j as int + 1]);
        }
    }
    if j < s.len() && s[j] == '.' && j + 1 < s.len() && digit(s[j + 1]) {
        let ghost t = s@.skip(j as int).drop_first();
        proof {
            assert(t =~= s@.skip(j as int + 1));
        }
        let j2 = p_scan_digits(s, j + 1);
        proof {
            assert(t.take(j2 - (j + 1)) =~= s@.subrange(j as int + 1, j2 as int));
            assert(t.skip(j2 - (j + 1)) =~= s@.skip(j2 as int));
        }
        let integral = chars_to_string(s, i, j);
        let fractional = chars_to_string(s, j + 1, j2);
        Ok((AstArgument::Float(AstFloat { integral, fractional }), j2))
    } else {
        let ghost tok = s@.subrange(i as int, j as int);
        proof {
            crate::grammar::lemma_scan(sub, |c: char| is_digit(c));
            assert forall|x: int| 0 <= x < tok.len() implies is_digit(#[trigger] tok[x]) by {
                assert(tok[x] == sub[x]);
            }
            assert(tok.take(0) =~= Seq::<char>::empty());
        }
        let mut acc: u64 = 0;
        let mut m: usize = i;
        while m < j
            invariant
                i <= m <= j <= s@.len(),
                tok == s@.subrange(i as int, j as int),
                acc == digits_val(tok.take(m - i)),
                acc <= 0x7fffffff,
                forall|x: int| 0 <= x < tok.len() ==> is_digit(#[trigger] tok[x]),
            decreases j - m,
        {
            proof {
                assert(tok[m - i] == s@[m as int]);
                assert(is_digit(tok[m - i]));
            }
            let d = (s[m] as u32) - ('0' as u32);
            proof {
                assert(d == crate::grammar::digit_val(tok[m - i]));
                assert(d <= 9);
                assert(tok.take(m - i + 1).drop_last() =~= tok.take(m - i));
                assert(tok.take(m - i + 1).last() == tok[m - i]);
                assert(digits_val(tok.take(m - i + 1)) == digits_val(tok.take(m - i)) * 10
                    + crate::grammar::digit_val(tok[m - i]));
            }
            let next: u64 = acc * 10 + (d as u64);
            if next > 0x7fffffff {
                proof {
                    assert(digits_val(tok.take(m - i + 1)) == next);
                    lemma_digits_val_mono(tok, m - i + 1, tok.len() as int);
                    assert(tok.take(tok.len() as int) =~= tok);
                    assert(digits_val(tok) > i32::MAX);
                    assert(sub.take(j - i) == tok);
                    assert(sp_number(s@.skip(i as int)) is None);
                }
                return Err(SyntaxError { offset: i, expected: "an integer that fits 32 bits" });
            }
            acc = next;
            m = m + 1;
        }
        proof {
            assert(tok.take(tok.len() as int) =~= tok);
        }
        Ok((AstArgument::Integer(acc as i32), j))
    }
}

/// Parses a string body after the opening quote, up to and including the
/// closing quote.
fn p_string_body(s: &Vec<char>, i: usize) -> (r: Result<(String, usize), SyntaxError>)
    requires
        i <= s@.len(),
    ensures
        match r {
            Ok((b, j)) => i < j <= s@.len() && sp_string_body(s@.skip(i as int)) == Some(
                (b@, s@.skip(j as int)),
            ),
            Err(e) => sp_string_body(s@.skip(i as int)) is None && e.offset <= s@.len(),
        },
{
    let mut acc = String::new();
    let mut m: usize = i;
    loop
        invariant
            i <= m <= s@.len(),
            match sp_string_body(s@.skip(m as int)) {
                Some((b, r)) => sp_string_body(s@.skip(i as int)) == Some((acc@ + b, r)),
                None => sp_string_body(s@.skip(i as int)) is None,
            },
        decreases s@.len() - m,
    {
        if m == s.len() {
            proof {
                assert(s@.skip(m as int) =~= Seq::<char>::empty());
            }
            return Err(SyntaxError { offset: m, expected: "a closing quote" });
        }
        let ghost rest = s@.skip(m as int);
        proof {
            assert(rest[0] == s@[m as int]);
            if m + 1 < s@.len() {
                assert(rest[1] == s@[m as int + 1]);
            }
        }
        let c = s[m];
        if c == '"' {
            proof {
                assert(rest.drop_first() =~= s@.skip(m as int + 1));
                assert(acc@ + Seq::<char>::empty() =~= acc@);
            }
            return Ok((acc, m + 1));
        } else if c == '\\' {
            if m + 1 < s.len() {
                let e = s[m + 1];
                let mapped: char;
                if e == 's' {
                    mapped = ' ';
                } else if e == 't' {
                    mapped = '\t';
                } else if e == 'n' {
                    mapped = '\n';
                } else if e == 'r' {
                    mapped = '\r';
                } else if e == '"' {
                    mapped = '"';
                } else {
                    return Err(
                        SyntaxError { offset: m + 1, expected: "an escape: s, t, n, r or a quote" },
                    );
                }
                proof {
                    assert(rest.skip(2) =~= s@.skip(m as int + 2));
                }
                let ghost old_acc = acc@;
                push_char(&mut acc, mapped);
                proof {
                    if let Some((b2, r2)) = sp_string_body(s@.skip(m as int + 2)) {
                        assert(old_acc + (seq![mapped] + b2) =~= acc@ + b2);
                    }
                }
                m = m + 2;
            } else {
                return Err(SyntaxError { offset: m + 1, expected: "an escape letter" });
            }
        } else {
            proof {
                assert(rest.drop_first() =~= s@.skip(m as int + 1));
            }
            let ghost old_acc = acc@;
            push_char(&mut acc, c);
            proof {
                if let Some((b2, r2)) = sp_string_body(s@.skip(m as int + 1)) {
                    assert(old_acc + (seq![c] + b2) =~= acc@ + b2);
                }
            }
            m = m + 1;
        }
    }
}

/// Parses one argument.
fn p_argument(s: &Vec<char>, i: usize) -> (r: Result<(AstArgument, usize), SyntaxError>)
    requires
        i <= s@.len(),
    ensures
        match r {
            Ok((a, j)) => i < j <= s@.len() && sp_argument(s@.skip(i as int)) == Some(
                (view_arg(a), s@.skip(j as int)),
            ),
            Err(e) => sp_argument(s@.skip(i as int)) is None && e.offset <= s@.len(),
        },
    decreases s@.len() - i, 1int,
{
    let ghost sub = s@.skip(i as int);
    if i == s.len() {
        return Err(SyntaxError { offset: i, expected: "an argument" });
    }
    proof {
        assert(sub[0] == s@[i as int]);
    }
    let c = s[i];
    if c == '~' || c == '$' || ident_start(c) {
        match p_name(s, i) {
            Ok((n, j)) => Ok((AstArgument::Name(n), j)),
            Err(e) => Err(e),
        }
    } else if digit(c) {
        p_number(s, i)
    } else if c == '"' {
        proof {
            assert(sub.drop_first() =~= s@.skip(i as int + 1));
        }
        match p_string_body(s, i + 1) {
            Ok((b, j)) => Ok((AstArgument::String(b), j)),
            Err(e) => Err(e),
        }
    } else if c == '+' || c == '-' {
        let ghost t = sub.drop_first();
        proof {
            assert(t =~= s@.skip(i as int + 1));
            if i + 1 < s@.len() {
                assert(t[0] == s@[i as int + 1]);
            }
        }
        if i + 1 < s.len() && ident_start(s[i + 1]) {
            let j = p_scan_name(s, i + 1);
            proof {
                assert(t.take(j - (i + 1)) =~= s@.subrange(i as int + 1, j as int));
                assert(t.skip(j - (i + 1)) =~= s@.skip(j as int));
            }
            if p_check_ident(s, i + 1, j) {
                let name = chars_to_string(s, i + 1, j);
                let w = if c == '+' {
                    AstSwitch::On(name)
                } else {
                    AstSwitch::Off(name)
                };
                Ok((AstArgument::Switch(w), j))
            } else {
                Err(SyntaxError { offset: i + 1, expected: "a switch name" })
            }
        } else {
            Err(SyntaxError { offset: i + 1, expected: "a switch name" })
        }
    } else if c == '/' {
        let ghost t = sub.drop_first();
        proof {
            assert(t =~= s@.skip(i as int + 1));
            if i + 1 < s@.len() {
                assert(t[0] == s@[i as int + 1]);
            }
        }
        if i + 1 < s.len() && ident_start(s[i + 1]) {
            let j = p_scan_name(s, i + 1);
            proof {
                assert(t.take(j - (i + 1)) =~= s@.subrange(i as int + 1, j as int));
                assert(t.skip(j - (i + 1)) =~= s@.skip(j as int));
            }
            if p_check_ident(s, i + 1, j) {
                proof {
                    assert(j - (i + 1) >= 1) by {
                        assert(is_ident(s@.subrange(i as int + 1, j as int)));
                    }
                }
                let name = chars_to_string(s, i + 1, j);
                let u = p_ws(s, j);
                match p_argument(s, u) {
                    Ok((v, j2)) => Ok(
                        (AstArgument::Switch(AstSwitch::Option(name, Box::new(v))), j2),
                    ),
                    Err(e) => Err(e),
                }
            } else {
                Err(SyntaxError { offset: i + 1, expected: "a switch name" })
            }
        } else {
            Err(SyntaxError { offset: i + 1, expected: "a switch name" })
        }
    } else if c == '{' {
        proof {
            assert(sub.drop_first() =~= s@.skip(i as int + 1));
        }
        let u = p_ws(s, i + 1);
        match p_cmds_until(s, u) {
            Ok((cs, j)) => Ok((AstArgument::Block(AstBlock::Evaluated(cs)), j)),
            Err(e) => Err(e),
        }
    } else if c == '&' {
        if i + 1 < s.len() && s[i + 1] == '{' {
            proof {
                assert(sub[1] == s@[i as int + 1]);
                assert(sub.skip(2) =~= s@.skip(i as int + 2));
            }
            let u = p_ws(s, i + 2);
            match p_cmds_until(s, u) {
                Ok((cs, j)) => Ok((AstArgument::Block(AstBlock::Argument(cs)), j)),
                Err(e) => Err(e),
            }
        } else {
            proof {
                if sub.len() >= 2 {
                    assert(sub[1] == s@[i as int + 1]);
                }
            }
            Err(SyntaxError { offset: i + 1, expected: "a block after the ampersand" })
        }
    } else {
        Err(SyntaxError { offset: i, expected: "an argument" })
    }
}

/// Parses the arguments of a command, up to and including the terminating
/// semicolon.
fn p_args(s: &Vec<char>, i: usize) -> (r: Result<(Vec<AstArgument>, usize), SyntaxError>)
    requires
        i <= s@.len(),
    ensures
        match r {
            Ok((args, j)) => i < j <= s@.len() && sp_args(s@.skip(i as int)) == Some(
                (view_args(args@), s@.skip(j as int)),
            ),
            Err(e) => sp_args(s@.skip(i as int)) is None && e.offset <= s@.len(),
        },
    decreases s@.len() - i, 2int,
{
    let ghost sub = s@.skip(i as int);
    if i == s.len() {
        return Err(SyntaxError { offset: i, expected: "an argument or a semicolon" });
    }
    proof {
        assert(sub[0] == s@[i as int]);
    }
    if s[i] == ';' {
        let empty: Vec<AstArgument> = Vec::new();
        proof {
            assert(sub.drop_first() =~= s@.skip(i as int + 1));
            assert(view_args(empty@) =~= Seq::<SpecArgument>::empty());
        }
        return Ok((empty, i + 1));
    }
    match p_argument(s, i) {
        Ok((a, j)) => {
            let u = p_ws(s, j);
            match p_args(s, u) {
                Ok((mut args, j2)) => {
                    let ghost old_args = args@;
                    args.insert(0, a);
                    proof {
                        assert(args@ =~= seq![a] + old_args);
                        crate::ast::lemma_view_args_cons(a, old_args);
                    }
                    Ok((args, j2))
                },
                Err(e) => Err(e),
            }
        },
        Err(e) => Err(e),
    }
}

/// Parses one command, up to and including its terminating semicolon.
fn p_command(s: &Vec<char>, i: usize) -> (r: Result<(AstCommand, usize), SyntaxError>)
    requires
        i <= s@.len(),
    ensures
        match r {
            Ok((c, j)) => i < j <= s@.len() && sp_command(s@.skip(i as int)) == Some(
                (view_cmd(c), s@.skip(j as int)),
            ),
            Err(e) => sp_command(s@.skip(i as int)) is None && e.offset <= s@.len(),
        },
    decreases s@.len() - i, 3int,
{
    let ghost sub = s@.skip(i as int);
    if i == s.len() {
        return Err(SyntaxError { offset: i, expected: "a command" });
    }
    proof {
        assert(sub[0] == s@[i as int]);
    }
    if s[i] == '!' {
        proof {
            assert(sub.drop_first() =~= s@.skip(i as int + 1));
        }
        match p_name(s, i + 1) {
            Ok((n, j)) => {
                let u = p_ws(s, j);
                match p_args(s, u) {
                    Ok((args, j2)) => Ok(
                        (AstCommand { time: AstTime::CompileTime, name: n, arguments: args }, j2),
                    ),
                    Err(e) => Err(e),
                }
            },
            Err(e) => Err(e),
        }
    } else {
        match p_name(s, i) {
            Ok((n, j)) => {
                proof {
                    if j < s@.len() {
                        assert(s@.skip(j as int)[0] == s@[j as int]);
                    }
                }
                if j < s.len() && s[j] == '!' {
                    proof {
                        assert(s@.skip(j as int).drop_first() =~= s@.skip(j as int + 1));
                    }
                    let u = p_ws(s, j + 1);
                    match p_args(s, u) {
                        Ok((args, j2)) => Ok(
                            (AstCommand { time: AstTime::Macro, name: n, arguments: args }, j2),
                        ),
                        Err(e) => Err(e),
                    }
                } else {
                    let u = p_ws(s, j);
                    match p_args(s, u) {
                        Ok((args, j2)) => Ok(
                            (AstCommand { time: AstTime::Runtime, name: n, arguments: args }, j2),
                        ),
                        Err(e) => Err(e),
                    }
                }
            },
            Err(e) => Err(e),
        }
    }
}

/// Parses commands up to and including a closing brace.
fn p_cmds_until(s: &Vec<char>, i: usize) -> (r: Result<(Vec<AstCommand>, usize), SyntaxError>)
    requires
        i <= s@.len(),
    ensures
        match r {
            Ok((cs, j)) => i < j <= s@.len() && sp_cmds_until(s@.skip(i as int)) == Some(
                (view_cmds(cs@), s@.skip(j as int)),
            ),
            Err(e) => sp_cmds_until(s@.skip(i as int)) is None && e.offset <= s@.len(),
        },
    decreases s@.len() - i, 4int,
{
    let ghost sub = s@.skip(i as int);
    if i == s.len() {
        return Err(SyntaxError { offset: i, expected: "a command or a closing brace" });
    }
    proof {
        assert(sub[0] == s@[i as int]);
    }
    if s[i] == '}' {
        let empty: Vec<AstCommand> = Vec::new();
        proof {
            assert(sub.drop_first() =~= s@.skip(i as int + 1));
            assert(view_cmds(empty@) =~= Seq::<SpecCommand>::empty());
        }
        return Ok((empty, i + 1));
    }
    match p_command(s, i) {
        Ok((c, j)) => {
            let u = p_ws(s, j);
            match p_cmds_until(s, u) {
                Ok((mut cs, j2)) => {
                    let ghost old_cs = cs@;
                    cs.insert(0, c);
                    proof {
                        assert(cs@ =~= seq![c] + old_cs);
                        crate::ast::lemma_view_cmds_cons(c, old_cs);
                    }
                    Ok((cs, j2))
                },
                Err(e) => Err(e),
            }
        },
        Err(e) => Err(e),
    }
}

/// Parses commands up to the end of the input.
fn p_cmds_eof(s: &Vec<char>, i: usize) -> (r: Result<Vec<AstCommand>, SyntaxError>)
    requires
        i <= s@.len(),
    ensures
        match r {
            Ok(cs) => sp_cmds_eof(s@.skip(i as int)) == Some(view_cmds(cs@)),
            Err(e) => sp_cmds_eof(s@.skip(i as int)) is None && e.offset <= s@.len(),
        },
    decreases s@.len() - i, 4int,
{
    let ghost sub = s@.skip(i as int);
    if i == s.len() {
        let empty: Vec<AstCommand> = Vec::new();
        proof {
            assert(sub =~= Seq::<char>::empty());
            assert(view_cmds(empty@) =~= Seq::<SpecCommand>::empty());
        }
        return Ok(empty);
    }
    proof {
        assert(sub[0] == s@[i as int]);
    }
    match p_command(s, i) {
        Ok((c, j)) => {
            let u = p_ws(s, j);
            match p_cmds_eof(s, u) {
                Ok(mut cs) => {
                    let ghost old_cs = cs@;
                    cs.insert(0, c);
                    proof {
                        assert(cs@ =~= seq![c] + old_cs);
                        crate::ast::lemma_view_cmds_cons(c, old_cs);
                    }
                    Ok(cs)
                },
                Err(e) => Err(e),
            }
        },
        Err(e) => Err(e),
    }
}

/// Parses a whole source file: one or more commands followed by the end of
/// the input. A text is accepted exactly when it matches the grammar, and
/// the returned commands are the ones the grammar gives it.
pub fn parse_file(text: &str) -> (r: Result<Vec<AstCommand>, SyntaxError>)
    ensures
        match r {
            Ok(v) => sp_file(text@) == Some(view_cmds(v@)),
            Err(e) => sp_file(text@) is None && e.offset <= text@.len(),
        },
{
    let chars = string_to_chars(text);
    proof {
        assert(chars@.skip(0) =~= text@);
    }
    let u = p_ws(&chars, 0);
    match p_cmds_eof(&chars, u) {
        Ok(v) => {
            proof {
                lemma_view_cmds(v@);
            }
            if v.len() == 0 {
                Err(SyntaxError { offset: 0, expected: "at least one command" })
            } else {
                Ok(v)
            }
        },
        Err(e) => Err(e),
    }
}

} // verus!
