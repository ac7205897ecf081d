//! The statement-count law: a source text that matches the grammar parses
//! to exactly one command per top-level semicolon-terminated statement.
//! "Top level" is judged by a scanner of its own, which tracks brace
//! depth, string literals with their escapes, and comments.

use vstd::prelude::*;
use crate::grammar::{
    comment_end, is_digit, is_name_char, is_space, lemma_scan, scan, skip_ws, sp_args,
    sp_argument, sp_cmds_eof, sp_cmds_until, sp_command, sp_file, sp_name, sp_number,
    sp_string_body,
};

verus! {

/// Scanner modes: plain code, inside a string, right after a string
/// escape's backslash, inside a comment.
pub open spec fn semi_step_mode(m: nat, c: char) -> nat {
    if m == 0 {
        if c == '"' {
            1
        } else if c == '#' {
            3
        } else {
            0
        }
    } else if m == 1 {
        if c == '"' {
            0
        } else if c == '\\' {
            2
        } else {
            1
        }
    } else if m == 2 {
        1
    } else {
        if c == '\n' || c == '\r' {
            0
        } else {
            3
        }
    }
}

/// Brace depth after one character.
pub open spec fn semi_step_depth(m: nat, d: int, c: char) -> int {
    if m == 0 {
        if c == '{' {
            d + 1
        } else if c == '}' {
            d - 1
        } else {
            d
        }
    } else {
        d
    }
}

/// How many semicolons stand at depth zero in plain code, scanning from
/// mode `m` and depth `d`.
pub open spec fn semi_count(s: Seq<char>, m: nat, d: int) -> nat
    decreases s.len(),
{
    if s.len() == 0 {
        0
    } else {
        (if m == 0 && d == 0 && s[0] == ';' {
            1nat
        } else {
            0nat
        }) + semi_count(s.drop_first(), semi_step_mode(m, s[0]), semi_step_depth(m, d, s[0]))
    }
}

/// The top-level semicolon-terminated statements of a source text.
pub open spec fn top_semis(s: Seq<char>) -> nat {
    semi_count(s, 0, 0)
}

/// A character that the scanner passes over without any effect.
spec fn neutral(c: char) -> bool {
    c != ';' && c != '{' && c != '}' && c != '"' && c != '#'
}

/// Passing over neutral characters changes nothing.
proof fn lemma_semi_neutral_prefix(s: Seq<char>, k: int, d: int)
    requires
        0 <= k <= s.len(),
        forall|i: int| 0 <= i < k ==> neutral(#[trigger] s[i]),
    ensures
        semi_count(s, 0, d) == semi_count(s.skip(k), 0, d),
    decreases k,
{
    if k > 0 {
        assert(neutral(s[0]));
        assert(s.drop_first().skip(k - 1) =~= s.skip(k));
        assert forall|i: int| 0 <= i < k - 1 implies neutral(#[trigger] s.drop_first()[i]) by {
            assert(s.drop_first()[i] == s[i + 1]);
        }
        lemma_semi_neutral_prefix(s.drop_first(), k - 1, d);
    } else {
        assert(s.skip(0) =~= s);
    }
}

/// A comment is passed over from comment mode back to code mode.
proof fn lemma_semi_comment(s: Seq<char>, r: Seq<char>, d: int)
    requires
        comment_end(s) == Some(r),
    ensures
        semi_count(s, 3, d) == semi_count(r, 0, d),
    decreases s.len(),
{
    if s[0] == '\r' {
        if s.len() >= 2 && s[1] == '\n' {
            assert(s.drop_first()[0] == s[1]);
            assert(s.drop_first().drop_first() =~= s.skip(2));
            assert(semi_step_mode(3, '\r') == 0);
            assert(semi_count(s, 3, d) == semi_count(s.drop_first(), 0, d));
            assert(semi_count(s.drop_first(), 0, d) == semi_count(s.skip(2), 0, d));
        } else {
            assert(s.drop_first() =~= r);
            assert(semi_count(s, 3, d) == semi_count(r, 0, d));
        }
    } else if s[0] == '\n' {
        assert(s.drop_first() =~= r);
        assert(semi_count(s, 3, d) == semi_count(r, 0, d));
    } else {
        assert(semi_step_mode(3, s[0]) == 3);
        lemma_semi_comment(s.drop_first(), r, d);
    }
}

/// Skipped whitespace and comments change nothing.
proof fn lemma_semi_ws(s: Seq<char>, d: int)
    ensures
        semi_count(s, 0, d) == semi_count(skip_ws(s), 0, d),
    decreases s.len(),
{
    if s.len() > 0 {
        if is_space(s[0]) {
            assert(neutral(s[0]));
            lemma_semi_ws(s.drop_first(), d);
        } else if s[0] == '#' {
            match comment_end(s.drop_first()) {
                Some(r) => {
                    if r.len() < s.len() {
                        lemma_semi_comment(s.drop_first(), r, d);
                        lemma_semi_ws(r, d);
                    }
                },
                None => {},
            }
        }
    }
}

/// A parsed name token is made of neutral characters.
proof fn lemma_semi_name(s: Seq<char>, d: int)
    requires
        sp_name(s) is Some,
    ensures
        semi_count(s, 0, d) == semi_count((sp_name(s)->Some_0).1, 0, d),
{
    let r = (sp_name(s)->Some_0).1;
    if s[0] == '~' {
        assert(neutral('~'));
        assert(s.drop_first() =~= s.skip(1));
        lemma_semi_neutral_prefix(s, 1, d);
    } else if s[0] == '$' {
        let t = s.drop_first();
        if t.len() > 0 && crate::grammar::is_ident_start(t[0]) {
            let k = scan(t, |c: char| is_name_char(c));
            lemma_scan(t, |c: char| is_name_char(c));
            assert forall|i: int| 0 <= i < k + 1 implies neutral(#[trigger] s[i]) by {
                if i > 0 {
                    assert(t[i - 1] == s[i]);
                    assert(is_name_char(t[i - 1]));
                }
            }
            assert(s.skip(k as int + 1) =~= t.skip(k as int));
            lemma_semi_neutral_prefix(s, k as int + 1, d);
        } else {
            let k = scan(t, |c: char| is_digit(c));
            lemma_scan(t, |c: char| is_digit(c));
            assert forall|i: int| 0 <= i < k + 1 implies neutral(#[trigger] s[i]) by {
                if i > 0 {
                    assert(t[i - 1] == s[i]);
                    assert(is_digit(t[i - 1]));
                }
            }
            assert(s.skip(k as int + 1) =~= t.skip(k as int));
            lemma_semi_neutral_prefix(s, k as int + 1, d);
        }
    } else {
        let k = scan(s, |c: char| is_name_char(c));
        lemma_scan(s, |c: char| is_name_char(c));
        assert forall|i: int| 0 <= i < k implies neutral(#[trigger] s[i]) by {
            assert(is_name_char(s[i]));
        }
        lemma_semi_neutral_prefix(s, k as int, d);
    }
}

/// A parsed number token is made of neutral characters.
proof fn lemma_semi_number(s: Seq<char>, d: int)
    requires
        sp_number(s) is Some,
    ensures
        semi_count(s, 0, d) == semi_count((sp_number(s)->Some_0).1, 0, d),
{
    let k = scan(s, |c: char| is_digit(c));
    lemma_scan(s, |c: char| is_digit(c));
    let r = s.skip(k as int);
    if r.len() >= 2 && r[0] == '.' && is_digit(r[1]) {
        let t = r.drop_first();
        let k2 = scan(t, |c: char| is_digit(c));
        lemma_scan(t, |c: char| is_digit(c));
        assert forall|i: int| 0 <= i < k + 1 + k2 implies neutral(#[trigger] s[i]) by {
            if i < k {
                assert(is_digit(s[i]));
            } else if i == k {
                assert(s[i] == r[0]);
            } else {
                assert(s[i] == t[i - k - 1]);
                assert(is_digit(t[i - k - 1]));
            }
        }
        assert(s.skip(k as int + 1 + k2) =~= t.skip(k2 as int));
        lemma_semi_neutral_prefix(s, k as int + 1 + k2, d);
    } else {
        assert forall|i: int| 0 <= i < k implies neutral(#[trigger] s[i]) by {
            assert(is_digit(s[i]));
        }
        lemma_semi_neutral_prefix(s, k as int, d);
    }
}

/// A string body is passed over in string mode, ending in code mode after
/// its closing quote.
proof fn lemma_semi_string(s: Seq<char>, d: int)
    requires
        sp_string_body(s) is Some,
    ensures
        semi_count(s, 1, d) == semi_count((sp_string_body(s)->Some_0).1, 0, d),
    decreases s.len(),
{
    if s[0] == '"' {
        assert(s.drop_first() =~= (sp_string_body(s)->Some_0).1);
        assert(semi_step_mode(1, '"') == 0);
        assert(semi_count(s, 1, d) == semi_count(s.drop_first(), 0, d));
    } else if s[0] == '\\' {
        assert(s.drop_first()[0] == s[1]);
        assert(s.drop_first().drop_first() =~= s.skip(2));
        assert(semi_step_mode(1, '\\') == 2);
        assert(semi_count(s, 1, d) == semi_count(s.drop_first(), 2, d));
        assert(semi_count(s.drop_first(), 2, d) == semi_count(s.skip(2), 1, d));
        lemma_semi_string(s.skip(2), d);
    } else {
        assert(semi_step_mode(1, s[0]) == 1);
        lemma_semi_string(s.drop_first(), d);
    }
}

/// Passing over one parsed argument changes neither mode nor depth nor the
/// count.
proof fn lemma_semi_argument(s: Seq<char>, d: int)
    requires
        d >= 0,
        sp_argument(s) is Some,
    ensures
        semi_count(s, 0, d) == semi_count((sp_argument(s)->Some_0).1, 0, d),
    decreases s.len(), 1int,
{
    let r = (sp_argument(s)->Some_0).1;
    if s[0] == '~' || s[0] == '$' || crate::grammar::is_ident_start(s[0]) {
        lemma_semi_name(s, d);
    } else if is_digit(s[0]) {
        lemma_semi_number(s, d);
    } else if s[0] == '"' {
        assert(semi_step_mode(0, '"') == 1);
        assert(semi_count(s, 0, d) == semi_count(s.drop_first(), 1, d));
        lemma_semi_string(s.drop_first(), d);
    } else if s[0] == '+' || s[0] == '-' {
        let t = s.drop_first();
        let k = scan(t, |c: char| is_name_char(c));
        lemma_scan(t, |c: char| is_name_char(c));
        assert forall|i: int| 0 <= i < k + 1 implies neutral(#[trigger] s[i]) by {
            if i > 0 {
                assert(t[i - 1] == s[i]);
                assert(is_name_char(t[i - 1]));
            }
        }
        assert(s.skip(k as int + 1) =~= t.skip(k as int));
        lemma_semi_neutral_prefix(s, k as int + 1, d);
    } else if s[0] == '/' {
        let t = s.drop_first();
        let k = scan(t, |c: char| is_name_char(c));
        lemma_scan(t, |c: char| is_name_char(c));
        assert forall|i: int| 0 <= i < k + 1 implies neutral(#[trigger] s[i]) by {
            if i > 0 {
                assert(t[i - 1] == s[i]);
                assert(is_name_char(t[i - 1]));
            }
        }
        assert(s.skip(k as int + 1) =~= t.skip(k as int));
        lemma_semi_neutral_prefix(s, k as int + 1, d);
        let u = skip_ws(t.skip(k as int));
        lemma_semi_ws(t.skip(k as int), d);
        lemma_semi_argument(u, d);
    } else if s[0] == '{' {
        assert(semi_step_depth(0, d, '{') == d + 1);
        assert(semi_count(s, 0, d) == semi_count(s.drop_first(), 0, d + 1));
        let u = skip_ws(s.drop_first());
        lemma_semi_ws(s.drop_first(), d + 1);
        lemma_semi_cmds_until(u, d + 1);
    } else {
        assert(s[0] == '&');
        assert(s.drop_first()[0] == s[1]);
        assert(s.drop_first().drop_first() =~= s.skip(2));
        assert(neutral('&'));
        assert(semi_count(s, 0, d) == semi_count(s.drop_first(), 0, d));
        assert(semi_count(s.drop_first(), 0, d) == semi_count(s.skip(2), 0, d + 1));
        let u = skip_ws(s.skip(2));
        lemma_semi_ws(s.skip(2), d + 1);
        lemma_semi_cmds_until(u, d + 1);
    }
}

/// Passing over a command's arguments and terminator counts one statement
/// exactly when the command stands at depth zero.
proof fn lemma_semi_args(s: Seq<char>, d: int)
    requires
        d >= 0,
        sp_args(s) is Some,
    ensures
        semi_count(s, 0, d) == (if d == 0 {
            1nat
        } else {
            0nat
        }) + semi_count((sp_args(s)->Some_0).1, 0, d),
    decreases s.len(), 2int,
{
    if s[0] == ';' {
        assert(s.drop_first() =~= (sp_args(s)->Some_0).1);
    } else {
        let (a, r) = sp_argument(s)->Some_0;
        lemma_semi_argument(s, d);
        let u = skip_ws(r);
        lemma_semi_ws(r, d);
        lemma_semi_args(u, d);
    }
}

/// Passing over one whole command counts one statement exactly when it
/// stands at depth zero.
proof fn lemma_semi_command(s: Seq<char>, d: int)
    requires
        d >= 0,
        sp_command(s) is Some,
    ensures
        semi_count(s, 0, d) == (if d == 0 {
            1nat
        } else {
            0nat
        }) + semi_count((sp_command(s)->Some_0).1, 0, d),
    decreases s.len(), 3int,
{
    if s[0] == '!' {
        assert(neutral('!'));
        assert(s.drop_first() =~= s.skip(1));
        lemma_semi_neutral_prefix(s, 1, d);
        let (n, r) = sp_name(s.drop_first())->Some_0;
        lemma_semi_name(s.drop_first(), d);
        let u = skip_ws(r);
        lemma_semi_ws(r, d);
        lemma_semi_args(u, d);
    } else {
        let (n, r) = sp_name(s)->Some_0;
        lemma_semi_name(s, d);
        if r.len() > 0 && r[0] == '!' {
            assert(neutral('!'));
            assert(r.drop_first() =~= r.skip(1));
            lemma_semi_neutral_prefix(r, 1, d);
            let u = skip_ws(r.drop_first());
            lemma_semi_ws(r.drop_first(), d);
            lemma_semi_args(u, d);
        } else {
            let u = skip_ws(r);
            lemma_semi_ws(r, d);
            lemma_semi_args(u, d);
        }
    }
}

/// Passing over a brace-terminated command list ends one depth lower, and
/// counts none of its statements at positive depth.
proof fn lemma_semi_cmds_until(s: Seq<char>, d: int)
    requires
        sp_cmds_until(s) is Some,
        d >= 1,
    ensures
        semi_count(s, 0, d) == semi_count((sp_cmds_until(s)->Some_0).1, 0, d - 1),
    decreases s.len(), 4int,
{
    if s[0] == '}' {
        assert(s.drop_first() =~= (sp_cmds_until(s)->Some_0).1);
    } else {
        let (c, r) = sp_command(s)->Some_0;
        lemma_semi_command(s, d);
        let u = skip_ws(r);
        lemma_semi_ws(r, d);
        lemma_semi_cmds_until(u, d);
    }
}

/// Passing over the commands before the end of the input counts one
/// statement per command.
proof fn lemma_semi_cmds_eof(s: Seq<char>)
    requires
        sp_cmds_eof(s) is Some,
    ensures
        semi_count(s, 0, 0) == (sp_cmds_eof(s)->Some_0).len(),
    decreases s.len(),
{
    if s.len() > 0 {
        let (c, r) = sp_command(s)->Some_0;
        lemma_semi_command(s, 0);
        let u = skip_ws(r);
        lemma_semi_ws(r, 0);
        lemma_semi_cmds_eof(u);
    }
}

/// For every source text that matches the grammar, the parse result holds
/// exactly one command per top-level semicolon-terminated statement.
pub proof fn lemma_statement_count(s: Seq<char>)
    requires
        sp_file(s) is Some,
    ensures
        (sp_file(s)->Some_0).len() == top_semis(s),
{
    lemma_semi_ws(s, 0);
    lemma_semi_cmds_eof(skip_ws(s));
}

} // verus!
