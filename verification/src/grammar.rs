//! The grammar of the language, stated as mathematical functions: a
//! recursive-descent parser over a sequence of characters, and the
//! canonical printer that the round-trip law relates to it. The executable
//! parser and writer are proved against these functions.

use vstd::prelude::*;
use crate::ast::{AstTime, SpecArgument, SpecBlock, SpecCommand, SpecName, SpecSwitch};

verus! {

// ------------------------------------------------------------------
// Character classes.
// ------------------------------------------------------------------

/// A decimal digit.
pub open spec fn is_digit(c: char) -> bool {
    '0' <= c && c <= '9'
}

/// A character that may start an identifier.
pub open spec fn is_ident_start(c: char) -> bool {
    ('a' <= c && c <= 'z') || ('A' <= c && c <= 'Z') || c == '_'
}

/// A character that may continue an identifier part.
pub open spec fn is_ident_cont(c: char) -> bool {
    is_ident_start(c) || is_digit(c) || c == '-'
}

/// A character that the identifier scanner consumes: identifier characters
/// and the `:` of a namespace separator; the shape is validated afterwards.
pub open spec fn is_name_char(c: char) -> bool {
    is_ident_cont(c) || c == ':'
}

/// Insignificant whitespace.
pub open spec fn is_space(c: char) -> bool {
    c == ' ' || c == '\n' || c == '\t' || c == '\r'
}

// ------------------------------------------------------------------
// Token shapes.
// ------------------------------------------------------------------

/// The tail of an identifier: identifier characters, with `::` allowed
/// between two identifier parts.
pub open spec fn is_ident_rest(s: Seq<char>) -> bool
    decreases s.len(),
{
    if s.len() == 0 {
        true
    } else if is_ident_cont(s[0]) {
        is_ident_rest(s.drop_first())
    } else if s[0] == ':' {
        s.len() >= 3 && s[1] == ':' && is_ident_start(s[2]) && is_ident_rest(s.skip(3))
    } else {
        false
    }
}

/// An identifier, optionally namespaced with `::`.
pub open spec fn is_ident(s: Seq<char>) -> bool {
    s.len() > 0 && is_ident_start(s[0]) && is_ident_rest(s.drop_first())
}

/// Every character is a digit.
pub open spec fn all_digits(s: Seq<char>) -> bool {
    forall|i: int| 0 <= i < s.len() ==> is_digit(#[trigger] s[i])
}

/// A variable name: an identifier, or a non-empty run of digits.
pub open spec fn is_varname(s: Seq<char>) -> bool {
    is_ident(s) || (s.len() > 0 && all_digits(s))
}

// ------------------------------------------------------------------
// Scanning and digit arithmetic.
// ------------------------------------------------------------------

/// How many leading characters of `s` satisfy `p`.
pub open spec fn scan(s: Seq<char>, p: spec_fn(char) -> bool) -> nat
    decreases s.len(),
{
    if s.len() > 0 && p(s[0]) {
        1 + scan(s.drop_first(), p)
    } else {
        0
    }
}

/// What the scanner returns: the longest prefix of characters in `p`.
pub proof fn lemma_scan(s: Seq<char>, p: spec_fn(char) -> bool)
    ensures
        scan(s, p) <= s.len(),
        forall|i: int| 0 <= i < scan(s, p) ==> p(#[trigger] s[i]),
        scan(s, p) < s.len() ==> !p(s[scan(s, p) as int]),
    decreases s.len(),
{
    if s.len() > 0 && p(s[0]) {
        lemma_scan(s.drop_first(), p);
        let t = s.drop_first();
        assert forall|i: int| 0 <= i < scan(s, p) implies p(#[trigger] s[i]) by {
            if i > 0 {
                assert(t[i - 1] == s[i]);
            }
        }
        if scan(s, p) < s.len() {
            assert(t[scan(s, p) - 1] == s[scan(s, p) as int]);
        }
    }
}

/// Scanning a prefix known to be in `p`, followed by text that does not
/// start in `p`, stops exactly at the end of the prefix.
pub proof fn lemma_scan_concat(a: Seq<char>, rest: Seq<char>, p: spec_fn(char) -> bool)
    requires
        forall|i: int| 0 <= i < a.len() ==> p(#[trigger] a[i]),
        rest.len() == 0 || !p(rest[0]),
    ensures
        scan(a + rest, p) == a.len(),
    decreases a.len(),
{
    let s = a + rest;
    if a.len() == 0 {
        assert(s =~= rest);
    } else {
        assert(s[0] == a[0]);
        lemma_scan_concat(a.drop_first(), rest, p);
        assert(s.drop_first() =~= a.drop_first() + rest);
    }
}

/// The scanner's count is the only one with a satisfying prefix and a
/// failing (or absent) follower.
pub proof fn lemma_scan_unique(s: Seq<char>, p: spec_fn(char) -> bool, k: nat)
    requires
        k <= s.len(),
        forall|i: int| 0 <= i < k ==> p(#[trigger] s[i]),
        k == s.len() || !p(s[k as int]),
    ensures
        scan(s, p) == k,
    decreases s.len(),
{
    if k == 0 {
    } else {
        assert(p(s[0]));
        lemma_scan_unique(s.drop_first(), p, (k - 1) as nat);
    }
}

/// The numeric value of a digit.
pub open spec fn digit_val(c: char) -> nat {
    ((c as int) - ('0' as int)) as nat
}

/// The digit printing a value below ten.
pub open spec fn digit_char(d: nat) -> char {
    if d == 0 { '0' }
    else if d == 1 { '1' }
    else if d == 2 { '2' }
    else if d == 3 { '3' }
    else if d == 4 { '4' }
    else if d == 5 { '5' }
    else if d == 6 { '6' }
    else if d == 7 { '7' }
    else if d == 8 { '8' }
    else { '9' }
}

/// The value of a run of digits, most significant first.
pub open spec fn digits_val(s: Seq<char>) -> nat
    decreases s.len(),
{
    if s.len() == 0 {
        0
    } else {
        digits_val(s.drop_last()) * 10 + digit_val(s.last())
    }
}

/// A longer digit prefix never has a smaller value.
pub proof fn lemma_digits_val_mono(t: Seq<char>, a: int, b: int)
    requires
        0 <= a <= b <= t.len(),
    ensures
        digits_val(t.take(a)) <= digits_val(t.take(b)),
    decreases b,
{
    if a < b {
        lemma_digits_val_mono(t, a, b - 1);
        assert(t.take(b).drop_last() =~= t.take(b - 1));
        assert(digits_val(t.take(b)) == digits_val(t.take(b - 1)) * 10 + digit_val(t.take(b).last()));
    }
}

/// The canonical decimal digits of a value: no leading zeros.
pub open spec fn print_nat(n: nat) -> Seq<char>
    decreases n,
{
    if n < 10 {
        seq![digit_char(n)]
    } else {
        print_nat(n / 10).push(digit_char(n % 10))
    }
}

// ------------------------------------------------------------------
// Well-formed trees: those the canonical writer can print. A `Nothing`
// argument has no surface syntax (it is a result value), and a string
// cannot hold a backslash, which only introduces escapes.
// ------------------------------------------------------------------

/// A printable name.
pub open spec fn wf_name(n: SpecName) -> bool {
    match n {
        SpecName::Placeholder => true,
        SpecName::Name(s) => is_ident(s),
        SpecName::Variable(s) => is_varname(s),
    }
}

/// A printable argument.
pub open spec fn wf_arg(a: SpecArgument) -> bool
    decreases a,
{
    match a {
        SpecArgument::Nothing => false,
        SpecArgument::Name(n) => wf_name(n),
        SpecArgument::Integer(i) => i >= 0,
        SpecArgument::Float(w, f) => w.len() > 0 && f.len() > 0 && all_digits(w) && all_digits(f),
        SpecArgument::String(s) => forall|i: int| 0 <= i < s.len() ==> s[i] != '\\',
        SpecArgument::Switch(w) => wf_switch(w),
        SpecArgument::Block(b) => wf_block(b),
    }
}

/// A printable switch.
pub open spec fn wf_switch(w: SpecSwitch) -> bool
    decreases w,
{
    match w {
        SpecSwitch::On(n) => is_ident(n),
        SpecSwitch::Off(n) => is_ident(n),
        SpecSwitch::Option(n, v) => is_ident(n) && wf_arg(*v),
    }
}

/// A printable block.
pub open spec fn wf_block(b: SpecBlock) -> bool
    decreases b,
{
    match b {
        SpecBlock::Evaluated(cs) => wf_cmds(cs),
        SpecBlock::Argument(cs) => wf_cmds(cs),
    }
}

/// A printable command sequence.
pub open spec fn wf_cmds(cs: Seq<SpecCommand>) -> bool
    decreases cs,
{
    if cs.len() == 0 {
        true
    } else {
        wf_cmd(cs[0]) && wf_cmds(cs.drop_first())
    }
}

/// A printable command.
pub open spec fn wf_cmd(c: SpecCommand) -> bool
    decreases c,
{
    wf_name(c.name) && wf_args(c.args)
}

/// A printable argument sequence.
pub open spec fn wf_args(args: Seq<SpecArgument>) -> bool
    decreases args,
{
    if args.len() == 0 {
        true
    } else {
        wf_arg(args[0]) && wf_args(args.drop_first())
    }
}

// ------------------------------------------------------------------
// The canonical printer.
// ------------------------------------------------------------------

/// Prints a name.
pub open spec fn print_name(n: SpecName) -> Seq<char> {
    match n {
        SpecName::Placeholder => seq!['~'],
        SpecName::Name(s) => s,
        SpecName::Variable(s) => seq!['$'] + s,
    }
}

/// Prints a string body, escaping the quote character.
pub open spec fn escape(s: Seq<char>) -> Seq<char>
    decreases s.len(),
{
    if s.len() == 0 {
        Seq::empty()
    } else {
        (if s[0] == '"' {
            seq!['\\', '"']
        } else {
            seq![s[0]]
        }) + escape(s.drop_first())
    }
}

/// Prints an argument.
pub open spec fn print_arg(a: SpecArgument) -> Seq<char>
    decreases a,
{
    match a {
        SpecArgument::Nothing => Seq::empty(),
        SpecArgument::Name(n) => print_name(n),
        SpecArgument::Integer(i) => print_nat(i as nat),
        SpecArgument::Float(w, f) => w + seq!['.'] + f,
        SpecArgument::String(s) => seq!['"'] + escape(s) + seq!['"'],
        SpecArgument::Switch(w) => print_switch(w),
        SpecArgument::Block(b) => print_block(b),
    }
}

/// Prints a switch.
pub open spec fn print_switch(w: SpecSwitch) -> Seq<char>
    decreases w,
{
    match w {
        SpecSwitch::On(n) => seq!['+'] + n,
        SpecSwitch::Off(n) => seq!['-'] + n,
        SpecSwitch::Option(n, v) => seq!['/'] + n + seq![' '] + print_arg(*v),
    }
}

/// Prints a block.
pub open spec fn print_block(b: SpecBlock) -> Seq<char>
    decreases b,
{
    match b {
        SpecBlock::Evaluated(cs) => seq!['{'] + print_cmds(cs) + seq!['}'],
        SpecBlock::Argument(cs) => seq!['&', '{'] + print_cmds(cs) + seq!['}'],
    }
}

/// Prints a command sequence, each command carrying its own terminator.
pub open spec fn print_cmds(cs: Seq<SpecCommand>) -> Seq<char>
    decreases cs,
{
    if cs.len() == 0 {
        Seq::empty()
    } else {
        print_cmd(cs[0]) + print_cmds(cs.drop_first())
    }
}

/// Prints one command: its time marker, its name, one space before each
/// argument, and the terminating semicolon.
pub open spec fn print_cmd(c: SpecCommand) -> Seq<char>
    decreases c,
{
    (match c.time {
        AstTime::CompileTime => seq!['!'] + print_name(c.name),
        AstTime::Macro => print_name(c.name) + seq!['!'],
        AstTime::Runtime => print_name(c.name),
    }) + print_args(c.args) + seq![';']
}

/// Prints an argument sequence, one space before each argument.
pub open spec fn print_args(args: Seq<SpecArgument>) -> Seq<char>
    decreases args,
{
    if args.len() == 0 {
        Seq::empty()
    } else {
        seq![' '] + print_arg(args[0]) + print_args(args.drop_first())
    }
}

/// Each command of a printable sequence is printable.
pub proof fn lemma_wf_cmds_index(cs: Seq<SpecCommand>, i: int)
    requires
        wf_cmds(cs),
        0 <= i < cs.len(),
    ensures
        wf_cmd(cs[i]),
    decreases cs.len(),
{
    if i > 0 {
        lemma_wf_cmds_index(cs.drop_first(), i - 1);
        assert(cs.drop_first()[i - 1] == cs[i]);
    }
}

/// Each argument of a printable sequence is printable.
pub proof fn lemma_wf_args_index(args: Seq<SpecArgument>, i: int)
    requires
        wf_args(args),
        0 <= i < args.len(),
    ensures
        wf_arg(args[i]),
    decreases args.len(),
{
    if i > 0 {
        lemma_wf_args_index(args.drop_first(), i - 1);
        assert(args.drop_first()[i - 1] == args[i]);
    }
}

/// Printing one more command appends its text.
pub proof fn lemma_print_cmds_snoc(cs: Seq<SpecCommand>, c: SpecCommand)
    ensures
        print_cmds(cs.push(c)) == print_cmds(cs) + print_cmd(c),
    decreases cs.len(),
{
    let w = cs.push(c);
    if cs.len() == 0 {
        assert(w[0] == c);
        assert(w.drop_first() =~= Seq::<SpecCommand>::empty());
        assert(print_cmds(cs) + print_cmd(c) =~= print_cmd(c) + print_cmds(
            Seq::<SpecCommand>::empty(),
        ));
    } else {
        lemma_print_cmds_snoc(cs.drop_first(), c);
        assert(w.drop_first() =~= cs.drop_first().push(c));
        assert(w[0] == cs[0]);
        assert(print_cmd(cs[0]) + (print_cmds(cs.drop_first()) + print_cmd(c)) =~= (print_cmd(
            cs[0],
        ) + print_cmds(cs.drop_first())) + print_cmd(c));
    }
}

/// Printing one more argument appends its text after a space.
pub proof fn lemma_print_args_snoc(args: Seq<SpecArgument>, a: SpecArgument)
    ensures
        print_args(args.push(a)) == print_args(args) + seq![' '] + print_arg(a),
    decreases args.len(),
{
    let w = args.push(a);
    if args.len() == 0 {
        assert(w[0] == a);
        assert(w.drop_first() =~= Seq::<SpecArgument>::empty());
        assert(print_args(w) == seq![' '] + print_arg(w[0]) + print_args(w.drop_first()));
        assert(print_args(Seq::<SpecArgument>::empty()) == Seq::<char>::empty());
        assert(seq![' '] + print_arg(a) + Seq::<char>::empty() =~= seq![' '] + print_arg(a));
        assert(print_args(args) + seq![' '] + print_arg(a) =~= seq![' '] + print_arg(a));
    } else {
        lemma_print_args_snoc(args.drop_first(), a);
        assert(w.drop_first() =~= args.drop_first().push(a));
        assert(w[0] == args[0]);
        assert(seq![' '] + print_arg(args[0]) + (print_args(args.drop_first()) + seq![' ']
            + print_arg(a)) =~= (seq![' '] + print_arg(args[0]) + print_args(args.drop_first()))
            + seq![' '] + print_arg(a));
    }
}

/// Escaping one more character appends its escape.
pub proof fn lemma_escape_snoc(s: Seq<char>, c: char)
    ensures
        escape(s.push(c)) == escape(s) + (if c == '"' {
            seq!['\\', '"']
        } else {
            seq![c]
        }),
    decreases s.len(),
{
    let e = if c == '"' {
        seq!['\\', '"']
    } else {
        seq![c]
    };
    let w = s.push(c);
    if s.len() == 0 {
        assert(w[0] == c);
        assert(w.drop_first() =~= Seq::<char>::empty());
        assert(escape(w) == e + escape(w.drop_first()));
        assert(escape(Seq::<char>::empty()) == Seq::<char>::empty());
        assert(e + Seq::<char>::empty() =~= e);
        assert(escape(s) + e =~= e);
    } else {
        lemma_escape_snoc(s.drop_first(), c);
        assert(w.drop_first() =~= s.drop_first().push(c));
        assert(w[0] == s[0]);
        let h = if s[0] == '"' {
            seq!['\\', '"']
        } else {
            seq![s[0]]
        };
        assert(h + (escape(s.drop_first()) + e) =~= (h + escape(s.drop_first())) + e);
    }
}

// ------------------------------------------------------------------
// The parser, over the remaining input. `None` is a syntax error; a
// successful parse returns the node and what follows it. Recursive calls
// whose input is not visibly shorter are guarded by a length test; the
// guards always hold, as the progress lemmas show.
// ------------------------------------------------------------------

/// What follows a comment introduced by `#`: the text after its
/// end-of-line terminator, or `None` when the input ends first.
pub open spec fn comment_end(s: Seq<char>) -> Option<Seq<char>>
    decreases s.len(),
{
    if s.len() == 0 {
        None
    } else if s[0] == '\r' {
        if s.len() >= 2 && s[1] == '\n' {
            Some(s.skip(2))
        } else {
            Some(s.drop_first())
        }
    } else if s[0] == '\n' {
        Some(s.drop_first())
    } else {
        comment_end(s.drop_first())
    }
}

/// Skips whitespace and comments. A `#` not closed by an end of line is
/// left in place, and the token parser that follows rejects it.
pub open spec fn skip_ws(s: Seq<char>) -> Seq<char>
    decreases s.len(),
{
    if s.len() == 0 {
        s
    } else if is_space(s[0]) {
        skip_ws(s.drop_first())
    } else if s[0] == '#' {
        match comment_end(s.drop_first()) {
            Some(r) => if r.len() < s.len() {
                skip_ws(r)
            } else {
                s
            },
            None => s,
        }
    } else {
        s
    }
}

/// Parses a name token: `~`, `$` followed by an identifier or digits, or
/// an identifier.
pub open spec fn sp_name(s: Seq<char>) -> Option<(SpecName, Seq<char>)> {
    if s.len() == 0 {
        None
    } else if s[0] == '~' {
        Some((SpecName::Placeholder, s.drop_first()))
    } else if s[0] == '$' {
        let t = s.drop_first();
        if t.len() > 0 && is_ident_start(t[0]) {
            let k = scan(t, |c: char| is_name_char(c));
            if is_ident(t.take(k as int)) {
                Some((SpecName::Variable(t.take(k as int)), t.skip(k as int)))
            } else {
                None
            }
        } else if t.len() > 0 && is_digit(t[0]) {
            let k = scan(t, |c: char| is_digit(c));
            Some((SpecName::Variable(t.take(k as int)), t.skip(k as int)))
        } else {
            None
        }
    } else if is_ident_start(s[0]) {
        let k = scan(s, |c: char| is_name_char(c));
        if is_ident(s.take(k as int)) {
            Some((SpecName::Name(s.take(k as int)), s.skip(k as int)))
        } else {
            None
        }
    } else {
        None
    }
}

/// Parses a number token: digits, or digits `.` digits. An integer must
/// fit a 32-bit signed value; a float keeps its digit runs as written.
pub open spec fn sp_number(s: Seq<char>) -> Option<(SpecArgument, Seq<char>)> {
    if s.len() > 0 && is_digit(s[0]) {
        let k = scan(s, |c: char| is_digit(c));
        let r = s.skip(k as int);
        if r.len() >= 2 && r[0] == '.' && is_digit(r[1]) {
            let t = r.drop_first();
            let k2 = scan(t, |c: char| is_digit(c));
            Some((SpecArgument::Float(s.take(k as int), t.take(k2 as int)), t.skip(k2 as int)))
        } else {
            if digits_val(s.take(k as int)) <= i32::MAX {
                Some((SpecArgument::Integer(digits_val(s.take(k as int)) as i32), r))
            } else {
                None
            }
        }
    } else {
        None
    }
}

/// The character named by a string escape, if the letter is one of the
/// escapes the grammar knows: space, tab, newline, carriage return, quote.
pub open spec fn escape_char(c: char) -> Option<char> {
    if c == 's' {
        Some(' ')
    } else if c == 't' {
        Some('\t')
    } else if c == 'n' {
        Some('\n')
    } else if c == 'r' {
        Some('\r')
    } else if c == '"' {
        Some('"')
    } else {
        None
    }
}

/// Parses a string body after the opening quote, up to and including the
/// closing quote.
pub open spec fn sp_string_body(s: Seq<char>) -> Option<(Seq<char>, Seq<char>)>
    decreases s.len(),
{
    if s.len() == 0 {
        None
    } else if s[0] == '"' {
        Some((Seq::empty(), s.drop_first()))
    } else if s[0] == '\\' {
        if s.len() >= 2 {
            match escape_char(s[1]) {
                Some(c) => match sp_string_body(s.skip(2)) {
                    Some((b, r)) => Some((seq![c] + b, r)),
                    None => None,
                },
                None => None,
            }
        } else {
            None
        }
    } else {
        match sp_string_body(s.drop_first()) {
            Some((b, r)) => Some((seq![s[0]] + b, r)),
            None => None,
        }
    }
}

/// Parses one argument.
pub open spec fn sp_argument(s: Seq<char>) -> Option<(SpecArgument, Seq<char>)>
    decreases s.len(), 1int,
{
    if s.len() == 0 {
        None
    } else if s[0] == '~' || s[0] == '$' || is_ident_start(s[0]) {
        match sp_name(s) {
            Some((n, r)) => Some((SpecArgument::Name(n), r)),
            None => None,
        }
    } else if is_digit(s[0]) {
        sp_number(s)
    } else if s[0] == '"' {
        match sp_string_body(s.drop_first()) {
            Some((b, r)) => Some((SpecArgument::String(b), r)),
            None => None,
        }
    } else if s[0] == '+' || s[0] == '-' {
        let t = s.drop_first();
        if t.len() > 0 && is_ident_start(t[0]) {
            let k = scan(t, |c: char| is_name_char(c));
            if is_ident(t.take(k as int)) {
                let w = if s[0] == '+' {
                    SpecSwitch::On(t.take(k as int))
                } else {
                    SpecSwitch::Off(t.take(k as int))
                };
                Some((SpecArgument::Switch(w), t.skip(k as int)))
            } else {
                None
            }
        } else {
            None
        }
    } else if s[0] == '/' {
        let t = s.drop_first();
        if t.len() > 0 && is_ident_start(t[0]) {
            let k = scan(t, |c: char| is_name_char(c));
            if is_ident(t.take(k as int)) {
                let u = skip_ws(t.skip(k as int));
                if u.len() < s.len() {
                    match sp_argument(u) {
                        Some((v, r)) => Some(
                            (
                                SpecArgument::Switch(
                                    SpecSwitch::Option(t.take(k as int), Box::new(v)),
                                ),
                                r,
                            ),
                        ),
                        None => None,
                    }
                } else {
                    None
                }
            } else {
                None
            }
        } else {
            None
        }
    } else if s[0] == '{' {
        let u = skip_ws(s.drop_first());
        if u.len() < s.len() {
            match sp_cmds_until(u) {
                Some((cs, r)) => Some((SpecArgument::Block(SpecBlock::Evaluated(cs)), r)),
                None => None,
            }
        } else {
            None
        }
    } else if s[0] == '&' {
        if s.len() >= 2 && s[1] == '{' {
            let u = skip_ws(s.skip(2));
            if u.len() < s.len() {
                match sp_cmds_until(u) {
                    Some((cs, r)) => Some((SpecArgument::Block(SpecBlock::Argument(cs)), r)),
                    None => None,
                }
            } else {
                None
            }
        } else {
            None
        }
    } else {
        None
    }
}

/// Parses the arguments of a command, up to and including the terminating
/// semicolon; whitespace has already been skipped.
pub open spec fn sp_args(s: Seq<char>) -> Option<(Seq<SpecArgument>, Seq<char>)>
    decreases s.len(), 2int,
{
    if s.len() == 0 {
        None
    } else if s[0] == ';' {
        Some((Seq::empty(), s.drop_first()))
    } else {
        match sp_argument(s) {
            Some((a, r)) => {
                let u = skip_ws(r);
                if u.len() < s.len() {
                    match sp_args(u) {
                        Some((args, r2)) => Some((seq![a] + args, r2)),
                        None => None,
                    }
                } else {
                    None
                }
            },
            None => None,
        }
    }
}

/// Parses one command: its time marker and name, its arguments, and the
/// terminating semicolon.
pub open spec fn sp_command(s: Seq<char>) -> Option<(SpecCommand, Seq<char>)>
    decreases s.len(), 3int,
{
    if s.len() == 0 {
        None
    } else if s[0] == '!' {
        match sp_name(s.drop_first()) {
            Some((n, r)) => {
                let u = skip_ws(r);
                if u.len() < s.len() {
                    match sp_args(u) {
                        Some((args, r2)) => Some(
                            (SpecCommand { time: AstTime::CompileTime, name: n, args }, r2),
                        ),
                        None => None,
                    }
                } else {
                    None
                }
            },
            None => None,
        }
    } else {
        match sp_name(s) {
            Some((n, r)) => {
                if r.len() > 0 && r[0] == '!' {
                    let u = skip_ws(r.drop_first());
                    if u.len() < s.len() {
                        match sp_args(u) {
                            Some((args, r2)) => Some(
                                (SpecCommand { time: AstTime::Macro, name: n, args }, r2),
                            ),
                            None => None,
                        }
                    } else {
                        None
                    }
                } else {
                    let u = skip_ws(r);
                    if u.len() < s.len() {
                        match sp_args(u) {
                            Some((args, r2)) => Some(
                                (SpecCommand { time: AstTime::Runtime, name: n, args }, r2),
                            ),
                            None => None,
                        }
                    } else {
                        None
                    }
                }
            },
            None => None,
        }
    }
}

/// Parses commands up to and including a closing brace; whitespace has
/// already been skipped.
pub open spec fn sp_cmds_until(s: Seq<char>) -> Option<(Seq<SpecCommand>, Seq<char>)>
    decreases s.len(), 4int,
{
    if s.len() == 0 {
        None
    } else if s[0] == '}' {
        Some((Seq::empty(), s.drop_first()))
    } else {
        match sp_command(s) {
            Some((c, r)) => {
                let u = skip_ws(r);
                if u.len() < s.len() {
                    match sp_cmds_until(u) {
                        Some((cs, r2)) => Some((seq![c] + cs, r2)),
                        None => None,
                    }
                } else {
                    None
                }
            },
            None => None,
        }
    }
}

/// Parses commands up to the end of the input; whitespace has already been
/// skipped.
pub open spec fn sp_cmds_eof(s: Seq<char>) -> Option<Seq<SpecCommand>>
    decreases s.len(), 4int,
{
    if s.len() == 0 {
        Some(Seq::empty())
    } else {
        match sp_command(s) {
            Some((c, r)) => {
                let u = skip_ws(r);
                if u.len() < s.len() {
                    match sp_cmds_eof(u) {
                        Some(cs) => Some(seq![c] + cs),
                        None => None,
                    }
                } else {
                    None
                }
            },
            None => None,
        }
    }
}

/// Parses a whole file: one or more commands followed by the end of the
/// input, with no trailing text tolerated.
pub open spec fn sp_file(s: Seq<char>) -> Option<Seq<SpecCommand>> {
    match sp_cmds_eof(skip_ws(s)) {
        Some(cs) => if cs.len() >= 1 {
            Some(cs)
        } else {
            None
        },
        None => None,
    }
}

} // verus!
