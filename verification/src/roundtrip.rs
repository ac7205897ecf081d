//! The round-trip law: re-parsing what the canonical writer prints gives
//! back the tree that was printed, for every printable tree.

use vstd::prelude::*;
use crate::ast::{AstTime, SpecArgument, SpecBlock, SpecCommand, SpecName, SpecSwitch};
use crate::grammar::{
    all_digits, comment_end, digit_char, digit_val, digits_val, escape, is_digit, is_ident,
    is_ident_cont, is_ident_rest, is_ident_start, is_name_char, is_space, is_varname,
    lemma_scan_concat, print_arg, print_args, print_block, print_cmd, print_cmds, print_name,
    print_nat, print_switch, scan, skip_ws, sp_args, sp_argument, sp_cmds_eof, sp_cmds_until,
    sp_command, sp_file, sp_name, sp_number, sp_string_body, wf_arg, wf_args, wf_block, wf_cmd,
    wf_cmds, wf_name, wf_switch,
};

verus! {

/// What may follow a printed token without being drawn into it.
pub open spec fn arg_delim(rest: Seq<char>) -> bool {
    rest.len() == 0 || (!is_name_char(rest[0]) && rest[0] != '.')
}

/// Skipping whitespace never lengthens the input.
proof fn lemma_comment_end_len(s: Seq<char>)
    ensures
        match comment_end(s) {
            Some(r) => r.len() < s.len(),
            None => true,
        },
    decreases s.len(),
{
    if s.len() > 0 && s[0] != '\r' && s[0] != '\n' {
        lemma_comment_end_len(s.drop_first());
    }
}

/// Skipping whitespace never lengthens the input.
proof fn lemma_skip_ws_len(s: Seq<char>)
    ensures
        skip_ws(s).len() <= s.len(),
    decreases s.len(),
{
    if s.len() > 0 {
        if is_space(s[0]) {
            lemma_skip_ws_len(s.drop_first());
        } else if s[0] == '#' {
            lemma_comment_end_len(s.drop_first());
            match comment_end(s.drop_first()) {
                Some(r) => {
                    if r.len() < s.len() {
                        lemma_skip_ws_len(r);
                    }
                },
                None => {},
            }
        }
    }
}

/// Text that starts with no whitespace and no comment is left as it is.
proof fn lemma_skip_ws_stop(s: Seq<char>)
    requires
        s.len() == 0 || (!is_space(s[0]) && s[0] != '#'),
    ensures
        skip_ws(s) == s,
{
}

/// A single leading space is skipped.
proof fn lemma_skip_ws_space(s: Seq<char>)
    ensures
        skip_ws(seq![' '] + s) == skip_ws(s),
{
    let w = seq![' '] + s;
    assert(w[0] == ' ');
    assert(w.drop_first() =~= s);
}

/// Every character of an identifier tail is consumed by the name scanner.
proof fn lemma_ident_rest_chars(t: Seq<char>)
    requires
        is_ident_rest(t),
    ensures
        forall|i: int| 0 <= i < t.len() ==> is_name_char(#[trigger] t[i]),
    decreases t.len(),
{
    if t.len() > 0 {
        if is_ident_cont(t[0]) {
            lemma_ident_rest_chars(t.drop_first());
            assert forall|i: int| 0 <= i < t.len() implies is_name_char(#[trigger] t[i]) by {
                if i > 0 {
                    assert(t.drop_first()[i - 1] == t[i]);
                }
            }
        } else {
            lemma_ident_rest_chars(t.skip(3));
            assert forall|i: int| 0 <= i < t.len() implies is_name_char(#[trigger] t[i]) by {
                if i >= 3 {
                    assert(t.skip(3)[i - 3] == t[i]);
                }
            }
        }
    }
}

/// Every character of an identifier is consumed by the name scanner.
proof fn lemma_ident_chars(id: Seq<char>)
    requires
        is_ident(id),
    ensures
        id.len() >= 1,
        is_ident_start(id[0]),
        forall|i: int| 0 <= i < id.len() ==> is_name_char(#[trigger] id[i]),
{
    lemma_ident_rest_chars(id.drop_first());
    assert forall|i: int| 0 <= i < id.len() implies is_name_char(#[trigger] id[i]) by {
        if i > 0 {
            assert(id.drop_first()[i - 1] == id[i]);
        }
    }
}

/// The canonical digits of a value are digits, and read back as the value.
proof fn lemma_print_nat(n: nat)
    ensures
        print_nat(n).len() >= 1,
        all_digits(print_nat(n)),
        digits_val(print_nat(n)) == n,
    decreases n,
{
    if n < 10 {
        assert(digit_val(digit_char(n)) == n);
        assert(is_digit(digit_char(n)));
        let w = print_nat(n);
        assert(w =~= seq![digit_char(n)]);
        assert(w.drop_last() =~= Seq::<char>::empty());
        assert(w.last() == digit_char(n));
        assert(digits_val(w) == digits_val(w.drop_last()) * 10 + digit_val(w.last()));
        assert(digits_val(Seq::<char>::empty()) == 0);
    } else {
        lemma_print_nat(n / 10);
        let w = print_nat(n / 10).push(digit_char(n % 10));
        assert(is_digit(digit_char(n % 10)));
        assert(digit_val(digit_char(n % 10)) == n % 10);
        assert forall|i: int| 0 <= i < w.len() implies is_digit(#[trigger] w[i]) by {
            if i < w.len() - 1 {
                assert(w[i] == print_nat(n / 10)[i]);
            }
        }
        assert(w.drop_last() =~= print_nat(n / 10));
        assert(digits_val(w) == (n / 10) * 10 + n % 10);
    }
}

/// An identifier prints back as itself: the scanner stops exactly at its
/// end when the next character is no name character.
proof fn lemma_rt_ident(id: Seq<char>, rest: Seq<char>)
    requires
        is_ident(id),
        rest.len() == 0 || !is_name_char(rest[0]),
    ensures
        scan(id + rest, |c: char| is_name_char(c)) == id.len(),
        (id + rest).take(id.len() as int) == id,
        (id + rest).skip(id.len() as int) == rest,
{
    lemma_ident_chars(id);
    lemma_scan_concat(id, rest, |c: char| is_name_char(c));
    assert((id + rest).take(id.len() as int) =~= id);
    assert((id + rest).skip(id.len() as int) =~= rest);
}

/// A printed name parses back as itself.
proof fn lemma_rt_name(n: SpecName, rest: Seq<char>)
    requires
        wf_name(n),
        rest.len() == 0 || !is_name_char(rest[0]),
    ensures
        sp_name(print_name(n) + rest) == Some((n, rest)),
{
    let s = print_name(n) + rest;
    match n {
        SpecName::Placeholder => {
            assert(s[0] == '~');
            assert(s.drop_first() =~= rest);
        },
        SpecName::Name(id) => {
            lemma_ident_chars(id);
            assert(s[0] == id[0]);
            lemma_rt_ident(id, rest);
            assert(s =~= id + rest);
        },
        SpecName::Variable(v) => {
            assert(s[0] == '$');
            let t = s.drop_first();
            assert(t =~= v + rest);
            if is_ident(v) {
                lemma_ident_chars(v);
                assert(t[0] == v[0]);
                lemma_rt_ident(v, rest);
            } else {
                assert(v.len() > 0 && all_digits(v));
                assert(t[0] == v[0]);
                assert(is_digit(v[0]));
                assert(!is_ident_start(v[0]));
                assert(rest.len() == 0 || !is_digit(rest[0]));
                lemma_scan_concat(v, rest, |c: char| is_digit(c));
                assert(t.take(v.len() as int) =~= v);
                assert(t.skip(v.len() as int) =~= rest);
            }
        },
    }
}

/// A printed string literal parses back as itself.
proof fn lemma_rt_string(b: Seq<char>, rest: Seq<char>)
    requires
        forall|i: int| 0 <= i < b.len() ==> b[i] != '\\',
    ensures
        sp_string_body(escape(b) + seq!['"'] + rest) == Some((b, rest)),
    decreases b.len(),
{
    let s = escape(b) + seq!['"'] + rest;
    if b.len() == 0 {
        assert(escape(b) =~= Seq::<char>::empty());
        assert(s[0] == '"');
        assert(s.drop_first() =~= rest);
    } else {
        let c = b[0];
        let tail = b.drop_first();
        assert(forall|i: int| 0 <= i < tail.len() ==> #[trigger] tail[i] == b[i + 1]);
        lemma_rt_string(tail, rest);
        if c == '"' {
            assert(escape(b) =~= seq!['\\', '"'] + escape(tail));
            assert(s[0] == '\\');
            assert(s[1] == '"');
            assert(s.skip(2) =~= escape(tail) + seq!['"'] + rest);
            assert(seq![c] + tail =~= b);
        } else {
            assert(escape(b) =~= seq![c] + escape(tail));
            assert(s[0] == c);
            assert(c != '\\');
            assert(c != '"');
            assert(s.drop_first() =~= escape(tail) + seq!['"'] + rest);
            assert(seq![c] + tail =~= b);
        }
    }
}

/// A printed argument starts with a character that neither whitespace
/// skipping nor the list parsers mistake for something else.
proof fn lemma_print_arg_first(a: SpecArgument)
    requires
        wf_arg(a),
    ensures
        print_arg(a).len() >= 1,
        !is_space(print_arg(a)[0]),
        print_arg(a)[0] != '#',
        print_arg(a)[0] != ';',
        print_arg(a)[0] != '}',
{
    match a {
        SpecArgument::Nothing => {},
        SpecArgument::Name(n) => {
            match n {
                SpecName::Placeholder => {},
                SpecName::Name(id) => {
                    lemma_ident_chars(id);
                    assert(print_arg(a)[0] == id[0]);
                },
                SpecName::Variable(v) => {
                    assert(print_arg(a)[0] == '$');
                },
            }
        },
        SpecArgument::Integer(i) => {
            lemma_print_nat(i as nat);
            assert(is_digit(print_nat(i as nat)[0]));
        },
        SpecArgument::Float(w, f) => {
            assert(print_arg(a)[0] == w[0]);
            assert(is_digit(w[0]));
        },
        SpecArgument::String(_) => {
            assert(print_arg(a)[0] == '"');
        },
        SpecArgument::Switch(w) => {
            match w {
                SpecSwitch::On(_) => {
                    assert(print_arg(a)[0] == '+');
                },
                SpecSwitch::Off(_) => {
                    assert(print_arg(a)[0] == '-');
                },
                SpecSwitch::Option(_, _) => {
                    assert(print_arg(a)[0] == '/');
                },
            }
        },
        SpecArgument::Block(b) => {
            match b {
                SpecBlock::Evaluated(_) => {
                    assert(print_arg(a)[0] == '{');
                },
                SpecBlock::Argument(_) => {
                    assert(print_arg(a)[0] == '&');
                },
            }
        },
    }
}

/// A printed command starts with a character that neither whitespace
/// skipping nor the list parsers mistake for something else.
proof fn lemma_print_cmd_first(c: SpecCommand)
    requires
        wf_cmd(c),
    ensures
        print_cmd(c).len() >= 1,
        !is_space(print_cmd(c)[0]),
        print_cmd(c)[0] != '#',
        print_cmd(c)[0] != '}',
{
    match c.time {
        AstTime::CompileTime => {
            assert(print_cmd(c)[0] == '!');
        },
        AstTime::Macro => {
            match c.name {
                SpecName::Placeholder => {
                    assert(print_cmd(c)[0] == '~');
                },
                SpecName::Name(id) => {
                    lemma_ident_chars(id);
                    assert(print_cmd(c)[0] == id[0]);
                },
                SpecName::Variable(_) => {
                    assert(print_cmd(c)[0] == '$');
                },
            }
        },
        AstTime::Runtime => {
            match c.name {
                SpecName::Placeholder => {
                    assert(print_cmd(c)[0] == '~');
                },
                SpecName::Name(id) => {
                    lemma_ident_chars(id);
                    assert(print_cmd(c)[0] == id[0]);
                },
                SpecName::Variable(_) => {
                    assert(print_cmd(c)[0] == '$');
                },
            }
        },
    }
}

/// A printed argument parses back as itself when what follows cannot be
/// drawn into its final token.
#[verifier::rlimit(80)]
proof fn lemma_rt_argument(a: SpecArgument, rest: Seq<char>)
    requires
        wf_arg(a),
        arg_delim(rest),
    ensures
        sp_argument(print_arg(a) + rest) == Some((a, rest)),
    decreases a,
{
    let s = print_arg(a) + rest;
    lemma_print_arg_first(a);
    assert(s[0] == print_arg(a)[0]);
    match a {
        SpecArgument::Nothing => {},
        SpecArgument::Name(n) => {
            lemma_rt_name(n, rest);
            assert(s =~= print_name(n) + rest);
        },
        SpecArgument::Integer(i) => {
            let d = print_nat(i as nat);
            lemma_print_nat(i as nat);
            assert(s =~= d + rest);
            assert(rest.len() == 0 || !is_digit(rest[0]));
            lemma_scan_concat(d, rest, |c: char| is_digit(c));
            assert(s.take(d.len() as int) =~= d);
            assert(s.skip(d.len() as int) =~= rest);
            if rest.len() >= 2 {
                assert(rest[0] != '.');
            }
            assert(digits_val(d) == i as nat);
            assert(digits_val(d) <= i32::MAX);
        },
        SpecArgument::Float(w, f) => {
            let tail1 = seq!['.'] + f + rest;
            assert(s =~= w + tail1);
            assert(tail1[0] == '.');
            assert(!is_digit('.'));
            lemma_scan_concat(w, tail1, |c: char| is_digit(c));
            assert(s.take(w.len() as int) =~= w);
            let r = s.skip(w.len() as int);
            assert(r =~= tail1);
            assert(r.len() >= 2);
            assert(r[1] == f[0]);
            let t = r.drop_first();
            assert(t =~= f + rest);
            assert(rest.len() == 0 || !is_digit(rest[0]));
            lemma_scan_concat(f, rest, |c: char| is_digit(c));
            assert(t.take(f.len() as int) =~= f);
            assert(t.skip(f.len() as int) =~= rest);
        },
        SpecArgument::String(b) => {
            assert(s.drop_first() =~= escape(b) + seq!['"'] + rest);
            lemma_rt_string(b, rest);
        },
        SpecArgument::Switch(w) => {
            match w {
                SpecSwitch::On(n) => {
                    lemma_ident_chars(n);
                    let t = s.drop_first();
                    assert(t =~= n + rest);
                    assert(t[0] == n[0]);
                    lemma_rt_ident(n, rest);
                },
                SpecSwitch::Off(n) => {
                    lemma_ident_chars(n);
                    let t = s.drop_first();
                    assert(t =~= n + rest);
                    assert(t[0] == n[0]);
                    lemma_rt_ident(n, rest);
                },
                SpecSwitch::Option(n, v) => {
                    lemma_ident_chars(n);
                    let vtext = print_arg(*v) + rest;
                    let t = s.drop_first();
                    assert(t =~= n + (seq![' '] + vtext));
                    assert(t[0] == n[0]);
                    assert(!is_name_char(' '));
                    lemma_rt_ident(n, seq![' '] + vtext);
                    let after = t.skip(n.len() as int);
                    assert(after =~= seq![' '] + vtext);
                    lemma_skip_ws_space(vtext);
                    lemma_print_arg_first(*v);
                    assert(vtext[0] == print_arg(*v)[0]);
                    lemma_skip_ws_stop(vtext);
                    let u = skip_ws(after);
                    assert(u == vtext);
                    assert(u.len() < s.len());
                    lemma_rt_argument(*v, rest);
                },
            }
        },
        SpecArgument::Block(b) => {
            match b {
                SpecBlock::Evaluated(cs) => {
                    let inner = print_cmds(cs) + seq!['}'] + rest;
                    assert(s.drop_first() =~= inner);
                    lemma_rt_cmds_until(cs, rest);
                    lemma_cmds_text_stop(cs, seq!['}'] + rest);
                    assert(print_cmds(cs) + (seq!['}'] + rest) =~= inner);
                    assert(skip_ws(inner) == inner);
                    assert(skip_ws(s.drop_first()).len() < s.len());
                },
                SpecBlock::Argument(cs) => {
                    let inner = print_cmds(cs) + seq!['}'] + rest;
                    assert(s.len() >= 2);
                    assert(s[1] == '{');
                    assert(s.skip(2) =~= inner);
                    lemma_rt_cmds_until(cs, rest);
                    lemma_cmds_text_stop(cs, seq!['}'] + rest);
                    assert(print_cmds(cs) + (seq!['}'] + rest) =~= inner);
                    assert(skip_ws(inner) == inner);
                    assert(skip_ws(s.skip(2)).len() < s.len());
                },
            }
        },
    }
}

/// The text of a printed command sequence, followed by a brace or another
/// delimiter, starts with no whitespace, so skipping changes nothing.
proof fn lemma_cmds_text_stop(cs: Seq<SpecCommand>, rest: Seq<char>)
    requires
        wf_cmds(cs),
        rest.len() > 0 ==> !is_space(rest[0]) && rest[0] != '#',
    ensures
        skip_ws(print_cmds(cs) + rest) == print_cmds(cs) + rest,
{
    let s = print_cmds(cs) + rest;
    if cs.len() == 0 {
        assert(print_cmds(cs) =~= Seq::<char>::empty());
        assert(s =~= rest);
        lemma_skip_ws_stop(rest);
    } else {
        crate::grammar::lemma_wf_cmds_index(cs, 0);
        lemma_print_cmd_first(cs[0]);
        assert(print_cmds(cs) == print_cmd(cs[0]) + print_cmds(cs.drop_first()));
        assert(s[0] == print_cmd(cs[0])[0]);
        lemma_skip_ws_stop(s);
    }
}

/// A printed command sequence followed by a closing brace parses back as
/// itself.
#[verifier::rlimit(80)]
proof fn lemma_rt_cmds_until(cs: Seq<SpecCommand>, rest: Seq<char>)
    requires
        wf_cmds(cs),
    ensures
        sp_cmds_until(print_cmds(cs) + seq!['}'] + rest) == Some((cs, rest)),
    decreases cs,
{
    let s = print_cmds(cs) + seq!['}'] + rest;
    if cs.len() == 0 {
        assert(print_cmds(cs) =~= Seq::<char>::empty());
        assert(s[0] == '}');
        assert(s.drop_first() =~= rest);
    } else {
        let c0 = cs[0];
        let tail = cs.drop_first();
        crate::grammar::lemma_wf_cmds_index(cs, 0);
        lemma_print_cmd_first(c0);
        let tailtext = print_cmds(tail) + seq!['}'] + rest;
        assert(s =~= print_cmd(c0) + tailtext);
        assert(s[0] == print_cmd(c0)[0]);
        assert(s[0] != '}');
        lemma_rt_cmd(c0, tailtext);
        lemma_cmds_text_stop(tail, seq!['}'] + rest);
        assert(print_cmds(tail) + (seq!['}'] + rest) =~= tailtext);
        assert(skip_ws(tailtext) == tailtext);
        assert(tailtext.len() < s.len());
        lemma_rt_cmds_until(tail, rest);
        assert(seq![c0] + tail =~= cs);
    }
}

/// After a printed name inside a command comes a space, a semicolon, or
/// the macro marker: never a name character.
proof fn lemma_print_args_head(args: Seq<SpecArgument>)
    ensures
        args.len() > 0 ==> print_args(args).len() > 0 && print_args(args)[0] == ' ',
        args.len() == 0 ==> print_args(args) == Seq::<char>::empty(),
{
}

/// A printed command parses back as itself, whatever follows it.
#[verifier::rlimit(80)]
proof fn lemma_rt_cmd(c: SpecCommand, rest: Seq<char>)
    requires
        wf_cmd(c),
    ensures
        sp_command(print_cmd(c) + rest) == Some((c, rest)),
    decreases c,
{
    let s = print_cmd(c) + rest;
    let after = print_args(c.args) + seq![';'] + rest;
    lemma_print_args_head(c.args);
    assert(after.len() > 0);
    assert(after[0] == ' ' || after[0] == ';');
    assert(!is_name_char(after[0]) && after[0] != '!');
    lemma_skip_ws_len(after);
    lemma_rt_args(c.args, rest);
    match c.time {
        AstTime::CompileTime => {
            assert(s[0] == '!');
            assert(s.drop_first() =~= print_name(c.name) + after);
            lemma_rt_name(c.name, after);
            assert(skip_ws(after).len() < s.len());
            assert(c == SpecCommand { time: AstTime::CompileTime, name: c.name, args: c.args });
        },
        AstTime::Macro => {
            let aftermark = seq!['!'] + after;
            assert(s =~= print_name(c.name) + aftermark);
            assert(aftermark[0] == '!');
            assert(!is_name_char('!'));
            lemma_rt_name(c.name, aftermark);
            match c.name {
                SpecName::Placeholder => {
                    assert(s[0] == '~');
                },
                SpecName::Name(id) => {
                    lemma_ident_chars(id);
                    assert(s[0] == id[0]);
                },
                SpecName::Variable(_) => {
                    assert(s[0] == '$');
                },
            }
            assert(s[0] != '!');
            assert(aftermark.drop_first() =~= after);
            assert(skip_ws(after).len() < s.len());
            assert(c == SpecCommand { time: AstTime::Macro, name: c.name, args: c.args });
        },
        AstTime::Runtime => {
            assert(s =~= print_name(c.name) + after);
            lemma_rt_name(c.name, after);
            match c.name {
                SpecName::Placeholder => {
                    assert(s[0] == '~');
                },
                SpecName::Name(id) => {
                    lemma_ident_chars(id);
                    assert(s[0] == id[0]);
                },
                SpecName::Variable(_) => {
                    assert(s[0] == '$');
                },
            }
            assert(s[0] != '!');
            assert(after[0] != '!');
            assert(skip_ws(after).len() < s.len());
            assert(c == SpecCommand { time: AstTime::Runtime, name: c.name, args: c.args });
        },
    }
}

/// Printed arguments, followed by their terminating semicolon, parse back
/// as themselves once leading whitespace is skipped.
#[verifier::rlimit(80)]
proof fn lemma_rt_args(args: Seq<SpecArgument>, rest: Seq<char>)
    requires
        wf_args(args),
    ensures
        sp_args(skip_ws(print_args(args) + seq![';'] + rest)) == Some((args, rest)),
    decreases args,
{
    if args.len() == 0 {
        let s = print_args(args) + seq![';'] + rest;
        assert(print_args(args) =~= Seq::<char>::empty());
        assert(s =~= seq![';'] + rest);
        assert(s[0] == ';');
        lemma_skip_ws_stop(s);
        assert(s.drop_first() =~= rest);
    } else {
        let a0 = args[0];
        let tail = args.drop_first();
        crate::grammar::lemma_wf_args_index(args, 0);
        let rest2 = print_args(tail) + seq![';'] + rest;
        let x = print_arg(a0) + rest2;
        assert(print_args(args) + seq![';'] + rest =~= seq![' '] + x);
        lemma_skip_ws_space(x);
        lemma_print_arg_first(a0);
        assert(x[0] == print_arg(a0)[0]);
        lemma_skip_ws_stop(x);
        assert(skip_ws(seq![' '] + x) == x);
        lemma_print_args_head(tail);
        assert(rest2[0] == ' ' || rest2[0] == ';');
        assert(arg_delim(rest2));
        lemma_rt_argument(a0, rest2);
        assert(x[0] != ';');
        lemma_skip_ws_len(rest2);
        assert(skip_ws(rest2).len() < x.len());
        lemma_rt_args(tail, rest);
        assert(seq![a0] + tail =~= args);
    }
}

/// A printed command sequence, alone in the input, parses back as itself.
#[verifier::rlimit(80)]
proof fn lemma_rt_cmds_eof(cs: Seq<SpecCommand>)
    requires
        wf_cmds(cs),
    ensures
        sp_cmds_eof(skip_ws(print_cmds(cs))) == Some(cs),
    decreases cs,
{
    if cs.len() == 0 {
        assert(print_cmds(cs) =~= Seq::<char>::empty());
    } else {
        let c0 = cs[0];
        let tail = cs.drop_first();
        crate::grammar::lemma_wf_cmds_index(cs, 0);
        lemma_print_cmd_first(c0);
        let tailtext = print_cmds(tail);
        let s = print_cmds(cs);
        assert(s =~= print_cmd(c0) + tailtext);
        assert(s[0] == print_cmd(c0)[0]);
        lemma_skip_ws_stop(s);
        assert(s.len() > 0);
        lemma_rt_cmd(c0, tailtext);
        lemma_cmds_text_stop(tail, Seq::<char>::empty());
        assert(tailtext + Seq::<char>::empty() =~= tailtext);
        assert(skip_ws(tailtext) == tailtext);
        assert(tailtext.len() < s.len());
        lemma_rt_cmds_eof(tail);
        assert(skip_ws(print_cmds(tail)) == tailtext);
        assert(seq![c0] + tail =~= cs);
    }
}

/// Round trip: a printable command sequence, printed back to surface
/// syntax by the canonical writer and re-parsed, is exactly the sequence
/// that was printed. A printable tree is one the grammar can express: at
/// least one command, identifiers and switch names well formed, integers
/// non-negative, float digit runs non-empty, strings without backslashes,
/// and no bare result value among the arguments.
pub proof fn lemma_roundtrip(cs: Seq<SpecCommand>)
    requires
        wf_cmds(cs),
        cs.len() >= 1,
    ensures
        sp_file(print_cmds(cs)) == Some(cs),
{
    lemma_rt_cmds_eof(cs);
}

} // verus!
