//! The canonical writer: prints an AST back to surface syntax, exactly as
//! the grammar's printing functions describe. Re-parsing what it prints
//! gives back the same tree (the round-trip law).

use vstd::prelude::*;
use crate::ast::{
    AstArgument, AstBlock, AstCommand, AstName, AstSwitch, AstTime, SpecArgument, SpecCommand,
    lemma_view_args, lemma_view_cmds, view_arg, view_args, view_block, view_cmd, view_cmds,
    view_name, view_switch,
};
use crate::grammar::{
    digit_char, escape, lemma_escape_snoc, lemma_print_args_snoc, lemma_print_cmds_snoc,
    lemma_wf_args_index, lemma_wf_cmds_index, print_arg, print_args, print_block, print_cmd,
    print_cmds, print_name, print_nat, wf_arg, wf_args, wf_block, wf_cmd, wf_cmds, wf_name,
};
use crate::text::push_char;

verus! {

/// Appends the canonical text of a name.
pub fn write_name(n: &AstName, out: &mut String)
    ensures
        final(out)@ == old(out)@ + print_name(view_name(*n)),
{
    match n {
        AstName::Placeholder => {
            push_char(out, '~');
            proof {
                assert(old(out)@.push('~') =~= old(out)@ + seq!['~']);
            }
        },
        AstName::Name(s) => {
            out.append(s.as_str());
        },
        AstName::Variable(s) => {
            push_char(out, '$');
            out.append(s.as_str());
            proof {
                assert(old(out)@.push('$') + s@ =~= old(out)@ + (seq!['$'] + s@));
            }
        },
    }
}

/// Appends the canonical decimal digits of a value.
fn write_nat(n: u32, out: &mut String)
    ensures
        final(out)@ == old(out)@ + print_nat(n as nat),
    decreases n,
{
    if n < 10 {
        let c: char = match n {
            0 => '0',
            1 => '1',
            2 => '2',
            3 => '3',
            4 => '4',
            5 => '5',
            6 => '6',
            7 => '7',
            8 => '8',
            _ => '9',
        };
        proof {
            assert(c == digit_char(n as nat));
        }
        push_char(out, c);
        proof {
            assert(old(out)@.push(c) =~= old(out)@ + seq![c]);
        }
    } else {
        write_nat(n / 10, out);
        let d = n % 10;
        let c: char = match d {
            0 => '0',
            1 => '1',
            2 => '2',
            3 => '3',
            4 => '4',
            5 => '5',
            6 => '6',
            7 => '7',
            8 => '8',
            _ => '9',
        };
        proof {
            assert(c == digit_char((n % 10) as nat));
        }
        push_char(out, c);
        proof {
            assert((old(out)@ + print_nat((n / 10) as nat)).push(c) =~= old(out)@ + print_nat(
                (n / 10) as nat,
            ).push(c));
            assert(print_nat(n as nat) == print_nat((n as nat) / 10).push(
                digit_char((n as nat) % 10),
            ));
            assert((n as nat) / 10 == (n / 10) as nat);
            assert((n as nat) % 10 == (n % 10) as nat);
        }
    }
}

/// Appends the canonical text of a string literal, quotes included.
fn write_string(s: &String, out: &mut String)
    ensures
        final(out)@ == old(out)@ + (seq!['"'] + escape(s@) + seq!['"']),
{
    push_char(out, '"');
    let inner = s.as_str();
    let n = inner.unicode_len();
    let mut i: usize = 0;
    proof {
        assert(s@.take(0) =~= Seq::<char>::empty());
        assert(old(out)@.push('"') =~= old(out)@ + seq!['"'] + escape(s@.take(0)));
    }
    while i < n
        invariant
            i <= n == s@.len(),
            inner@ == s@,
            out@ == old(out)@ + seq!['"'] + escape(s@.take(i as int)),
        decreases n - i,
    {
        let c = inner.get_char(i);
        let ghost pre = out@;
        if c == '"' {
            push_char(out, '\\');
            push_char(out, '"');
            proof {
                assert(pre.push('\\').push('"') =~= pre + seq!['\\', '"']);
            }
        } else {
            push_char(out, c);
            proof {
                assert(pre.push(c) =~= pre + seq![c]);
            }
        }
        proof {
            lemma_escape_snoc(s@.take(i as int), c);
            assert(s@.take(i as int).push(c) =~= s@.take(i as int + 1));
        }
        i = i + 1;
    }
    push_char(out, '"');
    proof {
        assert(s@.take(n as int) =~= s@);
        assert((old(out)@ + seq!['"'] + escape(s@)).push('"') =~= old(out)@ + (seq!['"'] + escape(
            s@,
        ) + seq!['"']));
    }
}

/// Appends the canonical text of an argument.
pub fn write_arg(a: &AstArgument, out: &mut String)
    requires
        wf_arg(view_arg(*a)),
    ensures
        final(out)@ == old(out)@ + print_arg(view_arg(*a)),
    decreases *a,
{
    match a {
        AstArgument::Nothing => {
            proof {
                assert(false);
            }
        },
        AstArgument::Name(n) => {
            write_name(n, out);
        },
        AstArgument::Integer(i) => {
            write_nat(*i as u32, out);
        },
        AstArgument::Float(f) => {
            out.append(f.integral.as_str());
            push_char(out, '.');
            out.append(f.fractional.as_str());
            proof {
                assert((old(out)@ + f.integral@).push('.') + f.fractional@ =~= old(out)@
                    + (f.integral@ + seq!['.'] + f.fractional@));
            }
        },
        AstArgument::String(s) => {
            write_string(s, out);
        },
        AstArgument::Switch(w) => {
            write_switch(w, out);
        },
        AstArgument::Block(b) => {
            write_block(b, out);
        },
    }
}

/// Appends the canonical text of a switch.
pub fn write_switch(w: &AstSwitch, out: &mut String)
    requires
        crate::grammar::wf_switch(view_switch(*w)),
    ensures
        final(out)@ == old(out)@ + crate::grammar::print_switch(view_switch(*w)),
    decreases *w,
{
    match w {
        AstSwitch::On(n) => {
            push_char(out, '+');
            out.append(n.as_str());
            proof {
                assert(old(out)@.push('+') + n@ =~= old(out)@ + (seq!['+'] + n@));
            }
        },
        AstSwitch::Off(n) => {
            push_char(out, '-');
            out.append(n.as_str());
            proof {
                assert(old(out)@.push('-') + n@ =~= old(out)@ + (seq!['-'] + n@));
            }
        },
        AstSwitch::Option(n, v) => {
            push_char(out, '/');
            out.append(n.as_str());
            push_char(out, ' ');
            write_arg(&**v, out);
            proof {
                assert((old(out)@.push('/') + n@).push(' ') + print_arg(view_arg(**v)) =~= old(
                    out,
                )@ + (seq!['/'] + n@ + seq![' '] + print_arg(view_arg(**v))));
            }
        },
    }
}

/// Appends the canonical text of a block.
pub fn write_block(b: &AstBlock, out: &mut String)
    requires
        wf_block(view_block(*b)),
    ensures
        final(out)@ == old(out)@ + print_block(view_block(*b)),
    decreases *b,
{
    match b {
        AstBlock::Evaluated(cs) => {
            push_char(out, '{');
            write_cmds(cs, out);
            push_char(out, '}');
            proof {
                assert((old(out)@.push('{') + print_cmds(view_cmds(cs@))).push('}') =~= old(out)@
                    + (seq!['{'] + print_cmds(view_cmds(cs@)) + seq!['}']));
            }
        },
        AstBlock::Argument(cs) => {
            push_char(out, '&');
            push_char(out, '{');
            write_cmds(cs, out);
            push_char(out, '}');
            proof {
                assert((old(out)@.push('&').push('{') + print_cmds(view_cmds(cs@))).push('}')
                    =~= old(out)@ + (seq!['&', '{'] + print_cmds(view_cmds(cs@)) + seq!['}']));
            }
        },
    }
}

/// Appends the canonical text of a command sequence.
pub fn write_cmds(cs: &Vec<AstCommand>, out: &mut String)
    requires
        wf_cmds(view_cmds(cs@)),
    ensures
        final(out)@ == old(out)@ + print_cmds(view_cmds(cs@)),
    decreases *cs,
{
    proof {
        lemma_view_cmds(cs@);
        assert(view_cmds(cs@).take(0) =~= Seq::<SpecCommand>::empty());
        assert(print_cmds(Seq::<SpecCommand>::empty()) =~= Seq::<char>::empty());
        assert(out@ =~= old(out)@ + print_cmds(view_cmds(cs@).take(0)));
    }
    let n = cs.len();
    let mut i: usize = 0;
    while i < n
        invariant
            i <= n == cs@.len(),
            wf_cmds(view_cmds(cs@)),
            view_cmds(cs@).len() == cs@.len(),
            forall|x: int| 0 <= x < cs@.len() ==> view_cmds(cs@)[x] == view_cmd(#[trigger] cs@[x]),
            out@ == old(out)@ + print_cmds(view_cmds(cs@).take(i as int)),
        decreases n - i,
    {
        proof {
            lemma_wf_cmds_index(view_cmds(cs@), i as int);
        }
        write_cmd(&cs[i], out);
        proof {
            lemma_print_cmds_snoc(view_cmds(cs@).take(i as int), view_cmds(cs@)[i as int]);
            assert(view_cmds(cs@).take(i as int).push(view_cmds(cs@)[i as int]) =~= view_cmds(
                cs@,
            ).take(i as int + 1));
            assert((old(out)@ + print_cmds(view_cmds(cs@).take(i as int))) + print_cmd(
                view_cmd(cs@[i as int]),
            ) =~= old(out)@ + print_cmds(view_cmds(cs@).take(i as int + 1)));
        }
        i = i + 1;
    }
    proof {
        assert(view_cmds(cs@).take(n as int) =~= view_cmds(cs@));
    }
}

/// Appends the canonical text of one command, its terminator included.
pub fn write_cmd(c: &AstCommand, out: &mut String)
    requires
        wf_cmd(view_cmd(*c)),
    ensures
        final(out)@ == old(out)@ + print_cmd(view_cmd(*c)),
    decreases *c,
{
    let ghost pre = old(out)@;
    match c.time {
        AstTime::CompileTime => {
            push_char(out, '!');
            write_name(&c.name, out);
            proof {
                assert(pre.push('!') + print_name(view_name(c.name)) =~= pre + (seq!['!']
                    + print_name(view_name(c.name))));
            }
        },
        AstTime::Macro => {
            write_name(&c.name, out);
            push_char(out, '!');
            proof {
                assert((pre + print_name(view_name(c.name))).push('!') =~= pre + (print_name(
                    view_name(c.name),
                ) + seq!['!']));
            }
        },
        AstTime::Runtime => {
            write_name(&c.name, out);
        },
    }
    let ghost head = out@;
    write_cmd_args(&c.arguments, out);
    push_char(out, ';');
    proof {
        assert((head + print_args(view_args(c.arguments@))).push(';') =~= head + print_args(
            view_args(c.arguments@),
        ) + seq![';']);
        assert(head + print_args(view_args(c.arguments@)) + seq![';'] =~= pre + print_cmd(
            view_cmd(*c),
        ));
    }
}

/// Appends the canonical text of a command's arguments, one space before
/// each of them.
fn write_cmd_args(args: &Vec<AstArgument>, out: &mut String)
    requires
        wf_args(view_args(args@)),
    ensures
        final(out)@ == old(out)@ + print_args(view_args(args@)),
    decreases *args,
{
    proof {
        lemma_view_args(args@);
        assert(view_args(args@).take(0) =~= Seq::<SpecArgument>::empty());
        assert(out@ =~= old(out)@ + print_args(view_args(args@).take(0)));
    }
    let n = args.len();
    let mut i: usize = 0;
    while i < n
        invariant
            i <= n == args@.len(),
            wf_args(view_args(args@)),
            view_args(args@).len() == args@.len(),
            forall|x: int| 0 <= x < args@.len() ==> view_args(args@)[x] == view_arg(
                #[trigger] args@[x],
            ),
            out@ == old(out)@ + print_args(view_args(args@).take(i as int)),
        decreases n - i,
    {
        proof {
            lemma_wf_args_index(view_args(args@), i as int);
        }
        push_char(out, ' ');
        write_arg(&args[i], out);
        proof {
            lemma_print_args_snoc(view_args(args@).take(i as int), view_args(args@)[i as int]);
            assert(view_args(args@).take(i as int).push(view_args(args@)[i as int]) =~= view_args(
                args@,
            ).take(i as int + 1));
            assert(((old(out)@ + print_args(view_args(args@).take(i as int))).push(' ')
                + print_arg(view_arg(args@[i as int]))) =~= old(out)@ + print_args(
                view_args(args@).take(i as int + 1),
            ));
        }
        i = i + 1;
    }
    proof {
        assert(view_args(args@).take(n as int) =~= view_args(args@));
    }
}

/// Prints a command sequence back to surface syntax.
pub fn write_file(cs: &Vec<AstCommand>) -> (r: String)
    requires
        wf_cmds(view_cmds(cs@)),
    ensures
        r@ == print_cmds(view_cmds(cs@)),
{
    let mut out = String::new();
    write_cmds(cs, &mut out);
    out
}

} // verus!
