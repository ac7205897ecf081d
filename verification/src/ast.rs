//! The abstract syntax tree produced by the parser and consumed by the
//! virtual machine, together with its mathematical model (the `Spec*`
//! types, where strings are character sequences and vectors are `Seq`s,
//! so that two trees built independently are equal exactly when they are
//! structurally equal).

use vstd::prelude::*;

verus! {

/// Command execution time.
#[derive(PartialEq, Eq, Structural, Clone, Copy, Debug)]
pub enum AstTime {
    /// Command executed at compile time (`!name`).
    CompileTime,
    /// Command executed at compile time whose result is inserted in the AST (`name!`).
    Macro,
    /// Command executed at runtime (bare `name`).
    Runtime,
}

/// A name in the AST.
#[derive(Debug)]
pub enum AstName {
    /// Placeholder name (`~`), used by macros.
    Placeholder,
    /// A regular identifier.
    Name(String),
    /// A variable reference (`$` followed by an identifier or digits).
    Variable(String),
}

/// A float literal, kept as the two digit runs of its surface form
/// (`digits "." digits`), so that no rounding is introduced.
#[derive(Debug)]
pub struct AstFloat {
    /// Digits before the dot.
    pub integral: String,
    /// Digits after the dot.
    pub fractional: String,
}

/// Argument for a command.
#[derive(Debug)]
pub enum AstArgument {
    /// No argument.
    Nothing,
    /// A name or word.
    Name(AstName),
    /// An integer literal.
    Integer(i32),
    /// A float literal.
    Float(AstFloat),
    /// A string literal.
    String(String),
    /// A command switch.
    Switch(AstSwitch),
    /// A command block.
    Block(AstBlock),
}

/// A command switch.
#[derive(Debug)]
pub enum AstSwitch {
    /// An enabling switch (`+name`).
    On(String),
    /// A disabling switch (`-name`).
    Off(String),
    /// An option switch with an associated value (`/name value`).
    Option(String, Box<AstArgument>),
}

/// A command block.
#[derive(Debug)]
pub enum AstBlock {
    /// An evaluated block (`{ ... }`), whose result is passed to the command.
    Evaluated(Vec<AstCommand>),
    /// A static block (`&{ ... }`), passed unevaluated to the command.
    Argument(Vec<AstCommand>),
}

/// An AST command.
#[derive(Debug)]
pub struct AstCommand {
    /// Execution time of the command.
    pub time: AstTime,
    /// Name of the command.
    pub name: AstName,
    /// Arguments of the command.
    pub arguments: Vec<AstArgument>,
}

// ------------------------------------------------------------------
// The mathematical model of the tree.
// ------------------------------------------------------------------

/// Model of [`AstName`].
pub enum SpecName {
    /// Placeholder name.
    Placeholder,
    /// A regular identifier.
    Name(Seq<char>),
    /// A variable reference.
    Variable(Seq<char>),
}

/// Model of [`AstArgument`].
pub enum SpecArgument {
    /// No argument.
    Nothing,
    /// A name or word.
    Name(SpecName),
    /// An integer literal.
    Integer(i32),
    /// A float literal: digits before and after the dot.
    Float(Seq<char>, Seq<char>),
    /// A string literal.
    String(Seq<char>),
    /// A command switch.
    Switch(SpecSwitch),
    /// A command block.
    Block(SpecBlock),
}

/// Model of [`AstSwitch`].
pub enum SpecSwitch {
    /// An enabling switch.
    On(Seq<char>),
    /// A disabling switch.
    Off(Seq<char>),
    /// An option switch with an associated value.
    Option(Seq<char>, Box<SpecArgument>),
}

/// Model of [`AstBlock`].
pub enum SpecBlock {
    /// An evaluated block.
    Evaluated(Seq<SpecCommand>),
    /// A static block.
    Argument(Seq<SpecCommand>),
}

/// Model of [`AstCommand`].
pub struct SpecCommand {
    /// Execution time of the command.
    pub time: AstTime,
    /// Name of the command.
    pub name: SpecName,
    /// Arguments of the command.
    pub args: Seq<SpecArgument>,
}

// ------------------------------------------------------------------
// Views from the executable tree into the model.
// ------------------------------------------------------------------

/// Model of a name.
pub open spec fn view_name(n: AstName) -> SpecName {
    match n {
        AstName::Placeholder => SpecName::Placeholder,
        AstName::Name(s) => SpecName::Name(s@),
        AstName::Variable(s) => SpecName::Variable(s@),
    }
}

/// Model of an argument.
pub open spec fn view_arg(a: AstArgument) -> SpecArgument
    decreases a,
{
    match a {
        AstArgument::Nothing => SpecArgument::Nothing,
        AstArgument::Name(n) => SpecArgument::Name(view_name(n)),
        AstArgument::Integer(i) => SpecArgument::Integer(i),
        AstArgument::Float(f) => SpecArgument::Float(f.integral@, f.fractional@),
        AstArgument::String(s) => SpecArgument::String(s@),
        AstArgument::Switch(w) => SpecArgument::Switch(view_switch(w)),
        AstArgument::Block(b) => SpecArgument::Block(view_block(b)),
    }
}

/// Model of a switch.
pub open spec fn view_switch(w: AstSwitch) -> SpecSwitch
    decreases w,
{
    match w {
        AstSwitch::On(n) => SpecSwitch::On(n@),
        AstSwitch::Off(n) => SpecSwitch::Off(n@),
        AstSwitch::Option(n, v) => SpecSwitch::Option(n@, Box::new(view_arg(*v))),
    }
}

/// Model of a block.
pub open spec fn view_block(b: AstBlock) -> SpecBlock
    decreases b,
{
    match b {
        AstBlock::Evaluated(v) => SpecBlock::Evaluated(view_cmds(v@)),
        AstBlock::Argument(v) => SpecBlock::Argument(view_cmds(v@)),
    }
}

/// Model of a command sequence.
pub open spec fn view_cmds(v: Seq<AstCommand>) -> Seq<SpecCommand>
    decreases v,
{
    if v.len() == 0 {
        Seq::empty()
    } else {
        view_cmds(v.drop_last()).push(view_cmd(v.last()))
    }
}

/// Model of a command.
pub open spec fn view_cmd(c: AstCommand) -> SpecCommand
    decreases c,
{
    SpecCommand { time: c.time, name: view_name(c.name), args: view_args(c.arguments@) }
}

/// Model of an argument sequence.
pub open spec fn view_args(v: Seq<AstArgument>) -> Seq<SpecArgument>
    decreases v,
{
    if v.len() == 0 {
        Seq::empty()
    } else {
        view_args(v.drop_last()).push(view_arg(v.last()))
    }
}

/// A command sequence is modelled element by element.
pub proof fn lemma_view_cmds(v: Seq<AstCommand>)
    ensures
        view_cmds(v).len() == v.len(),
        forall|i: int| 0 <= i < v.len() ==> view_cmds(v)[i] == view_cmd(#[trigger] v[i]),
    decreases v.len(),
{
    if v.len() > 0 {
        lemma_view_cmds(v.drop_last());
        assert forall|i: int| 0 <= i < v.len() implies view_cmds(v)[i] == view_cmd(v[i]) by {
            if i < v.len() - 1 {
                assert(v.drop_last()[i] == v[i]);
            } else {
                assert(v[i] == v.last());
            }
        }
    }
}

/// An argument sequence is modelled element by element.
pub proof fn lemma_view_args(v: Seq<AstArgument>)
    ensures
        view_args(v).len() == v.len(),
        forall|i: int| 0 <= i < v.len() ==> view_args(v)[i] == view_arg(#[trigger] v[i]),
    decreases v.len(),
{
    if v.len() > 0 {
        lemma_view_args(v.drop_last());
        assert forall|i: int| 0 <= i < v.len() implies view_args(v)[i] == view_arg(v[i]) by {
            if i < v.len() - 1 {
                assert(v.drop_last()[i] == v[i]);
            } else {
                assert(v[i] == v.last());
            }
        }
    }
}

/// Prepending a command prepends its model.
pub proof fn lemma_view_cmds_cons(c: AstCommand, rest: Seq<AstCommand>)
    ensures
        view_cmds(seq![c] + rest) == seq![view_cmd(c)] + view_cmds(rest),
{
    let w = seq![c] + rest;
    lemma_view_cmds(rest);
    lemma_view_cmds(w);
    assert forall|x: int| 0 <= x < w.len() implies view_cmds(w)[x] == (seq![view_cmd(c)]
        + view_cmds(rest))[x] by {
        if x > 0 {
            assert(w[x] == rest[x - 1]);
        } else {
            assert(w[0] == c);
        }
    }
    assert(view_cmds(w) =~= seq![view_cmd(c)] + view_cmds(rest));
}

/// Prepending an argument prepends its model.
pub proof fn lemma_view_args_cons(a: AstArgument, rest: Seq<AstArgument>)
    ensures
        view_args(seq![a] + rest) == seq![view_arg(a)] + view_args(rest),
{
    let w = seq![a] + rest;
    lemma_view_args(rest);
    lemma_view_args(w);
    assert forall|x: int| 0 <= x < w.len() implies view_args(w)[x] == (seq![view_arg(a)]
        + view_args(rest))[x] by {
        if x > 0 {
            assert(w[x] == rest[x - 1]);
        } else {
            assert(w[0] == a);
        }
    }
    assert(view_args(w) =~= seq![view_arg(a)] + view_args(rest));
}

impl AstCommand {
    /// Creates a new command without any arguments.
    pub fn new(time: AstTime, name: AstName) -> (r: AstCommand)
        ensures
            view_cmd(r) == (SpecCommand {
                time,
                name: view_name(name),
                args: Seq::<SpecArgument>::empty(),
            }),
    {
        let r = AstCommand { time, name, arguments: Vec::new() };
        proof {
            assert(view_args(r.arguments@) =~= Seq::<SpecArgument>::empty());
        }
        r
    }

    /// Creates a new command from the given one, using other arguments.
    pub fn extends(cmd: AstCommand, arguments: Vec<AstArgument>) -> (r: AstCommand)
        ensures
            view_cmd(r) == (SpecCommand {
                time: cmd.time,
                name: view_name(cmd.name),
                args: view_args(arguments@),
            }),
    {
        AstCommand { time: cmd.time, name: cmd.name, arguments }
    }
}

/// Extracts the plain identifier out of a regular name.
pub fn extract_name(n: AstName) -> (r: String)
    requires
        view_name(n) is Name,
    ensures
        view_name(n) == SpecName::Name(r@),
{
    match n {
        AstName::Name(v) => v,
        _ => vstd::pervasive::unreached(),
    }
}

} // verus!
