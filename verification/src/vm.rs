//! Virtual machine executing neoshell code: it holds the command registery
//! and dispatches each AST command to the executor registered for the
//! command's own phase.

use vstd::prelude::*;
use crate::ast::{AstArgument, AstCommand, AstName, AstTime, SpecName, view_name};
use crate::error::ExecError;
use crate::command::{CompileTimeCommand, MacroCommand, RuntimeCommand};
use crate::registery::CommandRegistery;
use crate::scope::Scope;

verus! {

/// Virtual machine executing neoshell code, generic over the executor
/// type of each phase.
#[verifier::reject_recursive_types(C)]
#[verifier::reject_recursive_types(M)]
#[verifier::reject_recursive_types(R)]
pub struct VM<C, M, R> {
    registery: CommandRegistery<C, M, R>,
}

impl<C, M, R> VM<C, M, R> {
    /// The registery held by the machine.
    pub closed spec fn spec_registery(&self) -> CommandRegistery<C, M, R> {
        self.registery
    }

    /// The machine is well formed when its registery is.
    pub open spec fn wf(&self) -> bool {
        self.spec_registery().wf()
    }

    /// Creates a new VM object with an empty registery.
    pub fn new() -> (r: VM<C, M, R>)
        ensures
            r.wf(),
            r.spec_registery().ct_view() == Map::<Seq<char>, Box<C>>::empty(),
            r.spec_registery().macro_view() == Map::<Seq<char>, Box<M>>::empty(),
            r.spec_registery().rt_view() == Map::<Seq<char>, Box<R>>::empty(),
    {
        VM { registery: CommandRegistery::new() }
    }

    /// Gets the command registery.
    pub fn get_registery(&self) -> (r: &CommandRegistery<C, M, R>)
        ensures
            *r == self.spec_registery(),
    {
        &self.registery
    }

    /// Gets the command registery for mutation.
    pub fn get_registery_mut(&mut self) -> (r: &mut CommandRegistery<C, M, R>)
        ensures
            *r == old(self).spec_registery(),
            final(self).spec_registery() == *final(r),
    {
        &mut self.registery
    }

}

impl<C: CompileTimeCommand<M, R>, M: MacroCommand<C, R>, R: RuntimeCommand<C, M>> VM<C, M, R> {
    /// Executes a compile time command: the executor is taken out of the
    /// registery for the duration of the call, so that it may mutate the
    /// machine, and is put back afterwards. Dispatching a command whose
    /// `time` is not compile time is a caller contract violation: the
    /// precondition excludes it, so a mismatched dispatch is rejected at
    /// verification time, before any lookup.
    pub fn execute_ct_command(&mut self, scp: &mut Scope, scope: usize, cmd: &AstCommand) -> (r:
        Option<ExecError>)
        requires
            old(self).wf(),
            old(scp).wf(),
            scope < old(scp).view_scope().len(),
            cmd.time == AstTime::CompileTime,
        ensures
            final(self).wf(),
            final(scp).wf(),
            final(scp).view_scope().len() >= old(scp).view_scope().len(),
            match view_name(cmd.name) {
                SpecName::Placeholder => r == Some(ExecError::InvalidPlaceholderUse) && *final(self)
                    == *old(self) && *final(scp) == *old(scp),
                SpecName::Variable(_) => r == Some(ExecError::InvalidVariableCommandUse)
                    && *final(self) == *old(self) && *final(scp) == *old(scp),
                SpecName::Name(n) => {
                    &&& !old(self).spec_registery().ct_view().contains_key(n) ==> {
                        &&& r matches Some(e)
                        &&& (e matches ExecError::CommandNotFound { time, name } && time
                            == AstTime::CompileTime && name@ == n)
                        &&& *final(self) == *old(self)
                        &&& *final(scp) == *old(scp)
                    }
                    &&& old(self).spec_registery().ct_view().contains_key(n)
                        ==> final(self).spec_registery().ct_view().contains_key(n)
                },
            },
    {
        let cmd_name: &String;
        match &cmd.name {
            AstName::Placeholder => {
                return Some(ExecError::InvalidPlaceholderUse);
            },
            AstName::Name(n) => {
                cmd_name = n;
            },
            AstName::Variable(_) => {
                return Some(ExecError::InvalidVariableCommandUse);
            },
        }
        let copt = self.registery.get_ct_command_move(cmd_name);
        match copt {
            None => Some(
                ExecError::CommandNotFound { time: AstTime::CompileTime, name: cmd_name.clone() },
            ),
            Some(mut c) => {
                let r = c.execute(self, scp, scope, cmd);
                self.registery.register_ct_boxed(cmd_name, c);
                r
            },
        }
    }

    /// Executes a macro command, returning the commands to splice in place
    /// of the macro node. Dispatching a command whose `time` is not macro
    /// time is a caller contract violation: the precondition excludes it,
    /// so a mismatched dispatch is rejected at verification time, before
    /// any lookup.
    pub fn execute_macro(&self, scp: &mut Scope, scope: usize, cmd: &AstCommand) -> (r: Result<
        Vec<AstCommand>,
        ExecError,
    >)
        requires
            self.wf(),
            old(scp).wf(),
            scope < old(scp).view_scope().len(),
            cmd.time == AstTime::Macro,
        ensures
            final(scp).wf(),
            final(scp).view_scope().len() >= old(scp).view_scope().len(),
            match view_name(cmd.name) {
                SpecName::Placeholder => r == Err::<Vec<AstCommand>, ExecError>(
                    ExecError::InvalidPlaceholderUse,
                ) && *final(scp) == *old(scp),
                SpecName::Variable(_) => r == Err::<Vec<AstCommand>, ExecError>(
                    ExecError::InvalidVariableCommandUse,
                ) && *final(scp) == *old(scp),
                SpecName::Name(n) => !self.spec_registery().macro_view().contains_key(n) ==> {
                    &&& r matches Err(e)
                    &&& (e matches ExecError::CommandNotFound { time, name } && time
                        == AstTime::Macro && name@ == n)
                    &&& *final(scp) == *old(scp)
                },
            },
    {
        let cmd_name: &String;
        match &cmd.name {
            AstName::Placeholder => {
                return Err(ExecError::InvalidPlaceholderUse);
            },
            AstName::Name(n) => {
                cmd_name = n;
            },
            AstName::Variable(_) => {
                return Err(ExecError::InvalidVariableCommandUse);
            },
        }
        let copt = self.registery.get_macro(cmd_name);
        match copt {
            None => Err(ExecError::CommandNotFound { time: AstTime::Macro, name: cmd_name.clone() }),
            Some(c) => c.execute(self, scp, scope, cmd),
        }
    }

    /// Executes a runtime command, returning its result value. Dispatching
    /// a command whose `time` is not runtime is a caller contract
    /// violation: the precondition excludes it, so a mismatched dispatch is
    /// rejected at verification time, before any lookup.
    pub fn execute_command(&self, scp: &mut Scope, scope: usize, cmd: &AstCommand) -> (r: Result<
        AstArgument,
        ExecError,
    >)
        requires
            self.wf(),
            old(scp).wf(),
            scope < old(scp).view_scope().len(),
            cmd.time == AstTime::Runtime,
        ensures
            final(scp).wf(),
            final(scp).view_scope().len() >= old(scp).view_scope().len(),
            match view_name(cmd.name) {
                SpecName::Placeholder => r == Err::<AstArgument, ExecError>(
                    ExecError::InvalidPlaceholderUse,
                ) && *final(scp) == *old(scp),
                SpecName::Variable(_) => r == Err::<AstArgument, ExecError>(
                    ExecError::InvalidVariableCommandUse,
                ) && *final(scp) == *old(scp),
                SpecName::Name(n) => !self.spec_registery().rt_view().contains_key(n) ==> {
                    &&& r matches Err(e)
                    &&& (e matches ExecError::CommandNotFound { time, name } && time
                        == AstTime::Runtime && name@ == n)
                    &&& *final(scp) == *old(scp)
                },
            },
    {
        let cmd_name: &String;
        match &cmd.name {
            AstName::Placeholder => {
                return Err(ExecError::InvalidPlaceholderUse);
            },
            AstName::Name(n) => {
                cmd_name = n;
            },
            AstName::Variable(_) => {
                return Err(ExecError::InvalidVariableCommandUse);
            },
        }
        let copt = self.registery.get_command(cmd_name);
        match copt {
            None => Err(
                ExecError::CommandNotFound { time: AstTime::Runtime, name: cmd_name.clone() },
            ),
            Some(c) => c.execute(self, scp, scope, cmd),
        }
    }

    /// Runs a sequence of commands as a worklist: each command is dispatched
    /// in the phase fixed by its own `time` tag, and the commands a macro
    /// returns are spliced in its place and processed in turn. At most
    /// `macro_limit` expansions are performed, so that self-referential
    /// macros end in `MacroExpansionLimitExceeded` instead of running
    /// forever. Runtime results are collected in order: an empty program
    /// succeeds with no results, a program of runtime commands that
    /// succeeds collects one result per command, and the structural name
    /// errors of the first command, like the expansion limit on a leading
    /// macro with no budget, come back as such. Executors decide all other
    /// outcomes.
    #[verifier::loop_isolation(false)]
    pub fn run(&mut self, scp: &mut Scope, scope: usize, commands: Vec<AstCommand>, macro_limit:
        usize) -> (r: Result<Vec<AstArgument>, ExecError>)
        requires
            old(self).wf(),
            old(scp).wf(),
            scope < old(scp).view_scope().len(),
        ensures
            final(self).wf(),
            final(scp).wf(),
            final(scp).view_scope().len() >= old(scp).view_scope().len(),
            commands@.len() == 0 ==> (r matches Ok(res) && res@.len() == 0),
            (forall|i: int|
                0 <= i < commands@.len() ==> (#[trigger] commands@[i]).time is Runtime) && (
            r matches Ok(res)) ==> (r matches Ok(res) && res@.len() == commands@.len()),
            commands@.len() > 0 && view_name(commands@[0].name) is Placeholder && (
            commands@[0].time is Macro ==> macro_limit > 0) ==> r == Err::<
                Vec<AstArgument>,
                ExecError,
            >(ExecError::InvalidPlaceholderUse),
            commands@.len() > 0 && view_name(commands@[0].name) is Variable && (
            commands@[0].time is Macro ==> macro_limit > 0) ==> r == Err::<
                Vec<AstArgument>,
                ExecError,
            >(ExecError::InvalidVariableCommandUse),
            commands@.len() > 0 && commands@[0].time is Macro && macro_limit == 0 ==> r == Err::<
                Vec<AstArgument>,
                ExecError,
            >(ExecError::MacroExpansionLimitExceeded),
    {
        let ghost all_rt: bool = forall|i: int|
            0 <= i < commands@.len() ==> (#[trigger] commands@[i]).time is Runtime;
        let ghost first_special: bool = commands@.len() > 0 && (view_name(commands@[0].name)
            is Placeholder || view_name(commands@[0].name) is Variable || (commands@[0].time
            is Macro && macro_limit == 0));
        let mut pending = commands;
        let mut stack: Vec<AstCommand> = Vec::new();
        loop
            invariant
                pending@.len() <= commands@.len(),
                pending@ == commands@.take(pending@.len() as int),
                stack@.len() + pending@.len() == commands@.len(),
                forall|j: int| 0 <= j < stack@.len() ==> #[trigger] stack@[j] == commands@[
                    commands@.len() - 1 - j],
            decreases pending.len(),
        {
            let ghost n = pending@.len();
            match pending.pop() {
                Some(c) => {
                    proof {
                        assert(c == commands@[n - 1]);
                        assert(pending@ =~= commands@.take(pending@.len() as int));
                    }
                    stack.push(c);
                },
                None => {
                    break ;
                },
            }
        }
        let mut budget = macro_limit;
        let mut results: Vec<AstArgument> = Vec::new();
        loop
            invariant
                self.wf(),
                scp.wf(),
                scope < scp.view_scope().len(),
                scp.view_scope().len() >= old(scp).view_scope().len(),
                all_rt ==> results@.len() + stack@.len() == commands@.len(),
                all_rt ==> forall|j: int| 0 <= j < stack@.len() ==> (#[trigger] stack@[j]).time
                    is Runtime,
                first_special ==> (stack@.len() == commands@.len() && stack@.len() > 0 && stack@[
                    stack@.len() - 1] == commands@[0] && budget == macro_limit && results@.len()
                    == 0),
            decreases budget, stack.len(),
        {
            let ghost pre_stack = stack@;
            let cmd = match stack.pop() {
                Some(c) => c,
                None => {
                    proof {
                        if commands@.len() == 0 {
                            assert(all_rt);
                        }
                    }
                    return Ok(results);
                },
            };
            proof {
                assert(cmd == pre_stack.last());
                if first_special {
                    assert(cmd == commands@[0]);
                }
                if all_rt {
                    assert(cmd.time is Runtime);
                }
            }
            match cmd.time {
                AstTime::CompileTime => {
                    proof {
                        assert(!all_rt);
                    }
                    if let Some(e) = self.execute_ct_command(scp, scope, &cmd) {
                        return Err(e);
                    }
                    proof {
                        assert(!first_special);
                    }
                },
                AstTime::Macro => {
                    proof {
                        assert(!all_rt);
                    }
                    if budget == 0 {
                        return Err(ExecError::MacroExpansionLimitExceeded);
                    }
                    budget = budget - 1;
                    match self.execute_macro(scp, scope, &cmd) {
                        Ok(mut repl) => {
                            proof {
                                assert(!first_special) by {
                                    if first_special {
                                        assert(cmd == commands@[0]);
                                    }
                                }
                            }
                            loop
                                invariant
                                    self.wf(),
                                    scp.wf(),
                                    scope < scp.view_scope().len(),
                                    scp.view_scope().len() >= old(scp).view_scope().len(),
                                decreases repl.len(),
                            {
                                match repl.pop() {
                                    Some(c) => {
                                        stack.push(c);
                                    },
                                    None => {
                                        break ;
                                    },
                                }
                            }
                        },
                        Err(e) => {
                            return Err(e);
                        },
                    }
                },
                AstTime::Runtime => {
                    match self.execute_command(scp, scope, &cmd) {
                        Ok(v) => {
                            proof {
                                assert(!first_special) by {
                                    if first_special {
                                        assert(cmd == commands@[0]);
                                    }
                                }
                            }
                            results.push(v);
                        },
                        Err(e) => {
                            return Err(e);
                        },
                    }
                },
            }
        }
    }
}

} // verus!
