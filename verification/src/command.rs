//! The three executor capabilities that built-in commands implement, one
//! per execution phase. The machine is generic over one executor type per
//! phase (a host with several commands of one phase dispatches inside its
//! own executor type). The core only dispatches to executors; their
//! behaviour belongs to the host, which is why they promise nothing beyond
//! keeping the machine and the scope arena well formed.

use vstd::prelude::*;
use crate::ast::{AstArgument, AstCommand};
use crate::error::ExecError;
use crate::scope::Scope;
use crate::vm::VM;

verus! {

/// Compile time command executor.
pub trait CompileTimeCommand<M, R>: Sized {
    /// Executes the command; `None` means success. The executor may mutate
    /// the machine, including the registery it was itself taken from.
    fn execute(&mut self, vm: &mut VM<Self, M, R>, scp: &mut Scope, scope: usize, cmd:
        &AstCommand) -> (r: Option<ExecError>)
        requires
            old(vm).wf(),
            old(scp).wf(),
            scope < old(scp).view_scope().len(),
        ensures
            final(vm).wf(),
            final(scp).wf(),
            final(scp).view_scope().len() >= old(scp).view_scope().len(),
    ;
}

/// Macro command executor.
pub trait MacroCommand<C, R>: Sized {
    /// Executes the command, returning the commands to splice in its place.
    fn execute(&self, vm: &VM<C, Self, R>, scp: &mut Scope, scope: usize, cmd: &AstCommand) -> (r:
        Result<Vec<AstCommand>, ExecError>)
        requires
            vm.wf(),
            old(scp).wf(),
            scope < old(scp).view_scope().len(),
        ensures
            final(scp).wf(),
            final(scp).view_scope().len() >= old(scp).view_scope().len(),
    ;
}

/// Runtime command executor.
pub trait RuntimeCommand<C, M>: Sized {
    /// Executes the command, returning its result value.
    fn execute(&self, vm: &VM<C, M, Self>, scp: &mut Scope, scope: usize, cmd: &AstCommand) -> (r:
        Result<AstArgument, ExecError>)
        requires
            vm.wf(),
            old(scp).wf(),
            scope < old(scp).view_scope().len(),
        ensures
            final(scp).wf(),
            final(scp).view_scope().len() >= old(scp).view_scope().len(),
    ;
}

} // verus!
