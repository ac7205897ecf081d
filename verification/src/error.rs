//! Errors raised while executing commands.

use vstd::prelude::*;
use crate::ast::AstTime;

verus! {

/// An error raised while dispatching or executing a command.
#[derive(Debug)]
pub enum ExecError {
    /// No executor is registered under this name for the requested phase.
    CommandNotFound {
        /// The phase in which the name was looked up.
        time: AstTime,
        /// The name that was not found.
        name: String,
    },
    /// A placeholder name (`~`) reached execution.
    InvalidPlaceholderUse,
    /// A variable name was used where an executable command name is required;
    /// instantiated commands are a declared but unsupported capability.
    InvalidVariableCommandUse,
    /// Macro expansion did not settle within the allowed number of expansions.
    MacroExpansionLimitExceeded,
    /// A failure reported by a command executor itself.
    Custom(String),
}

impl ExecError {
    /// A short description of the error kind, for hosts that report failures.
    pub fn describe(&self) -> (r: &'static str)
        ensures
            (*self matches ExecError::CommandNotFound { .. }) ==> r@ == "command not found"@,
            *self is InvalidPlaceholderUse ==> r@ == "placeholder commands cannot be executed"@,
            *self is InvalidVariableCommandUse ==> r@ == "variables cannot be used as commands"@,
            *self is MacroExpansionLimitExceeded ==> r@ == "macro expansion limit exceeded"@,
            (*self matches ExecError::Custom(_)) ==> r@ == "command failed"@,
    {
        match self {
            ExecError::CommandNotFound { .. } => "command not found",
            ExecError::InvalidPlaceholderUse => "placeholder commands cannot be executed",
            ExecError::InvalidVariableCommandUse => "variables cannot be used as commands",
            ExecError::MacroExpansionLimitExceeded => "macro expansion limit exceeded",
            ExecError::Custom(_) => "command failed",
        }
    }
}

} // verus!
