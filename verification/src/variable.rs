//! Variables stored in a scope: either a plain value or an instantiated
//! command (a declared but not yet defined capability).

use vstd::prelude::*;
use crate::ast::{
    AstArgument, AstBlock, AstFloat, AstName, AstSwitch, SpecArgument, SpecName, view_arg,
    view_block, view_name, view_switch,
};

verus! {

/// A variable.
pub enum Variable {
    /// The variable is a value.
    Value(AstArgument),
    /// The variable is an instantiated command.
    Command(),
}

/// Model of [`Variable`].
pub enum SpecVariable {
    /// The variable is a value.
    Value(SpecArgument),
    /// The variable is an instantiated command.
    Command,
}

/// Model of a variable.
pub open spec fn view_var(v: Variable) -> SpecVariable {
    match v {
        Variable::Value(a) => SpecVariable::Value(view_arg(a)),
        Variable::Command() => SpecVariable::Command,
    }
}

impl Variable {
    /// Gets the variable as a name.
    pub fn get_name(&self) -> (r: Option<&AstName>)
        ensures
            match r {
                Some(n) => view_var(*self) == SpecVariable::Value(
                    SpecArgument::Name(view_name(*n)),
                ),
                None => !(view_var(*self) matches SpecVariable::Value(SpecArgument::Name(_))),
            },
    {
        if let Variable::Value(v) = self {
            if let AstArgument::Name(n) = v {
                return Some(n);
            }
        }
        None
    }

    /// Gets the variable as an integer.
    pub fn get_integer(&self) -> (r: Option<&i32>)
        ensures
            match r {
                Some(i) => view_var(*self) == SpecVariable::Value(SpecArgument::Integer(*i)),
                None => !(view_var(*self) matches SpecVariable::Value(SpecArgument::Integer(_))),
            },
    {
        if let Variable::Value(v) = self {
            if let AstArgument::Integer(i) = v {
                return Some(i);
            }
        }
        None
    }

    /// Gets the variable as a float literal.
    pub fn get_float(&self) -> (r: Option<&AstFloat>)
        ensures
            match r {
                Some(f) => view_var(*self) == SpecVariable::Value(
                    SpecArgument::Float(f.integral@, f.fractional@),
                ),
                None => !(view_var(*self) matches SpecVariable::Value(SpecArgument::Float(_, _))),
            },
    {
        if let Variable::Value(v) = self {
            if let AstArgument::Float(f) = v {
                return Some(f);
            }
        }
        None
    }

    /// Gets the variable as a string.
    pub fn get_string(&self) -> (r: Option<&String>)
        ensures
            match r {
                Some(s) => view_var(*self) == SpecVariable::Value(SpecArgument::String(s@)),
                None => !(view_var(*self) matches SpecVariable::Value(SpecArgument::String(_))),
            },
    {
        if let Variable::Value(v) = self {
            if let AstArgument::String(s) = v {
                return Some(s);
            }
        }
        None
    }

    /// Gets the variable as a switch.
    pub fn get_switch(&self) -> (r: Option<&AstSwitch>)
        ensures
            match r {
                Some(w) => view_var(*self) == SpecVariable::Value(
                    SpecArgument::Switch(view_switch(*w)),
                ),
                None => !(view_var(*self) matches SpecVariable::Value(SpecArgument::Switch(_))),
            },
    {
        if let Variable::Value(v) = self {
            if let AstArgument::Switch(s) = v {
                return Some(s);
            }
        }
        None
    }

    /// Gets the variable as a block.
    pub fn get_block(&self) -> (r: Option<&AstBlock>)
        ensures
            match r {
                Some(b) => view_var(*self) == SpecVariable::Value(
                    SpecArgument::Block(view_block(*b)),
                ),
                None => !(view_var(*self) matches SpecVariable::Value(SpecArgument::Block(_))),
            },
    {
        if let Variable::Value(v) = self {
            if let AstArgument::Block(b) = v {
                return Some(b);
            }
        }
        None
    }

    /// Gets the variable as a mutable name.
    pub fn get_name_mut(&mut self) -> (r: Option<&mut AstName>)
        ensures
            match r {
                Some(n) => {
                    &&& view_var(*old(self)) == SpecVariable::Value(SpecArgument::Name(view_name(*n)))
                    &&& view_var(*final(self)) == SpecVariable::Value(
                        SpecArgument::Name(view_name(*final(n))),
                    )
                },
                None => {
                    &&& !(view_var(*old(self)) matches SpecVariable::Value(SpecArgument::Name(_)))
                    &&& *final(self) == *old(self)
                },
            },
    {
        if let Variable::Value(v) = self {
            if let AstArgument::Name(n) = v {
                return Some(n);
            }
        }
        None
    }

    /// Gets the variable as a mutable float literal.
    pub fn get_float_mut(&mut self) -> (r: Option<&mut AstFloat>)
        ensures
            match r {
                Some(f) => {
                    &&& view_var(*old(self)) == SpecVariable::Value(
                        SpecArgument::Float(f.integral@, f.fractional@),
                    )
                    &&& view_var(*final(self)) == SpecVariable::Value(
                        SpecArgument::Float(final(f).integral@, final(f).fractional@),
                    )
                },
                None => {
                    &&& !(view_var(*old(self)) matches SpecVariable::Value(
                        SpecArgument::Float(_, _),
                    ))
                    &&& *final(self) == *old(self)
                },
            },
    {
        if let Variable::Value(v) = self {
            if let AstArgument::Float(f) = v {
                return Some(f);
            }
        }
        None
    }

    /// Gets the variable as a mutable switch.
    pub fn get_switch_mut(&mut self) -> (r: Option<&mut AstSwitch>)
        ensures
            match r {
                Some(w) => {
                    &&& view_var(*old(self)) == SpecVariable::Value(
                        SpecArgument::Switch(view_switch(*w)),
                    )
                    &&& view_var(*final(self)) == SpecVariable::Value(
                        SpecArgument::Switch(view_switch(*final(w))),
                    )
                },
                None => {
                    &&& !(view_var(*old(self)) matches SpecVariable::Value(SpecArgument::Switch(_)))
                    &&& *final(self) == *old(self)
                },
            },
    {
        if let Variable::Value(v) = self {
            if let AstArgument::Switch(w) = v {
                return Some(w);
            }
        }
        None
    }

    /// Gets the variable as a mutable block.
    pub fn get_block_mut(&mut self) -> (r: Option<&mut AstBlock>)
        ensures
            match r {
                Some(b) => {
                    &&& view_var(*old(self)) == SpecVariable::Value(
                        SpecArgument::Block(view_block(*b)),
                    )
                    &&& view_var(*final(self)) == SpecVariable::Value(
                        SpecArgument::Block(view_block(*final(b))),
                    )
                },
                None => {
                    &&& !(view_var(*old(self)) matches SpecVariable::Value(SpecArgument::Block(_)))
                    &&& *final(self) == *old(self)
                },
            },
    {
        if let Variable::Value(v) = self {
            if let AstArgument::Block(b) = v {
                return Some(b);
            }
        }
        None
    }

    /// Gets the variable as a mutable integer.
    pub fn get_integer_mut(&mut self) -> (r: Option<&mut i32>)
        ensures
            match r {
                Some(i) => {
                    &&& view_var(*old(self)) == SpecVariable::Value(SpecArgument::Integer(*i))
                    &&& view_var(*final(self)) == SpecVariable::Value(
                        SpecArgument::Integer(*final(i)),
                    )
                },
                None => {
                    &&& !(view_var(*old(self)) matches SpecVariable::Value(
                        SpecArgument::Integer(_),
                    ))
                    &&& *final(self) == *old(self)
                },
            },
    {
        if let Variable::Value(v) = self {
            if let AstArgument::Integer(i) = v {
                return Some(i);
            }
        }
        None
    }

    /// Gets the variable as a mutable string.
    pub fn get_string_mut(&mut self) -> (r: Option<&mut String>)
        ensures
            match r {
                Some(s) => {
                    &&& view_var(*old(self)) == SpecVariable::Value(SpecArgument::String(s@))
                    &&& view_var(*final(self)) == SpecVariable::Value(
                        SpecArgument::String(final(s)@),
                    )
                },
                None => {
                    &&& !(view_var(*old(self)) matches SpecVariable::Value(
                        SpecArgument::String(_),
                    ))
                    &&& *final(self) == *old(self)
                },
            },
    {
        if let Variable::Value(v) = self {
            if let AstArgument::String(s) = v {
                return Some(s);
            }
        }
        None
    }
}

} // verus!
