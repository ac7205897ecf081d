//! Switch usage policies: each policy maps the switch shapes it accepts
//! (on, off, option) to a resolved value, and rejects every other shape
//! with an invalid-usage error naming the switch.

use vstd::prelude::*;
use crate::ast::{AstSwitch, SpecSwitch, view_switch};

verus! {

/// Errors related to switch usages.
#[derive(Debug)]
pub enum SwitchUsageError {
    /// Invalid usage of a switch: its shape is not among the shapes the
    /// consuming policy accepts.
    InvalidUsage {
        /// The switch's name.
        name: String,
        /// Why the shape was rejected.
        msg: String,
    },
}

impl SwitchUsageError {
    /// Builds an invalid-usage error for the switch named `n`.
    pub fn new_invalid_usage(n: String, m: &'static str) -> (r: SwitchUsageError)
        ensures
            r matches SwitchUsageError::InvalidUsage { name, msg } && name@ == n@ && msg@ == m@,
    {
        SwitchUsageError::InvalidUsage { name: n, msg: String::from_str(m) }
    }
}

/// Switch usage trait: defines how a switch behaves. A policy accepts a
/// set of switch shapes; `collect` resolves an accepted occurrence to its
/// value and rejects every other shape.
pub trait SwitchUsage<T> {
    /// Which switch shapes this policy accepts.
    spec fn accepts(&self, w: SpecSwitch) -> bool;

    /// The value an accepted shape resolves to.
    spec fn resolved(&self, w: SpecSwitch) -> T;

    /// The value before any switch occurrence is seen.
    spec fn initial_spec(&self) -> T;

    /// The value before any switch occurrence is seen.
    fn initial_value(&self) -> (r: &T)
        ensures
            *r == self.initial_spec(),
    ;

    /// Collects one switch occurrence: the resolved value if the shape is
    /// accepted, and an invalid-usage error naming the switch otherwise.
    fn collect(&self, name: &String, sw: &AstSwitch) -> (r: Result<&T, SwitchUsageError>)
        ensures
            match r {
                Ok(v) => self.accepts(view_switch(*sw)) && *v == self.resolved(view_switch(*sw)),
                Err(e) => !self.accepts(view_switch(*sw)) && (e matches SwitchUsageError::InvalidUsage {
                    name: n2,
                    ..
                } && n2@ == name@),
            },
    ;
}

/// Switch that enables something. Only supports the on shape: `+name`.
pub struct EnablingSwitch<T> {
    initial: T,
    enabled: T,
}

impl<T> EnablingSwitch<T> {
    /// Builds the policy from its initial and its enabled value.
    pub fn new(initial: T, enabled: T) -> (r: EnablingSwitch<T>)
        ensures
            r.initial_spec() == initial,
            forall|w: SpecSwitch| r.accepts(w) <==> w is On,
            forall|w: SpecSwitch| #[trigger] r.resolved(w) == enabled,
    {
        EnablingSwitch { initial, enabled }
    }
}

impl<T> SwitchUsage<T> for EnablingSwitch<T> {
    closed spec fn accepts(&self, w: SpecSwitch) -> bool {
        w is On
    }

    closed spec fn resolved(&self, w: SpecSwitch) -> T {
        self.enabled
    }

    closed spec fn initial_spec(&self) -> T {
        self.initial
    }

    fn initial_value(&self) -> (r: &T) {
        &self.initial
    }

    fn collect(&self, name: &String, sw: &AstSwitch) -> (r: Result<&T, SwitchUsageError>) {
        match sw {
            AstSwitch::On(_) => Ok(&self.enabled),
            _ => Err(
                SwitchUsageError::new_invalid_usage(
                    name.clone(),
                    "this switch only accepts the on shape (+switch-name)",
                ),
            ),
        }
    }
}

/// Switch that disables something. Only supports the off shape: `-name`.
pub struct DisablingSwitch<T> {
    initial: T,
    disabled: T,
}

impl<T> DisablingSwitch<T> {
    /// Builds the policy from its initial and its disabled value.
    pub fn new(initial: T, disabled: T) -> (r: DisablingSwitch<T>)
        ensures
            r.initial_spec() == initial,
            forall|w: SpecSwitch| r.accepts(w) <==> w is Off,
            forall|w: SpecSwitch| #[trigger] r.resolved(w) == disabled,
    {
        DisablingSwitch { initial, disabled }
    }
}

impl<T> SwitchUsage<T> for DisablingSwitch<T> {
    closed spec fn accepts(&self, w: SpecSwitch) -> bool {
        w is Off
    }

    closed spec fn resolved(&self, w: SpecSwitch) -> T {
        self.disabled
    }

    closed spec fn initial_spec(&self) -> T {
        self.initial
    }

    fn initial_value(&self) -> (r: &T) {
        &self.initial
    }

    fn collect(&self, name: &String, sw: &AstSwitch) -> (r: Result<&T, SwitchUsageError>) {
        match sw {
            AstSwitch::Off(_) => Ok(&self.disabled),
            _ => Err(
                SwitchUsageError::new_invalid_usage(
                    name.clone(),
                    "this switch only accepts the off shape (-switch-name)",
                ),
            ),
        }
    }
}

/// Switch that can take three values. Supports the on and off shapes.
pub struct TernarySwitch<T> {
    initial: T,
    enabled: T,
    disabled: T,
}

impl<T> TernarySwitch<T> {
    /// Builds the policy from its initial, enabled and disabled values.
    pub fn new(initial: T, enabled: T, disabled: T) -> (r: TernarySwitch<T>)
        ensures
            r.initial_spec() == initial,
            forall|w: SpecSwitch| r.accepts(w) <==> !(w is Option),
            forall|w: SpecSwitch| w is On ==> #[trigger] r.resolved(w) == enabled,
            forall|w: SpecSwitch| w is Off ==> #[trigger] r.resolved(w) == disabled,
    {
        TernarySwitch { initial, enabled, disabled }
    }
}

impl<T> SwitchUsage<T> for TernarySwitch<T> {
    closed spec fn accepts(&self, w: SpecSwitch) -> bool {
        !(w is Option)
    }

    closed spec fn resolved(&self, w: SpecSwitch) -> T {
        match w {
            SpecSwitch::On(_) => self.enabled,
            SpecSwitch::Off(_) => self.disabled,
            SpecSwitch::Option(_, _) => self.initial,
        }
    }

    closed spec fn initial_spec(&self) -> T {
        self.initial
    }

    fn initial_value(&self) -> (r: &T) {
        &self.initial
    }

    fn collect(&self, name: &String, sw: &AstSwitch) -> (r: Result<&T, SwitchUsageError>) {
        match sw {
            AstSwitch::On(_) => Ok(&self.enabled),
            AstSwitch::Off(_) => Ok(&self.disabled),
            _ => Err(
                SwitchUsageError::new_invalid_usage(
                    name.clone(),
                    "this switch only accepts the on or off shapes (+switch-name, -switch-name)",
                ),
            ),
        }
    }
}

/// Switch that resolves an option shape to one of a fixed set of values; a
/// declared capability whose behaviour is not yet defined, kept as data.
pub struct ChoiceOptionSwitch<T> {
    /// The value before any switch occurrence is seen.
    pub initial: T,
    /// The values the option may choose among.
    pub values: Vec<T>,
}

/// Switch that resolves repeated option shapes to several of a fixed set
/// of values; a declared capability whose behaviour is not yet defined,
/// kept as data.
pub struct MultiChoiceOptionSwitch<T> {
    /// The value before any switch occurrence is seen.
    pub initial: T,
    /// The values the option may choose among.
    pub values: Vec<T>,
}

} // verus!
