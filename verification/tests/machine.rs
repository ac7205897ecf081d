use std::cell::RefCell;
use std::rc::Rc;

use neoshell::ast::{AstArgument, AstCommand, AstName, AstTime};
use neoshell::command::{CompileTimeCommand, MacroCommand, RuntimeCommand};
use neoshell::error::ExecError;
use neoshell::parser::parse_file;
use neoshell::scope::Scope;
use neoshell::variable::Variable;
use neoshell::vm::VM;

/// A compile time executor that counts its invocations.
struct CountingCt {
    hits: Rc<RefCell<u32>>,
}

impl CompileTimeCommand<Expander, Greet> for CountingCt {
    fn execute(
        &mut self,
        _vm: &mut VM<CountingCt, Expander, Greet>,
        _scp: &mut Scope,
        _scope: usize,
        _cmd: &AstCommand,
    ) -> Option<ExecError> {
        *self.hits.borrow_mut() += 1;
        None
    }
}

/// A macro executor that expands to the commands of a fixed source text.
struct Expander {
    replacement: String,
}

impl MacroCommand<CountingCt, Greet> for Expander {
    fn execute(
        &self,
        _vm: &VM<CountingCt, Expander, Greet>,
        _scp: &mut Scope,
        _scope: usize,
        _cmd: &AstCommand,
    ) -> Result<Vec<AstCommand>, ExecError> {
        parse_file(&self.replacement)
            .map_err(|_| ExecError::Custom("bad replacement".to_string()))
    }
}

/// A runtime executor that records every argument it is invoked with.
struct Greet {
    seen: Rc<RefCell<Vec<String>>>,
}

impl RuntimeCommand<CountingCt, Expander> for Greet {
    fn execute(
        &self,
        _vm: &VM<CountingCt, Expander, Greet>,
        _scp: &mut Scope,
        _scope: usize,
        cmd: &AstCommand,
    ) -> Result<AstArgument, ExecError> {
        assert_eq!(cmd.arguments.len(), 1);
        match &cmd.arguments[0] {
            AstArgument::String(s) => {
                self.seen.borrow_mut().push(s.clone());
                Ok(AstArgument::Nothing)
            }
            _ => Err(ExecError::Custom("expected a string".to_string())),
        }
    }
}

type TestVm = VM<CountingCt, Expander, Greet>;

#[test]
fn greet_end_to_end() {
    // `greet "Alice";` parsed and executed invokes the registered runtime
    // executor exactly once, with exactly that string argument.
    let ast = parse_file("greet \"Alice\";").expect("must parse");
    assert_eq!(ast.len(), 1);
    let seen = Rc::new(RefCell::new(Vec::new()));
    let mut vm: TestVm = VM::new();
    vm.get_registery_mut().register(&"greet".to_string(), Greet { seen: seen.clone() });
    let mut scp = Scope::new();
    for c in &ast {
        vm.execute_command(&mut scp, 0, c).expect("must execute");
    }
    assert_eq!(*seen.borrow(), vec!["Alice".to_string()]);
}

#[test]
fn runtime_dispatch_errors() {
    let mut scp = Scope::new();
    let vm: TestVm = VM::new();
    // An unregistered name is reported, recoverably, with the name.
    let cmd = AstCommand {
        time: AstTime::Runtime,
        name: AstName::Name("missing".to_string()),
        arguments: vec![],
    };
    match vm.execute_command(&mut scp, 0, &cmd) {
        Err(ExecError::CommandNotFound { time, name }) => {
            assert!(time == AstTime::Runtime);
            assert_eq!(name, "missing");
        }
        _ => panic!("expected a command-not-found error"),
    }
    // A placeholder name cannot be executed.
    let cmd = AstCommand {
        time: AstTime::Runtime,
        name: AstName::Placeholder,
        arguments: vec![],
    };
    assert!(matches!(
        vm.execute_command(&mut scp, 0, &cmd),
        Err(ExecError::InvalidPlaceholderUse)
    ));
    // A variable name is a declared but unsupported capability.
    let cmd = AstCommand {
        time: AstTime::Runtime,
        name: AstName::Variable("v".to_string()),
        arguments: vec![],
    };
    assert!(matches!(
        vm.execute_command(&mut scp, 0, &cmd),
        Err(ExecError::InvalidVariableCommandUse)
    ));
}

#[test]
fn compile_time_take_and_restore() {
    // A compile time executor is taken out of the registery while it runs
    // and put back afterwards: a second dispatch finds it again.
    let hits = Rc::new(RefCell::new(0));
    let mut vm: TestVm = VM::new();
    vm.get_registery_mut().register_ct(&"setup".to_string(), CountingCt { hits: hits.clone() });
    let mut scp = Scope::new();
    let cmd = AstCommand {
        time: AstTime::CompileTime,
        name: AstName::Name("setup".to_string()),
        arguments: vec![],
    };
    assert!(vm.execute_ct_command(&mut scp, 0, &cmd).is_none());
    assert!(vm.execute_ct_command(&mut scp, 0, &cmd).is_none());
    assert_eq!(*hits.borrow(), 2);
}

#[test]
fn run_splices_macro_replacements() {
    // A macro's replacement commands are executed in place of the macro
    // node, in order, in the phase their own tags pick.
    let seen = Rc::new(RefCell::new(Vec::new()));
    let mut vm: TestVm = VM::new();
    vm.get_registery_mut().register(&"greet".to_string(), Greet { seen: seen.clone() });
    vm.get_registery_mut().register_macro(
        &"twice".to_string(),
        Expander { replacement: "greet \"a\";greet \"b\";".to_string() },
    );
    let mut scp = Scope::new();
    let ast = parse_file("greet \"x\";twice!;greet \"y\";").expect("must parse");
    let results = vm.run(&mut scp, 0, ast, 8).expect("must run");
    assert_eq!(results.len(), 4);
    assert_eq!(
        *seen.borrow(),
        vec!["x".to_string(), "a".to_string(), "b".to_string(), "y".to_string()]
    );
}

#[test]
fn run_empty_program_succeeds() {
    let mut vm: TestVm = VM::new();
    let mut scp = Scope::new();
    let results = vm.run(&mut scp, 0, Vec::new(), 4).expect("must succeed");
    assert_eq!(results.len(), 0);
}

#[test]
fn run_collects_one_result_per_runtime_command() {
    let seen = Rc::new(RefCell::new(Vec::new()));
    let mut vm: TestVm = VM::new();
    vm.get_registery_mut().register(&"greet".to_string(), Greet { seen: seen.clone() });
    let mut scp = Scope::new();
    let ast = parse_file("greet \"a\";greet \"b\";greet \"c\";").expect("must parse");
    let results = vm.run(&mut scp, 0, ast, 0).expect("must run");
    assert_eq!(results.len(), 3);
}

#[test]
fn run_zero_budget_rejects_leading_macro() {
    let mut vm: TestVm = VM::new();
    vm.get_registery_mut().register_macro(
        &"m".to_string(),
        Expander { replacement: "greet \"a\";".to_string() },
    );
    let mut scp = Scope::new();
    let ast = parse_file("m!;").expect("must parse");
    match vm.run(&mut scp, 0, ast, 0) {
        Err(ExecError::MacroExpansionLimitExceeded) => {}
        _ => panic!("expected the expansion limit error"),
    }
}

#[test]
fn run_rejects_leading_placeholder() {
    let mut vm: TestVm = VM::new();
    let mut scp = Scope::new();
    let ast = parse_file("~;").expect("must parse");
    match vm.run(&mut scp, 0, ast, 4) {
        Err(ExecError::InvalidPlaceholderUse) => {}
        _ => panic!("expected the placeholder error"),
    }
}

#[test]
fn run_bounds_macro_expansion() {
    // A macro that expands to itself ends in the expansion-limit error
    // instead of running forever.
    let mut vm: TestVm = VM::new();
    vm.get_registery_mut().register_macro(
        &"forever".to_string(),
        Expander { replacement: "forever!;".to_string() },
    );
    let mut scp = Scope::new();
    let ast = parse_file("forever!;").expect("must parse");
    match vm.run(&mut scp, 0, ast, 16) {
        Err(ExecError::MacroExpansionLimitExceeded) => {}
        _ => panic!("expected the expansion limit to be hit"),
    }
}

#[test]
fn scope_parent_visible_from_child() {
    // A variable declared in a parent scope is visible from a child scope
    // when the child declares no shadowing name.
    let mut scp = Scope::new();
    scp.set_variable(0, "x".to_string(), Variable::Value(AstArgument::Integer(7)));
    let child = scp.extends(0);
    let v = scp.get_variable(child, &"x".to_string()).expect("must be visible");
    assert_eq!(*v.get_integer().expect("must be an integer"), 7);
}

#[test]
fn scope_shadowing_wins() {
    let mut scp = Scope::new();
    scp.set_variable(0, "x".to_string(), Variable::Value(AstArgument::Integer(1)));
    let child = scp.extends(0);
    scp.set_variable(child, "x".to_string(), Variable::Value(AstArgument::Integer(2)));
    let v = scp.get_variable(child, &"x".to_string()).expect("must be visible");
    assert_eq!(*v.get_integer().expect("must be an integer"), 2);
    // The parent still sees its own binding.
    let v = scp.get_variable(0, &"x".to_string()).expect("must be visible");
    assert_eq!(*v.get_integer().expect("must be an integer"), 1);
}

#[test]
fn scope_grandparent_lookup_and_mutation() {
    let mut scp = Scope::new();
    scp.set_variable(0, "x".to_string(), Variable::Value(AstArgument::Integer(1)));
    let mid = scp.extends(0);
    let leaf = scp.extends(mid);
    // Lookup walks to the root.
    assert!(scp.get_variable(leaf, &"x".to_string()).is_some());
    assert!(scp.get_variable(leaf, &"y".to_string()).is_none());
    // Mutation through a child updates the binding where it lives.
    if let Some(v) = scp.get_variable_mut(leaf, &"x".to_string()) {
        if let Some(i) = v.get_integer_mut() {
            *i = 9;
        }
    }
    let v = scp.get_variable(0, &"x".to_string()).expect("must be visible");
    assert_eq!(*v.get_integer().expect("must be an integer"), 9);
}

#[test]
fn variable_accessors_match_their_kind() {
    let v = Variable::Value(AstArgument::Integer(5));
    assert_eq!(*v.get_integer().unwrap(), 5);
    assert!(v.get_string().is_none());
    assert!(v.get_name().is_none());
    assert!(v.get_float().is_none());
    assert!(v.get_switch().is_none());
    assert!(v.get_block().is_none());
    let v = Variable::Value(AstArgument::String("s".to_string()));
    assert_eq!(v.get_string().unwrap(), "s");
    assert!(v.get_integer().is_none());
    let v = Variable::Command();
    assert!(v.get_integer().is_none());
    let mut v = Variable::Value(AstArgument::String("s".to_string()));
    if let Some(s) = v.get_string_mut() {
        s.push('!');
    }
    assert_eq!(v.get_string().unwrap(), "s!");
}

#[test]
fn error_descriptions_name_the_kind() {
    let e = ExecError::CommandNotFound { time: AstTime::Runtime, name: "x".to_string() };
    assert_eq!(e.describe(), "command not found");
    assert_eq!(ExecError::InvalidPlaceholderUse.describe(), "placeholder commands cannot be executed");
    assert_eq!(ExecError::MacroExpansionLimitExceeded.describe(), "macro expansion limit exceeded");
}

#[test]
fn extract_name_returns_the_identifier() {
    let n = neoshell::ast::extract_name(AstName::Name("cmd".to_string()));
    assert_eq!(n, "cmd");
}
