use neoshell::ast::{AstArgument, AstBlock, AstCommand, AstFloat, AstName, AstSwitch, AstTime};
use neoshell::argument_collector::ArgumentCollector;
use neoshell::parser::parse_file;
use neoshell::switch_usage::{
    DisablingSwitch, EnablingSwitch, SwitchUsage, SwitchUsageError, TernarySwitch,
};
use neoshell::writer::write_file;

fn name(s: &str) -> AstName {
    AstName::Name(s.to_string())
}

#[test]
fn parse_greet_example() {
    // Source `greet "Alice";` gives one runtime command with one string
    // argument.
    let ast = parse_file("greet \"Alice\";").expect("must parse");
    assert_eq!(ast.len(), 1);
    let cmd = &ast[0];
    assert!(cmd.time == AstTime::Runtime);
    assert!(matches!(&cmd.name, AstName::Name(n) if n.as_str() == "greet"));
    assert_eq!(cmd.arguments.len(), 1);
    assert!(matches!(&cmd.arguments[0], AstArgument::String(s) if s.as_str() == "Alice"));
}

#[test]
fn parse_counts_statements() {
    let ast = parse_file("a; b 1; c 2.5 +x;").expect("must parse");
    assert_eq!(ast.len(), 3);
    let ast = parse_file("one;").expect("must parse");
    assert_eq!(ast.len(), 1);
}

#[test]
fn parse_time_markers() {
    let ast = parse_file("!setup; expand! 1; run;").expect("must parse");
    assert!(ast[0].time == AstTime::CompileTime);
    assert!(ast[1].time == AstTime::Macro);
    assert!(ast[2].time == AstTime::Runtime);
}

#[test]
fn parse_arguments_of_every_kind() {
    let ast = parse_file("cmd ~ $v $0 word 12 3.25 \"s\" +on -off /opt 7 {in;} &{in;};")
        .expect("must parse");
    let args = &ast[0].arguments;
    assert_eq!(args.len(), 12);
    assert!(matches!(&args[0], AstArgument::Name(AstName::Placeholder)));
    assert!(matches!(&args[1], AstArgument::Name(AstName::Variable(v)) if v.as_str() == "v"));
    assert!(matches!(&args[2], AstArgument::Name(AstName::Variable(v)) if v.as_str() == "0"));
    assert!(matches!(&args[3], AstArgument::Name(AstName::Name(n)) if n.as_str() == "word"));
    assert!(matches!(&args[4], AstArgument::Integer(12)));
    assert!(
        matches!(&args[5], AstArgument::Float(f) if f.integral == "3" && f.fractional == "25")
    );
    assert!(matches!(&args[6], AstArgument::String(s) if s.as_str() == "s"));
    assert!(matches!(&args[7], AstArgument::Switch(AstSwitch::On(n)) if n.as_str() == "on"));
    assert!(matches!(&args[8], AstArgument::Switch(AstSwitch::Off(n)) if n.as_str() == "off"));
    match &args[9] {
        AstArgument::Switch(AstSwitch::Option(n, v)) => {
            assert_eq!(n, "opt");
            assert!(matches!(&**v, AstArgument::Integer(7)));
        }
        _ => panic!("expected an option switch"),
    }
    match &args[10] {
        AstArgument::Block(AstBlock::Evaluated(cs)) => assert_eq!(cs.len(), 1),
        _ => panic!("expected an evaluated block"),
    }
    match &args[11] {
        AstArgument::Block(AstBlock::Argument(cs)) => assert_eq!(cs.len(), 1),
        _ => panic!("expected an argument block"),
    }
}

#[test]
fn parse_namespaced_identifier() {
    let ast = parse_file("io::print \"x\";").expect("must parse");
    assert!(matches!(&ast[0].name, AstName::Name(n) if n.as_str() == "io::print"));
}

#[test]
fn parse_whitespace_and_comments() {
    let ast = parse_file("  a 1 ; # trailing comment\n\t b ;\n").expect("must parse");
    assert_eq!(ast.len(), 2);
}

#[test]
fn parse_string_escapes() {
    let ast = parse_file("say \"a\\tb\\nc\\rd\\se\\\"f\";").expect("must parse");
    assert!(
        matches!(&ast[0].arguments[0], AstArgument::String(s) if s.as_str() == "a\tb\nc\rd e\"f")
    );
}

#[test]
fn parse_rejects_bad_sources() {
    // No command at all.
    assert!(parse_file("").is_err());
    assert!(parse_file("   # only a comment\n").is_err());
    // Missing terminator.
    assert!(parse_file("greet \"Alice\"").is_err());
    // Trailing garbage after the last command.
    assert!(parse_file("a; %").is_err());
    // A comment must end in a newline before the input may end mid-command.
    assert!(parse_file("a # no newline ;").is_err());
    // An unterminated string.
    assert!(parse_file("a \"open;").is_err());
    // An unknown escape.
    assert!(parse_file("a \"x\\qy\";").is_err());
    // An integer that does not fit 32 bits.
    assert!(parse_file("a 2147483648;").is_err());
    // The largest integer that does fit.
    let ast = parse_file("a 2147483647;").expect("must parse");
    assert!(matches!(&ast[0].arguments[0], AstArgument::Integer(2147483647)));
}

#[test]
fn parse_error_reports_offset() {
    let err = parse_file("greet \"Alice\"").unwrap_err();
    assert!(err.offset <= "greet \"Alice\"".len());
    assert!(!err.expected.is_empty());
}

#[test]
fn parse_error_line_and_column() {
    let source = "a;\nb";
    let err = parse_file(source).unwrap_err();
    assert_eq!(err.offset, 4);
    assert_eq!(err.line_column(source), (2, 2));
}

#[test]
fn bare_switch_is_no_command() {
    // A switch cannot stand where a command name is required: the grammar
    // rejects this source rather than classifying it.
    assert!(parse_file("/color \"red\" on;").is_err());
}

#[test]
fn option_switch_groups_one_value() {
    // As arguments, `/color "red" on` is one option switch holding the
    // string, followed by one positional name.
    let ast = parse_file("paint /color \"red\" on;").expect("must parse");
    let args = &ast[0].arguments;
    assert_eq!(args.len(), 2);
    match &args[0] {
        AstArgument::Switch(AstSwitch::Option(n, v)) => {
            assert_eq!(n, "color");
            assert!(matches!(&**v, AstArgument::String(s) if s.as_str() == "red"));
        }
        _ => panic!("expected an option switch"),
    }
    assert!(matches!(&args[1], AstArgument::Name(AstName::Name(n)) if n.as_str() == "on"));
}

#[test]
fn writer_prints_canonical_text() {
    let cmd = AstCommand {
        time: AstTime::Runtime,
        name: name("greet"),
        arguments: vec![
            AstArgument::Integer(42),
            AstArgument::Float(AstFloat { integral: "3".to_string(), fractional: "14".to_string() }),
            AstArgument::String("hi \"there\"".to_string()),
            AstArgument::Switch(AstSwitch::On("x".to_string())),
        ],
    };
    let text = write_file(&vec![cmd]);
    assert_eq!(text, "greet 42 3.14 \"hi \\\"there\\\"\" +x;");
}

#[test]
fn writer_prints_time_markers() {
    let ct = AstCommand { time: AstTime::CompileTime, name: name("a"), arguments: vec![] };
    let mc = AstCommand { time: AstTime::Macro, name: name("b"), arguments: vec![] };
    let rt = AstCommand { time: AstTime::Runtime, name: name("c"), arguments: vec![] };
    assert_eq!(write_file(&vec![ct, mc, rt]), "!a;b!;c;");
}

#[test]
fn round_trip_rebuilds_the_same_tree() {
    let source = "!setup +fast;expand! $x;greet ~ \"Alice\" 42 3.14 /mode {inner 1;} &{raw;};";
    let ast = parse_file(source).expect("must parse");
    let printed = write_file(&ast);
    let reparsed = parse_file(&printed).expect("printed text must parse");
    // Equal trees print equally; the round-trip law says the reparse is the
    // same tree, so a second print must reproduce the text exactly.
    assert_eq!(write_file(&reparsed), printed);
    assert_eq!(reparsed.len(), ast.len());
}

#[test]
fn round_trip_from_a_built_tree() {
    let cmd = AstCommand {
        time: AstTime::Macro,
        name: AstName::Variable("v".to_string()),
        arguments: vec![
            AstArgument::Name(AstName::Placeholder),
            AstArgument::Switch(AstSwitch::Option(
                "k".to_string(),
                Box::new(AstArgument::Block(AstBlock::Evaluated(vec![AstCommand {
                    time: AstTime::Runtime,
                    name: name("inner"),
                    arguments: vec![AstArgument::Integer(0)],
                }]))),
            )),
        ],
    };
    let printed = write_file(&vec![cmd]);
    assert_eq!(printed, "$v! ~ /k {inner 0;};");
    let reparsed = parse_file(&printed).expect("printed text must parse");
    assert_eq!(write_file(&reparsed), printed);
}

#[test]
fn collector_partitions_arguments() {
    let args = vec![
        AstArgument::Integer(1),
        AstArgument::Switch(AstSwitch::On("a".to_string())),
        AstArgument::Name(name("w")),
        AstArgument::Switch(AstSwitch::Off("a".to_string())),
        AstArgument::Switch(AstSwitch::On("b".to_string())),
        AstArgument::String("s".to_string()),
    ];
    let mut col = ArgumentCollector::new();
    col.collect(&args);
    // Order of positionals is the input order with switches removed.
    assert_eq!(col.positionals.len(), 3);
    assert!(matches!(col.positionals[0], AstArgument::Integer(1)));
    assert!(matches!(col.positionals[1], AstArgument::Name(AstName::Name(n)) if n.as_str() == "w"));
    assert!(matches!(col.positionals[2], AstArgument::String(s) if s.as_str() == "s"));
    // Every argument is either a positional or a switch occurrence.
    let occurrences: usize = col.switches.iter().map(|e| e.1.len()).sum();
    assert_eq!(col.positionals.len() + occurrences, args.len());
    // Groups keep first-occurrence order and hold every occurrence in order.
    assert_eq!(col.switches.len(), 2);
    assert_eq!(col.switches[0].0, "a");
    assert_eq!(col.switches[0].1.len(), 2);
    assert!(matches!(col.switches[0].1[0], AstSwitch::On(n) if n.as_str() == "a"));
    assert!(matches!(col.switches[0].1[1], AstSwitch::Off(n) if n.as_str() == "a"));
    assert_eq!(col.switches[1].0, "b");
    assert_eq!(col.switches[1].1.len(), 1);
}

#[test]
fn collector_on_no_arguments() {
    let args: Vec<AstArgument> = vec![];
    let mut col = ArgumentCollector::new();
    col.collect(&args);
    assert_eq!(col.positionals.len(), 0);
    assert_eq!(col.switches.len(), 0);
}

fn is_invalid_usage_for(e: &SwitchUsageError, expected: &str) -> bool {
    let SwitchUsageError::InvalidUsage { name, .. } = e;
    name.as_str() == expected
}

#[test]
fn enabling_switch_accepts_only_on() {
    let policy: EnablingSwitch<u32> = EnablingSwitch::new(0, 1);
    let n = "f".to_string();
    assert_eq!(*policy.initial_value(), 0);
    assert_eq!(*policy.collect(&n, &AstSwitch::On("f".to_string())).unwrap(), 1);
    let e = policy.collect(&n, &AstSwitch::Off("f".to_string())).unwrap_err();
    assert!(is_invalid_usage_for(&e, "f"));
    let e = policy
        .collect(&n, &AstSwitch::Option("f".to_string(), Box::new(AstArgument::Integer(1))))
        .unwrap_err();
    assert!(is_invalid_usage_for(&e, "f"));
}

#[test]
fn disabling_switch_accepts_only_off() {
    let policy: DisablingSwitch<u32> = DisablingSwitch::new(1, 0);
    let n = "g".to_string();
    assert_eq!(*policy.initial_value(), 1);
    assert_eq!(*policy.collect(&n, &AstSwitch::Off("g".to_string())).unwrap(), 0);
    let e = policy.collect(&n, &AstSwitch::On("g".to_string())).unwrap_err();
    assert!(is_invalid_usage_for(&e, "g"));
    let e = policy
        .collect(&n, &AstSwitch::Option("g".to_string(), Box::new(AstArgument::Integer(1))))
        .unwrap_err();
    assert!(is_invalid_usage_for(&e, "g"));
}

#[test]
fn ternary_switch_accepts_on_and_off() {
    let policy: TernarySwitch<u32> = TernarySwitch::new(0, 1, 2);
    let n = "t".to_string();
    assert_eq!(*policy.initial_value(), 0);
    assert_eq!(*policy.collect(&n, &AstSwitch::On("t".to_string())).unwrap(), 1);
    assert_eq!(*policy.collect(&n, &AstSwitch::Off("t".to_string())).unwrap(), 2);
    let e = policy
        .collect(&n, &AstSwitch::Option("t".to_string(), Box::new(AstArgument::Integer(1))))
        .unwrap_err();
    assert!(is_invalid_usage_for(&e, "t"));
}
