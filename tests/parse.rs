use argonaut::{
    parse, parse_definitions, ArgDef, ArgDefKind, CollectionTarget, OptionTarget, ParseError,
    Resolved, Scalar, SingleTarget, ValueKind,
};

fn args(tokens: &[&str]) -> Vec<String> {
    tokens.iter().map(|t| t.to_string()).collect()
}

fn text(s: &str) -> SingleTarget {
    SingleTarget { value: Scalar::Text(s.to_string()) }
}

fn number(n: u64) -> SingleTarget {
    SingleTarget { value: Scalar::Unsigned(n) }
}

fn positional_value(d: &ArgDef) -> Scalar {
    match &d.kind {
        ArgDefKind::Positional { target } => target.value.clone(),
        other => panic!("not a positional: {:?}", other),
    }
}

fn option_value(d: &ArgDef) -> Option<Scalar> {
    match &d.kind {
        ArgDefKind::OptArg { target, .. } => target.value.clone(),
        other => panic!("not a value option: {:?}", other),
    }
}

fn flag_value(d: &ArgDef) -> bool {
    match &d.kind {
        ArgDefKind::Flag { target, .. } => *target,
        other => panic!("not a flag: {:?}", other),
    }
}

fn count_value(d: &ArgDef) -> usize {
    match &d.kind {
        ArgDefKind::Count { target, .. } => *target,
        other => panic!("not a counter: {:?}", other),
    }
}

fn trail_values(d: &ArgDef) -> Vec<Scalar> {
    match &d.kind {
        ArgDefKind::Trail { target, .. } => target.values.clone(),
        other => panic!("not a trail: {:?}", other),
    }
}

fn failure(r: Result<Resolved, ParseError>) -> String {
    match r {
        Err(ParseError::ParseFailed(m, _)) => m,
        other => panic!("expected a parse failure, got {:?}", other),
    }
}

fn invalid(r: Result<Resolved, ParseError>) -> String {
    match r {
        Err(ParseError::InvalidDefinitions(m)) => m,
        other => panic!("expected invalid definitions, got {:?}", other),
    }
}

fn text_option() -> OptionTarget {
    OptionTarget { kind: ValueKind::Text, value: None }
}

fn text_trail() -> CollectionTarget {
    CollectionTarget { kind: ValueKind::Text, values: Vec::new() }
}

#[test]
fn positionals_bind_in_declaration_order() {
    let mut defs = vec![
        ArgDef::pos("first", text("")),
        ArgDef::flag("verbose", false).short("v"),
        ArgDef::pos("second", number(0)),
        ArgDef::count("level", 0).short("l"),
    ];
    let r = parse(&args(&["-v", "alpha", "--level", "42", "-l"]), &mut defs);
    assert_eq!(r.unwrap(), Resolved::Complete);
    assert_eq!(positional_value(&defs[0]), Scalar::Text("alpha".to_string()));
    assert_eq!(positional_value(&defs[2]), Scalar::Unsigned(42));
    assert!(flag_value(&defs[1]));
    assert_eq!(count_value(&defs[3]), 2);
}

#[test]
fn unknown_short_alias_is_quoted() {
    let mut defs = vec![ArgDef::flag("verbose", false).short("v")];
    let r = parse(&args(&["-x"]), &mut defs);
    assert_eq!(failure(r), "Unknown option: '-x'");
}

#[test]
fn unknown_long_option_is_quoted() {
    let mut defs = vec![ArgDef::flag("verbose", false).short("v")];
    let r = parse(&args(&["--v"]), &mut defs);
    assert_eq!(failure(r), "Unknown option: '--v'");
}

#[test]
fn value_option_given_twice_keeps_first() {
    let mut defs = vec![ArgDef::option("cool", text_option())];
    let r = parse(&args(&["--cool", "a", "--cool", "b"]), &mut defs);
    assert_eq!(failure(r), "Option 'cool' given twice!");
    assert_eq!(option_value(&defs[0]), Some(Scalar::Text("a".to_string())));
}

#[test]
fn interrupt_stops_before_positionals_are_filled() {
    let mut defs = vec![
        ArgDef::pos("input", text("unset")),
        ArgDef::interrupt("help").short("h"),
        ArgDef::flag("verbose", false),
    ];
    let r = parse(&args(&["-h", "file", "--verbose"]), &mut defs);
    match r {
        Err(ParseError::Interrupted(name)) => assert_eq!(name, "help"),
        other => panic!("expected an interrupt, got {:?}", other),
    }
    assert_eq!(positional_value(&defs[0]), Scalar::Text("unset".to_string()));
    assert!(!flag_value(&defs[2]));
}

#[test]
fn interrupt_keeps_earlier_bindings() {
    let mut defs = vec![ArgDef::flag("verbose", false), ArgDef::interrupt("version")];
    let r = parse(&args(&["--verbose", "--version", "--verbose"]), &mut defs);
    assert!(matches!(r, Err(ParseError::Interrupted(ref n)) if n == "version"));
    assert!(flag_value(&defs[0]));
}

#[test]
fn mandatory_trail_needs_a_token() {
    let mut defs = vec![ArgDef::trail("files", false, text_trail())];
    let r = parse(&args(&[]), &mut defs);
    assert_eq!(failure(r), "Expected at least one trailing argument for 'files'");
}

#[test]
fn optional_trail_may_be_empty() {
    let mut defs = vec![ArgDef::trail("files", true, text_trail())];
    let r = parse(&args(&[]), &mut defs);
    assert_eq!(r.unwrap(), Resolved::Complete);
    assert!(trail_values(&defs[0]).is_empty());
}

#[test]
fn trail_collects_leftover_tokens() {
    let mut defs = vec![
        ArgDef::pos("first", text("")),
        ArgDef::trail("rest", false, CollectionTarget { kind: ValueKind::Unsigned, values: Vec::new() }),
    ];
    let r = parse(&args(&["x", "1", "2", "3"]), &mut defs);
    assert_eq!(r.unwrap(), Resolved::Complete);
    assert_eq!(
        trail_values(&defs[1]),
        vec![Scalar::Unsigned(1), Scalar::Unsigned(2), Scalar::Unsigned(3)]
    );
}

#[test]
fn positional_and_subcommand_are_refused() {
    let mut defs = vec![ArgDef::pos("input", text("")), ArgDef::cmd("run")];
    let r = parse(&args(&[]), &mut defs);
    assert_eq!(
        invalid(r),
        "Positional (+trail) and subcommand definitions cannot be used together."
    );
}

#[test]
fn subcommand_then_trail_is_refused() {
    let mut defs = vec![ArgDef::cmd("run"), ArgDef::trail("rest", true, text_trail())];
    let r = parse(&args(&["run"]), &mut defs);
    assert_eq!(
        invalid(r),
        "Positional (+trail) and subcommand definitions cannot be used together."
    );
}

#[test]
fn two_trails_are_refused() {
    let mut defs = vec![
        ArgDef::trail("a", true, text_trail()),
        ArgDef::trail("b", true, text_trail()),
    ];
    assert_eq!(invalid(parse(&args(&[]), &mut defs)), "Two trails defined.");
}

#[test]
fn duplicate_short_alias_is_refused() {
    let mut defs = vec![
        ArgDef::flag("verbose", false).short("v"),
        ArgDef::count("version", 0).short("v"),
    ];
    assert_eq!(invalid(parse(&args(&[]), &mut defs)), "Short name 'v' defined twice.");
}

#[test]
fn duplicate_option_is_refused() {
    let mut defs = vec![ArgDef::flag("verbose", false), ArgDef::count("verbose", 0)];
    assert_eq!(invalid(parse(&args(&[]), &mut defs)), "Option 'verbose' defined twice.");
}

#[test]
fn option_and_subcommand_share_a_namespace() {
    let mut defs = vec![ArgDef::flag("run", false), ArgDef::cmd("run")];
    assert_eq!(invalid(parse(&args(&[]), &mut defs)), "Subcommand 'run' defined twice.");
}

#[test]
fn duplicate_positional_is_refused() {
    let mut defs = vec![ArgDef::pos("input", text("")), ArgDef::pos("input", text(""))];
    assert_eq!(invalid(parse(&args(&[]), &mut defs)), "Positional 'input' defined twice.");
}

#[test]
fn first_broken_rule_is_reported() {
    let defs = vec![
        ArgDef::flag("a", false).short("x"),
        ArgDef::flag("a", false).short("x"),
        ArgDef::trail("t", true, text_trail()),
        ArgDef::trail("u", true, text_trail()),
    ];
    match parse_definitions(&defs) {
        Err(ParseError::InvalidDefinitions(m)) => assert_eq!(m, "Short name 'x' defined twice."),
        other => panic!("expected invalid definitions, got {:?}", other),
    }
}

#[test]
fn valid_definitions_compile() {
    let defs = vec![
        ArgDef::pos("input", text("")),
        ArgDef::trail("rest", true, text_trail()),
        ArgDef::flag("verbose", false).short("v"),
        ArgDef::option("out", text_option()).short("o"),
    ];
    assert!(parse_definitions(&defs).is_ok());
}

#[test]
fn missing_value_for_option() {
    let mut defs = vec![ArgDef::option("out", text_option()).short("o")];
    assert_eq!(failure(parse(&args(&["-o"]), &mut defs)), "Missing argument for option '-o'");
}

#[test]
fn value_option_takes_next_token_even_with_dash() {
    let mut defs = vec![ArgDef::option("out", text_option())];
    let r = parse(&args(&["--out", "-file"]), &mut defs);
    assert_eq!(r.unwrap(), Resolved::Complete);
    assert_eq!(option_value(&defs[0]), Some(Scalar::Text("-file".to_string())));
}

#[test]
fn failed_conversion_names_the_token() {
    let mut defs = vec![ArgDef::pos("n", number(7))];
    assert_eq!(failure(parse(&args(&["abc"]), &mut defs)), "Could not parse and convert 'abc'");
    assert_eq!(positional_value(&defs[0]), Scalar::Unsigned(7));
}

#[test]
fn unsigned_accepts_plus_and_rejects_overflow() {
    let mut defs = vec![ArgDef::pos("n", number(0))];
    assert_eq!(parse(&args(&["+18446744073709551615"]), &mut defs).unwrap(), Resolved::Complete);
    assert_eq!(positional_value(&defs[0]), Scalar::Unsigned(u64::MAX));
    let mut defs = vec![ArgDef::pos("n", number(0))];
    assert_eq!(
        failure(parse(&args(&["18446744073709551616"]), &mut defs)),
        "Could not parse and convert '18446744073709551616'"
    );
}

#[test]
fn unexpected_argument() {
    let mut defs = vec![ArgDef::flag("verbose", false)];
    assert_eq!(failure(parse(&args(&["stray"]), &mut defs)), "Unexpected argument 'stray'");
}

#[test]
fn missing_positional_is_named() {
    let mut defs = vec![ArgDef::pos("first", text("")), ArgDef::pos("second", text(""))];
    assert_eq!(
        failure(parse(&args(&["one"]), &mut defs)),
        "Missing positional argument 'second'"
    );
}

#[test]
fn subcommand_receives_the_rest() {
    let mut defs = vec![
        ArgDef::flag("verbose", false),
        ArgDef::cmd("build"),
        ArgDef::cmd("run"),
    ];
    let r = parse(&args(&["--verbose", "run", "-x", "file"]), &mut defs);
    assert_eq!(
        r.unwrap(),
        Resolved::Subcommand { name: "run".to_string(), rest: args(&["-x", "file"]) }
    );
    assert!(flag_value(&defs[0]));
}

#[test]
fn unknown_subcommand() {
    let mut defs = vec![ArgDef::cmd("build")];
    assert_eq!(failure(parse(&args(&["test"]), &mut defs)), "Unknown subcommand: 'test'");
}

#[test]
fn parse_failure_carries_the_help_projection() {
    let mut defs = vec![ArgDef::pos("input", text("")).help("The input.")];
    match parse(&args(&[]), &mut defs) {
        Err(ParseError::ParseFailed(_, help)) => {
            assert_eq!(help.positional.len(), 1);
            assert_eq!(help.positional[0].0, "input");
            assert_eq!(help.positional[0].1.as_deref(), Some("The input."));
        }
        other => panic!("expected a parse failure, got {:?}", other),
    }
}

#[test]
fn identical_inputs_give_identical_results() {
    let build = || {
        vec![
            ArgDef::pos("a", text("")),
            ArgDef::count("c", 0).short("c"),
            ArgDef::trail("t", true, text_trail()),
        ]
    };
    let tokens = args(&["-c", "x", "y", "-c", "z"]);
    let mut d1 = build();
    let mut d2 = build();
    let r1 = parse(&tokens, &mut d1);
    let r2 = parse(&tokens, &mut d2);
    assert_eq!(r1.unwrap(), r2.unwrap());
    assert_eq!(positional_value(&d1[0]), positional_value(&d2[0]));
    assert_eq!(count_value(&d1[1]), count_value(&d2[1]));
    assert_eq!(trail_values(&d1[2]), trail_values(&d2[2]));
    assert_eq!(count_value(&d1[1]), 2);
}

#[test]
fn mandatory_trail_after_positionals_needs_a_token() {
    let mut defs = vec![
        ArgDef::pos("first", text("")),
        ArgDef::flag("verbose", false),
        ArgDef::trail("files", false, text_trail()),
    ];
    let r = parse(&args(&["--verbose", "one"]), &mut defs);
    assert_eq!(failure(r), "Expected at least one trailing argument for 'files'");
    assert_eq!(positional_value(&defs[0]), Scalar::Text("one".to_string()));
}

#[test]
fn interrupt_after_positionals() {
    let mut defs = vec![ArgDef::pos("first", text("")), help_like()];
    let r = parse(&args(&["one", "--help", "two"]), &mut defs);
    assert!(matches!(r, Err(ParseError::Interrupted(ref n)) if n == "help"));
    assert_eq!(positional_value(&defs[0]), Scalar::Text("one".to_string()));
}

fn help_like() -> ArgDef {
    ArgDef::interrupt("help")
}
