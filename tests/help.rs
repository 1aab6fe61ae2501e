use argonaut::{help_arg, trim_and_strip_lines, ArgDef, CollectionTarget, Help, HelpOptKind, OptionTarget, Scalar, SingleTarget, ValueKind};

fn text(s: &str) -> SingleTarget {
    SingleTarget { value: Scalar::Text(s.to_string()) }
}

fn trail() -> CollectionTarget {
    CollectionTarget { kind: ValueKind::Text, values: Vec::new() }
}

fn sample() -> Vec<ArgDef> {
    vec![
        ArgDef::pos("input", text("")).help("The input file."),
        ArgDef::flag("verbose", false).short("v").help("  Talk more.\n\n"),
        ArgDef::option("out", OptionTarget { kind: ValueKind::Text, value: None }),
        help_arg(),
    ]
}

#[test]
fn projection_keeps_declaration_order() {
    let h = Help::from_definitions(&sample());
    assert_eq!(h.positional.len(), 1);
    assert_eq!(h.options.len(), 3);
    assert_eq!(h.options[0].0, "verbose");
    assert_eq!(h.options[0].1.as_deref(), Some("v"));
    assert!(matches!(h.options[0].2, HelpOptKind::Flag));
    assert!(matches!(h.options[1].2, HelpOptKind::OptArg));
    assert!(matches!(h.options[2].2, HelpOptKind::Interrupt));
    assert!(h.help_defined);
    assert!(h.trail.is_none());
    assert!(h.subcommands.is_empty());
}

#[test]
fn usage_with_help_and_options() {
    let h = Help::from_definitions(&sample());
    assert_eq!(h.usage_message("prog"), "prog [ --help | OPTIONS ] input");
}

#[test]
fn usage_with_only_help() {
    let h = Help::from_definitions(&vec![help_arg()]);
    assert_eq!(h.usage_message("prog"), "prog [ --help ]");
}

#[test]
fn usage_with_trails() {
    let h = Help::from_definitions(&vec![
        ArgDef::flag("x", false),
        ArgDef::trail("files", false, trail()),
    ]);
    assert_eq!(h.usage_message("prog"), "prog [ OPTIONS ] files [files...]");
    let h = Help::from_definitions(&vec![ArgDef::trail("files", true, trail())]);
    assert_eq!(h.usage_message("prog"), "prog [files...]");
}

#[test]
fn usage_with_subcommands() {
    let h = Help::from_definitions(&vec![ArgDef::cmd("build"), ArgDef::cmd("run"), ArgDef::cmd("test")]);
    assert_eq!(h.usage_message("prog"), "prog { build | run | test }");
}

#[test]
fn help_message_full() {
    let h = Help::from_definitions(&sample());
    let expected = "Usage:\n  prog [ --help | OPTIONS ] input\n\n  A tool.\n\nPositional arguments:\n  input\n    The input file.\n\nOptional arguments:\n  --verbose, -v\n      Talk more.\n\n  --out OUT\n  --help\n      Print this message and abort.\n\n";
    assert_eq!(h.help_message("prog", "\n   A tool.\n  "), expected);
}

#[test]
fn help_message_with_subcommands() {
    let h = Help::from_definitions(&vec![ArgDef::cmd("build"), ArgDef::cmd("run").help("Run it.")]);
    let expected = "Usage:\n  prog { build | run }\n\n\nSubcommands:\n  build\n\n  run\n    Run it.\n\n";
    assert_eq!(h.help_message("prog", ""), expected);
}

#[test]
fn help_message_with_trail() {
    let h = Help::from_definitions(&vec![ArgDef::trail("files", false, trail()).help("Files.")]);
    let expected = "Usage:\n  prog files [files...]\n\n\nPositional arguments:\n  files [files...]\n    Files.\n\n";
    assert_eq!(h.help_message("prog", ""), expected);
}

#[test]
fn help_message_options_only() {
    let h = Help::from_definitions(&vec![ArgDef::flag("x", false)]);
    assert_eq!(h.help_message("prog", ""), "Usage:\n  prog [ OPTIONS ]\n\n\nOptional arguments:\n  --x\n");
}

#[test]
fn help_message_of_nothing() {
    let h = Help::from_definitions(&vec![]);
    assert_eq!(h.help_message("prog", ""), "Usage:\n  prog");
}

#[test]
fn value_placeholder_is_upper_case() {
    let h = Help::from_definitions(&vec![ArgDef::option(
        "target_path",
        OptionTarget { kind: ValueKind::Text, value: None },
    )
    .short("t")]);
    assert_eq!(
        h.help_message("prog", ""),
        "Usage:\n  prog [ OPTIONS ]\n\n\nOptional arguments:\n  --target_path, -t TARGET_PATH\n"
    );
}

#[test]
fn strips_blank_lines_and_trims() {
    let lines = trim_and_strip_lines("\n\n  first line  \r\n\tsecond\n   \n");
    assert_eq!(lines, vec!["first line".to_string(), "second".to_string()]);
}

#[test]
fn strips_everything_blank() {
    assert!(trim_and_strip_lines(" \n\t\n").is_empty());
    assert!(trim_and_strip_lines("").is_empty());
}

#[test]
fn keeps_inner_blank_lines() {
    let lines = trim_and_strip_lines("a\n\n  b");
    assert_eq!(lines, vec!["a".to_string(), "".to_string(), "b".to_string()]);
}

#[test]
fn crlf_endings_are_removed() {
    let lines = trim_and_strip_lines("one\r\ntwo\r\n\r\n");
    assert_eq!(lines, vec!["one".to_string(), "two".to_string()]);
}
