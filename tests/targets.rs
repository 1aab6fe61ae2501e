use argonaut::argdef::convert_value;
use argonaut::{help_arg, ArgDef, ArgDefKind, CollectionTarget, OptionTarget, Scalar, SingleTarget, ValueKind};

#[test]
fn single_target_keeps_its_kind() {
    let mut t = SingleTarget { value: Scalar::Unsigned(3) };
    assert!(t.parse("12").is_ok());
    assert_eq!(t.value, Scalar::Unsigned(12));
    assert_eq!(t.parse("-1"), Err("Could not parse and convert '-1'".to_string()));
    assert_eq!(t.value, Scalar::Unsigned(12));
}

#[test]
fn option_target_becomes_present() {
    let mut t = OptionTarget { kind: ValueKind::Text, value: None };
    assert!(t.parse("hello").is_ok());
    assert_eq!(t.value, Some(Scalar::Text("hello".to_string())));
}

#[test]
fn collection_target_appends() {
    let mut t = CollectionTarget { kind: ValueKind::Unsigned, values: vec![Scalar::Unsigned(1)] };
    assert!(t.parse_and_add("2").is_ok());
    assert!(t.parse_and_add("x").is_err());
    assert_eq!(t.values, vec![Scalar::Unsigned(1), Scalar::Unsigned(2)]);
}

#[test]
fn unsigned_conversion() {
    assert_eq!(convert_value(ValueKind::Unsigned, "007").unwrap(), Scalar::Unsigned(7));
    assert!(convert_value(ValueKind::Unsigned, "").is_err());
    assert!(convert_value(ValueKind::Unsigned, " 1").is_err());
    assert_eq!(convert_value(ValueKind::Text, " 1").unwrap(), Scalar::Text(" 1".to_string()));
}

#[test]
fn short_and_help_are_attached() {
    let d = ArgDef::count("verbose", 0).short("v").help("More output.");
    assert_eq!(d.name, "verbose");
    assert_eq!(d.help_desc.as_deref(), Some("More output."));
    match d.kind {
        ArgDefKind::Count { short, target } => {
            assert_eq!(short.as_deref(), Some("v"));
            assert_eq!(target, 0);
        }
        other => panic!("unexpected kind {:?}", other),
    }
}

#[test]
fn help_arg_is_an_interrupt_named_help() {
    let d = help_arg();
    assert_eq!(d.name, "help");
    assert_eq!(d.help_desc.as_deref(), Some("Print this message and abort."));
    assert!(matches!(d.kind, ArgDefKind::Interrupt { short: None }));
}
