use xflags::grammar::{Arity, Cmd, Grammar, Positional, Switch, TypeTag, ValueDesc};
use xflags::matcher::{parse, ParseOutcome};
use xflags::value::Value;
use xflags::error::ParseError;
use xflags::token::Arg;

fn sw(long: &str, short: Option<u8>, arity: Arity, value: Option<(&str, TypeTag)>) -> Switch {
    Switch {
        long: long.as_bytes().to_vec(),
        short,
        arity,
        value: value.map(|(n, t)| ValueDesc { name: n.as_bytes().to_vec(), tag: t }),
        doc: None,
    }
}

fn pos(name: &str, arity: Arity, tag: TypeTag) -> Positional {
    Positional { name: name.as_bytes().to_vec(), arity, tag, doc: None }
}

fn cmd(name: &str) -> Cmd {
    Cmd {
        name: name.as_bytes().to_vec(),
        aliases: Vec::new(),
        doc: None,
        positionals: Vec::new(),
        switches: Vec::new(),
        children: Vec::new(),
        default_child: None,
    }
}

fn text(s: &str) -> Arg {
    Arg::Text(s.as_bytes().to_vec())
}

fn args(xs: &[&str]) -> Vec<Arg> {
    xs.iter().map(|s| text(s)).collect()
}

fn value_eq(a: &Value, b: &Value) -> bool {
    match (a, b) {
        (Value::Bytes(x), Value::Bytes(y)) => x == y,
        (Value::Int(x), Value::Int(y)) => x == y,
        (Value::Present, Value::Present) => true,
        _ => false,
    }
}

fn outcome_eq(a: &ParseOutcome, b: &ParseOutcome) -> bool {
    a.path == b.path && a.occs.len() == b.occs.len() && a.poss.len() == b.poss.len()
        && a.occs.iter().zip(b.occs.iter()).all(|(x, y)| {
            x.long == y.long
                && match (&x.value, &y.value) {
                    (Some(v), Some(w)) => value_eq(v, w),
                    (None, None) => true,
                    _ => false,
                }
        })
        && a.poss.iter().zip(b.poss.iter()).all(|(x, y)| {
            x.level == y.level && x.slot == y.slot && x.name == y.name
                && value_eq(&x.value, &y.value)
        })
}

#[test]
fn required_switch_enforced() {
    let mut root = cmd("app");
    root.switches.push(sw("pass-me", None, Arity::Required, None));
    let g = Grammar::new(vec![root]).unwrap();
    match parse(&g, &args(&[])) {
        Err(ParseError::MissingRequired { name }) => assert_eq!(name, b"pass-me".to_vec()),
        _ => panic!("expected MissingRequired"),
    }
}

#[test]
fn repeated_switch_counts() {
    let mut root = cmd("app");
    root.switches.push(sw("verbose", Some(b'v'), Arity::Repeated, None));
    let g = Grammar::new(vec![root]).unwrap();
    let out = parse(&g, &args(&["-v", "-v", "-v"])).unwrap();
    assert_eq!(out.switch_count(&b"verbose".to_vec()), 3);
}

#[test]
fn default_subcommand_selected() {
    let mut root = cmd("app");
    root.children = vec![1, 2];
    root.default_child = Some(1);
    let foo = cmd("foo");
    let bar = cmd("bar");
    let g = Grammar::new(vec![root, foo, bar]).unwrap();

    let out = parse(&g, &args(&[])).unwrap();
    assert_eq!(out.path, vec![0, 1]);
    assert_eq!(out.command_name(&g, 1), &b"foo".to_vec());
    assert!(out.occs.is_empty());
    assert!(out.poss.is_empty());

    let out2 = parse(&g, &args(&["bar"])).unwrap();
    assert_eq!(out2.path, vec![0, 2]);
    assert_eq!(out2.command_name(&g, 1), &b"bar".to_vec());
}

#[test]
fn separator_escapes_dashes() {
    let mut root = cmd("app");
    root.positionals.push(pos("rest", Arity::Repeated, TypeTag::Text));
    let g = Grammar::new(vec![root]).unwrap();
    let out = parse(&g, &args(&["--", "-x", "--flag"])).unwrap();
    let vals = out.positional_values(&b"rest".to_vec());
    assert_eq!(vals.len(), 2);
    assert!(value_eq(&vals[0], &Value::Bytes(b"-x".to_vec())));
    assert!(value_eq(&vals[1], &Value::Bytes(b"--flag".to_vec())));
}

#[test]
fn integer_conversion_failure_named() {
    let mut root = cmd("app");
    root.switches.push(sw("jobs", Some(b'j'), Arity::Optional, Some(("n", TypeTag::Integer))));
    let g = Grammar::new(vec![root]).unwrap();
    match parse(&g, &args(&["--jobs", "abc"])) {
        Err(ParseError::TypeConversionFailure { name, raw, tag }) => {
            assert_eq!(name, b"jobs".to_vec());
            assert_eq!(raw, b"abc".to_vec());
            assert_eq!(tag, TypeTag::Integer);
        },
        _ => panic!("expected TypeConversionFailure"),
    }
}

#[test]
fn integer_values_parse() {
    let mut root = cmd("app");
    root.switches.push(sw("jobs", Some(b'j'), Arity::Optional, Some(("n", TypeTag::Integer))));
    let g = Grammar::new(vec![root]).unwrap();
    let out = parse(&g, &args(&["--jobs", "007"])).unwrap();
    assert!(matches!(out.occs[0].value, Some(Value::Int(7))));

    let out2 = parse(&g, &args(&["--jobs=-12"])).unwrap();
    assert!(matches!(out2.occs[0].value, Some(Value::Int(-12))));
}

#[test]
fn inherited_switch_order_independent() {
    let mut root = cmd("app");
    root.switches.push(sw("verbose", Some(b'v'), Arity::Repeated, None));
    root.children = vec![1];
    let foo = cmd("foo");
    let g = Grammar::new(vec![root, foo]).unwrap();

    let a = parse(&g, &args(&["-v", "foo"])).unwrap();
    let b = parse(&g, &args(&["foo", "-v"])).unwrap();
    assert!(outcome_eq(&a, &b));
    assert_eq!(a.path, vec![0, 1]);
    assert_eq!(a.switch_count(&b"verbose".to_vec()), 1);
}

#[test]
fn duplicate_switch_rejected() {
    let mut root = cmd("app");
    root.switches.push(sw("quiet", Some(b'q'), Arity::Optional, None));
    let g = Grammar::new(vec![root]).unwrap();
    match parse(&g, &args(&["-q", "--quiet"])) {
        Err(ParseError::DuplicateSwitch { switch }) => assert_eq!(switch, b"quiet".to_vec()),
        _ => panic!("expected DuplicateSwitch"),
    }
}

#[test]
fn missing_value_reported() {
    let mut root = cmd("app");
    root.switches.push(sw("jobs", None, Arity::Optional, Some(("n", TypeTag::Integer))));
    root.switches.push(sw("quiet", None, Arity::Optional, None));
    let g = Grammar::new(vec![root]).unwrap();
    match parse(&g, &args(&["--jobs"])) {
        Err(ParseError::MissingValue { switch }) => assert_eq!(switch, b"jobs".to_vec()),
        _ => panic!("expected MissingValue"),
    }
    match parse(&g, &args(&["--jobs", "--quiet"])) {
        Err(ParseError::MissingValue { switch }) => assert_eq!(switch, b"jobs".to_vec()),
        _ => panic!("expected MissingValue"),
    }
}

#[test]
fn unknown_switch_reported() {
    let g = Grammar::new(vec![cmd("app")]).unwrap();
    match parse(&g, &args(&["-z"])) {
        Err(ParseError::UnknownSwitch { token }) => assert_eq!(token, b"-z".to_vec()),
        _ => panic!("expected UnknownSwitch"),
    }
    match parse(&g, &args(&["--nope"])) {
        Err(ParseError::UnknownSwitch { token }) => assert_eq!(token, b"--nope".to_vec()),
        _ => panic!("expected UnknownSwitch"),
    }
}

#[test]
fn unexpected_argument_reported() {
    let g = Grammar::new(vec![cmd("app")]).unwrap();
    match parse(&g, &args(&["stray"])) {
        Err(ParseError::UnexpectedArgument { token }) => assert_eq!(token, b"stray".to_vec()),
        _ => panic!("expected UnexpectedArgument"),
    }
}

#[test]
fn positionals_fill_in_order() {
    let mut root = cmd("app");
    root.positionals.push(pos("src", Arity::Required, TypeTag::Text));
    root.positionals.push(pos("dst", Arity::Optional, TypeTag::Text));
    let g = Grammar::new(vec![root]).unwrap();

    let out = parse(&g, &args(&["a", "b"])).unwrap();
    let src = out.positional_values(&b"src".to_vec());
    let dst = out.positional_values(&b"dst".to_vec());
    assert!(value_eq(&src[0], &Value::Bytes(b"a".to_vec())));
    assert!(value_eq(&dst[0], &Value::Bytes(b"b".to_vec())));

    let out2 = parse(&g, &args(&["a"])).unwrap();
    assert_eq!(out2.positional_values(&b"dst".to_vec()).len(), 0);

    match parse(&g, &args(&[])) {
        Err(ParseError::MissingRequired { name }) => assert_eq!(name, b"src".to_vec()),
        _ => panic!("expected MissingRequired"),
    }
}

#[test]
fn aliases_resolve() {
    let mut root = cmd("app");
    root.children = vec![1];
    let mut run = cmd("run");
    run.aliases.push(b"r".to_vec());
    run.aliases.push(b"exec".to_vec());
    let g = Grammar::new(vec![root, run]).unwrap();
    let out = parse(&g, &args(&["r"])).unwrap();
    assert_eq!(out.path, vec![0, 1]);
    let out2 = parse(&g, &args(&["exec"])).unwrap();
    assert_eq!(out2.path, vec![0, 1]);
}

#[test]
fn default_child_takes_positional() {
    let mut root = cmd("app");
    root.children = vec![1];
    root.default_child = Some(1);
    let mut foo = cmd("foo");
    foo.positionals.push(pos("x", Arity::Required, TypeTag::Text));
    let g = Grammar::new(vec![root, foo]).unwrap();
    let out = parse(&g, &args(&["val"])).unwrap();
    assert_eq!(out.path, vec![0, 1]);
    let vals = out.positional_values(&b"x".to_vec());
    assert!(value_eq(&vals[0], &Value::Bytes(b"val".to_vec())));
}

#[test]
fn raw_bytes_preserved() {
    let mut root = cmd("app");
    root.positionals.push(pos("data", Arity::Required, TypeTag::RawBytes));
    let g = Grammar::new(vec![root]).unwrap();
    let raw = vec![0xffu8, 0xfe, 0x00];
    let out = parse(&g, &vec![Arg::Bytes(raw.clone())]).unwrap();
    let vals = out.positional_values(&b"data".to_vec());
    assert!(value_eq(&vals[0], &Value::Bytes(raw)));
}

#[test]
fn bytes_fail_textual_slot() {
    let mut root = cmd("app");
    root.positionals.push(pos("n", Arity::Required, TypeTag::Integer));
    let g = Grammar::new(vec![root]).unwrap();
    match parse(&g, &vec![Arg::Bytes(vec![0xff, 0xfe])]) {
        Err(ParseError::TypeConversionFailure { name, .. }) => {
            assert_eq!(name, b"n".to_vec());
        },
        _ => panic!("expected TypeConversionFailure"),
    }
}

#[test]
fn subcommand_required_without_default() {
    let mut root = cmd("app");
    root.children = vec![1];
    let g = Grammar::new(vec![root, cmd("foo")]).unwrap();
    match parse(&g, &args(&[])) {
        Err(ParseError::MissingRequired { name }) => assert_eq!(name, b"subcommand".to_vec()),
        _ => panic!("expected MissingRequired for the subcommand"),
    }
}
