use xflags::grammar::{Arity, Cmd, Grammar, Positional, Switch, TypeTag, ValueDesc};
use xflags::matcher::parse;
use xflags::value::Value;
use xflags::error::ParseError;
use xflags::report::to_error;
use xflags::token::Arg;

fn cmd(name: &str) -> Cmd {
    Cmd {
        name: name.as_bytes().to_vec(),
        aliases: Vec::new(),
        doc: None,
        positionals: Vec::new(),
        switches: Vec::new(),
        children: Vec::new(),
        default_child: None,
    }
}

fn args(xs: &[&str]) -> Vec<Arg> {
    xs.iter().map(|s| Arg::Text(s.as_bytes().to_vec())).collect()
}

fn jobs_grammar() -> Grammar {
    let mut root = cmd("app");
    root.switches.push(Switch {
        long: b"jobs".to_vec(),
        short: Some(b'j'),
        arity: Arity::Repeated,
        value: Some(ValueDesc { name: b"n".to_vec(), tag: TypeTag::Integer }),
        doc: None,
    });
    root.switches.push(Switch {
        long: b"quiet".to_vec(),
        short: Some(b'q'),
        arity: Arity::Optional,
        value: None,
        doc: None,
    });
    Grammar::new(vec![root]).unwrap()
}

#[test]
fn integer_extremes_parse() {
    let g = jobs_grammar();
    let out = parse(&g, &args(&["--jobs=9223372036854775807"])).unwrap();
    assert!(matches!(out.occs[0].value, Some(Value::Int(i64::MAX))));

    let out2 = parse(&g, &args(&["--jobs=-9223372036854775808"])).unwrap();
    assert!(matches!(out2.occs[0].value, Some(Value::Int(i64::MIN))));

    let out3 = parse(&g, &args(&["--jobs", "+42"])).unwrap();
    assert!(matches!(out3.occs[0].value, Some(Value::Int(42))));
}

#[test]
fn integer_overflow_rejected() {
    let g = jobs_grammar();
    assert!(matches!(
        parse(&g, &args(&["--jobs=9223372036854775808"])),
        Err(ParseError::TypeConversionFailure { .. })
    ));
    assert!(matches!(
        parse(&g, &args(&["--jobs=99999999999999999999999999"])),
        Err(ParseError::TypeConversionFailure { .. })
    ));
    assert!(matches!(
        parse(&g, &args(&["--jobs", "-"])),
        Err(ParseError::TypeConversionFailure { .. })
    ));
    assert!(matches!(
        parse(&g, &args(&["--jobs", "1x"])),
        Err(ParseError::TypeConversionFailure { .. })
    ));
}

#[test]
fn repeated_valued_switch_collects_all() {
    let g = jobs_grammar();
    let out = parse(&g, &args(&["-j", "1", "--jobs=2", "-j", "3"])).unwrap();
    assert_eq!(out.switch_count(&b"jobs".to_vec()), 3);
    let vals: Vec<i64> = out
        .occs
        .iter()
        .filter_map(|o| match o.value {
            Some(Value::Int(n)) => Some(n),
            _ => None,
        })
        .collect();
    assert_eq!(vals, vec![1, 2, 3]);
}

#[test]
fn boolean_switch_rejects_inline_value() {
    let g = jobs_grammar();
    match parse(&g, &args(&["--quiet=1"])) {
        Err(ParseError::UnexpectedArgument { token }) => {
            assert_eq!(token, b"--quiet=1".to_vec())
        },
        _ => panic!("expected UnexpectedArgument"),
    }
}

#[test]
fn separator_blocks_switch_value() {
    let g = jobs_grammar();
    match parse(&g, &args(&["--jobs", "--", "3"])) {
        Err(ParseError::MissingValue { switch }) => assert_eq!(switch, b"jobs".to_vec()),
        _ => panic!("expected MissingValue"),
    }
}

#[test]
fn positional_priority_then_subcommand() {
    // while a positional slot is unfilled the bare token goes there; once
    // filled, the next bare token resolves as a subcommand
    let mut root = cmd("app");
    root.positionals.push(Positional {
        name: b"target".to_vec(),
        arity: Arity::Required,
        tag: TypeTag::Text,
        doc: None,
    });
    root.children = vec![1];
    let foo = cmd("foo");
    let g = Grammar::new(vec![root, foo]).unwrap();

    let out = parse(&g, &args(&["foo", "foo"])).unwrap();
    assert_eq!(out.path, vec![0, 1]);
    let vals = out.positional_values(&b"target".to_vec());
    assert_eq!(vals.len(), 1);
    assert!(matches!(&vals[0], Value::Bytes(b) if b == &b"foo".to_vec()));
}

#[test]
fn message_for_each_failure() {
    let g = jobs_grammar();

    let cases: Vec<(Vec<&str>, &str)> = vec![
        (vec!["--nope"], "unknown switch: --nope"),
        (vec!["stray"], "unexpected argument: stray"),
        (vec!["--jobs"], "missing value for --jobs"),
        (vec!["-q", "-q"], "duplicate switch: --quiet"),
        (vec!["--jobs", "abc"], "bad value for jobs: abc"),
    ];
    for (input, want) in cases {
        let pe = match parse(&g, &args(&input)) {
            Err(pe) => pe,
            _ => panic!("expected an error for {:?}", input),
        };
        let e = to_error(&g, pe);
        assert!(!e.is_help());
        assert_eq!(String::from_utf8(e.message().clone()).unwrap(), want);
    }

    let mut root = cmd("app");
    root.switches.push(Switch {
        long: b"pass-me".to_vec(),
        short: None,
        arity: Arity::Required,
        value: None,
        doc: None,
    });
    let g2 = Grammar::new(vec![root]).unwrap();
    let pe = match parse(&g2, &args(&[])) {
        Err(pe) => pe,
        _ => panic!("expected an error"),
    };
    let e = to_error(&g2, pe);
    assert_eq!(
        String::from_utf8(e.message().clone()).unwrap(),
        "missing required: pass-me"
    );
}

#[test]
fn dashed_long_names_work() {
    let mut root = cmd("app");
    root.switches.push(Switch {
        long: b"pass-me".to_vec(),
        short: None,
        arity: Arity::Required,
        value: None,
        doc: None,
    });
    let g = Grammar::new(vec![root]).unwrap();
    let out = parse(&g, &args(&["--pass-me"])).unwrap();
    assert_eq!(out.switch_count(&b"pass-me".to_vec()), 1);
}

#[test]
fn lone_dash_is_bare() {
    let mut root = cmd("app");
    root.positionals.push(Positional {
        name: b"input".to_vec(),
        arity: Arity::Required,
        tag: TypeTag::Text,
        doc: None,
    });
    let g = Grammar::new(vec![root]).unwrap();
    let out = parse(&g, &args(&["-"])).unwrap();
    let vals = out.positional_values(&b"input".to_vec());
    assert!(matches!(&vals[0], Value::Bytes(b) if b == &b"-".to_vec()));
}

#[test]
fn clustered_short_flags_rejected() {
    let g = jobs_grammar();
    match parse(&g, &args(&["-qj"])) {
        Err(ParseError::UnknownSwitch { token }) => assert_eq!(token, b"-qj".to_vec()),
        _ => panic!("expected UnknownSwitch"),
    }
}
