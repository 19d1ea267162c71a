use xflags::grammar::{Arity, Cmd, Grammar, Positional, Switch, TypeTag, ValueDesc};
use xflags::help::render_help;
use xflags::matcher::parse;
use xflags::error::{Error, ParseError};
use xflags::report::to_error;
use xflags::token::Arg;

fn cmd(name: &str) -> Cmd {
    Cmd {
        name: name.as_bytes().to_vec(),
        aliases: Vec::new(),
        doc: None,
        positionals: Vec::new(),
        switches: Vec::new(),
        children: Vec::new(),
        default_child: None,
    }
}

fn args(xs: &[&str]) -> Vec<Arg> {
    xs.iter().map(|s| Arg::Text(s.as_bytes().to_vec())).collect()
}

#[test]
fn error_new_chain_message() {
    let e = Error::new(b"bad input".to_vec());
    assert!(!e.is_help());
    assert_eq!(e.message(), &b"bad input".to_vec());
    let e2 = e.chain(&b"; try again".to_vec());
    assert_eq!(e2.message(), &b"bad input; try again".to_vec());
    assert!(!e2.is_help());
}

#[test]
fn help_error_flag() {
    let e = Error::new_help(b"Usage: ...".to_vec());
    assert!(e.is_help());
}

#[test]
fn validation_rejects_shadowed_switch() {
    let mut root = cmd("app");
    root.switches.push(Switch {
        long: b"verbose".to_vec(),
        short: None,
        arity: Arity::Repeated,
        value: None,
        doc: None,
    });
    root.children = vec![1];
    let mut foo = cmd("foo");
    foo.switches.push(Switch {
        long: b"verbose".to_vec(),
        short: None,
        arity: Arity::Optional,
        value: None,
        doc: None,
    });
    assert!(Grammar::new(vec![root, foo]).is_none());
}

#[test]
fn validation_rejects_misplaced_repeated_positional() {
    let mut root = cmd("app");
    root.positionals.push(Positional {
        name: b"rest".to_vec(),
        arity: Arity::Repeated,
        tag: TypeTag::Text,
        doc: None,
    });
    root.positionals.push(Positional {
        name: b"last".to_vec(),
        arity: Arity::Required,
        tag: TypeTag::Text,
        doc: None,
    });
    assert!(Grammar::new(vec![root]).is_none());
}

#[test]
fn validation_rejects_required_after_optional() {
    let mut root = cmd("app");
    root.positionals.push(Positional {
        name: b"a".to_vec(),
        arity: Arity::Optional,
        tag: TypeTag::Text,
        doc: None,
    });
    root.positionals.push(Positional {
        name: b"b".to_vec(),
        arity: Arity::Required,
        tag: TypeTag::Text,
        doc: None,
    });
    assert!(Grammar::new(vec![root]).is_none());
}

#[test]
fn validation_rejects_duplicate_sibling_names() {
    let mut root = cmd("app");
    root.children = vec![1, 2];
    let foo = cmd("foo");
    let mut bar = cmd("bar");
    bar.aliases.push(b"foo".to_vec());
    assert!(Grammar::new(vec![root, foo, bar]).is_none());
}

#[test]
fn validation_rejects_reserved_help_names() {
    let mut root = cmd("app");
    root.switches.push(Switch {
        long: b"help".to_vec(),
        short: None,
        arity: Arity::Optional,
        value: None,
        doc: None,
    });
    assert!(Grammar::new(vec![root]).is_none());

    let mut root2 = cmd("app");
    root2.switches.push(Switch {
        long: b"host".to_vec(),
        short: Some(b'h'),
        arity: Arity::Optional,
        value: None,
        doc: None,
    });
    assert!(Grammar::new(vec![root2]).is_none());
}

fn rm_grammar() -> Grammar {
    let mut root = cmd("rm");
    root.positionals.push(Positional {
        name: b"path".to_vec(),
        arity: Arity::Required,
        tag: TypeTag::RawPath,
        doc: Some(b"File or directory to remove".to_vec()),
    });
    root.switches.push(Switch {
        long: b"recursive".to_vec(),
        short: Some(b'r'),
        arity: Arity::Optional,
        value: None,
        doc: Some(b"Remove directories recursively".to_vec()),
    });
    Grammar::new(vec![root]).unwrap()
}

#[test]
fn help_layout_exact() {
    let g = rm_grammar();
    let text = render_help(&g, &vec![0]);
    let expected = "Usage: <path> [-r] [-h]\n\
                    Arguments:\n\
                    \x20 <path>               File or directory to remove\n\
                    \n\
                    Options:\n\
                    \x20 -r, --recursive      Remove directories recursively\n\
                    \x20 -h, --help           Prints help\n";
    assert_eq!(String::from_utf8(text).unwrap(), expected);
}

#[test]
fn help_lists_commands() {
    let mut root = cmd("app");
    root.children = vec![1];
    let mut foo = cmd("foo");
    foo.doc = Some(b"Does foo".to_vec());
    let g = Grammar::new(vec![root, foo]).unwrap();
    let text = String::from_utf8(render_help(&g, &vec![0])).unwrap();
    assert!(text.contains("Commands:\n"));
    assert!(text.contains("  foo                  Does foo\n"));
}

#[test]
fn help_shows_inherited_switches() {
    let mut root = cmd("app");
    root.switches.push(Switch {
        long: b"verbose".to_vec(),
        short: Some(b'v'),
        arity: Arity::Repeated,
        value: None,
        doc: Some(b"More output".to_vec()),
    });
    root.children = vec![1];
    let foo = cmd("foo");
    let g = Grammar::new(vec![root, foo]).unwrap();
    let text = String::from_utf8(render_help(&g, &vec![0, 1])).unwrap();
    assert!(text.starts_with("Usage: [-v]... [-h]\n"));
    assert!(text.contains("  -v, --verbose        More output\n"));
}

#[test]
fn validation_rejects_dash_names() {
    let mut root = cmd("app");
    root.children = vec![1];
    assert!(Grammar::new(vec![root, cmd("-foo")]).is_none());

    let mut root2 = cmd("app");
    root2.switches.push(Switch {
        long: b"-x".to_vec(),
        short: None,
        arity: Arity::Optional,
        value: None,
        doc: None,
    });
    assert!(Grammar::new(vec![root2]).is_none());
}

#[test]
fn validation_rejects_backward_child_index() {
    let mut root = cmd("app");
    root.children = vec![0];
    assert!(Grammar::new(vec![root]).is_none());

    let mut root2 = cmd("app");
    root2.children = vec![5];
    assert!(Grammar::new(vec![root2, cmd("foo")]).is_none());
}

#[test]
fn help_request_short_circuits() {
    let g = rm_grammar();
    match parse(&g, &args(&["--help"])) {
        Err(ParseError::HelpRequested { path }) => assert_eq!(path, vec![0]),
        _ => panic!("expected HelpRequested"),
    }
    match parse(&g, &args(&["-h"])) {
        Err(ParseError::HelpRequested { path }) => assert_eq!(path, vec![0]),
        _ => panic!("expected HelpRequested"),
    }
}

#[test]
fn help_error_carries_rendered_text() {
    let g = rm_grammar();
    let pe = match parse(&g, &args(&["-h"])) {
        Err(pe) => pe,
        _ => panic!("expected an error"),
    };
    let e = to_error(&g, pe);
    assert!(e.is_help());
    let rendered = render_help(&g, &vec![0]);
    assert_eq!(e.message(), &rendered);
}

#[test]
fn error_messages_name_offenders() {
    let g = rm_grammar();
    let pe = match parse(&g, &args(&["--nope", "x"])) {
        Err(pe) => pe,
        _ => panic!("expected an error"),
    };
    let e = to_error(&g, pe);
    assert!(!e.is_help());
    assert_eq!(e.message(), &b"unknown switch: --nope".to_vec());
}

#[test]
fn usage_switch_reparses_cleanly() {
    // the switch the usage line lists never comes back unknown
    let g = rm_grammar();
    match parse(&g, &args(&["-r"])) {
        Err(ParseError::UnknownSwitch { .. }) => panic!("usage switch unknown"),
        Err(ParseError::UnexpectedArgument { .. }) => panic!("usage switch unexpected"),
        _ => {},
    }
    match parse(&g, &args(&["--recursive"])) {
        Err(ParseError::UnknownSwitch { .. }) => panic!("usage switch unknown"),
        Err(ParseError::UnexpectedArgument { .. }) => panic!("usage switch unexpected"),
        _ => {},
    }
    match parse(&g, &args(&["<path>"])) {
        Err(ParseError::UnknownSwitch { .. }) => panic!("usage positional unknown"),
        Err(ParseError::UnexpectedArgument { .. }) => panic!("usage positional unexpected"),
        _ => {},
    }
}
