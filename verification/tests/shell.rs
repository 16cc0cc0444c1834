use arcanum::shell::{
    builtin_kind, extract_timeout, parse_args, parse_u64_str, repl_command, shell_tokenize, Builtin,
    ReplCommand,
};

fn words(ws: &[&str]) -> Vec<String> {
    ws.iter().map(|w| w.to_string()).collect()
}

#[test]
fn tokenize_plain_words() {
    assert_eq!(shell_tokenize("call ^test/echo hello"), words(&["call", "^test/echo", "hello"]));
    assert_eq!(shell_tokenize("  a \t b\n"), words(&["a", "b"]));
    assert!(shell_tokenize("").is_empty());
    assert!(shell_tokenize("   ").is_empty());
}

#[test]
fn quote_free_lines_split_on_whitespace() {
    for line in ["call ^test/echo hello", "  a \t b\n", "", "   ", "x\u{3000}y\u{2028}z", "\u{a0}lead trail\u{85}", "a\\b c"] {
        let expected: Vec<String> = line.split_whitespace().map(String::from).collect();
        assert_eq!(shell_tokenize(line), expected);
    }
}

#[test]
fn tokenize_quotes_and_escapes() {
    assert_eq!(
        shell_tokenize(r#"call ^a/b '{"x": 1}'"#),
        words(&["call", "^a/b", r#"{"x": 1}"#])
    );
    assert_eq!(shell_tokenize(r#""hello world" next"#), words(&["hello world", "next"]));
    assert_eq!(shell_tokenize(r#""say \"hi\"""#), words(&[r#"say "hi""#]));
    // an unterminated quote runs to the end of the line
    assert_eq!(shell_tokenize("'open ended"), words(&["open ended"]));
    // a quote inside a bare word is kept
    assert_eq!(shell_tokenize("it's"), words(&["it's"]));
    // an empty quoted string is a token
    assert_eq!(shell_tokenize("'' x"), words(&["", "x"]));
    // a trailing backslash in quotes is kept as is
    assert_eq!(shell_tokenize("'a\\"), words(&["a\\"]));
}

#[test]
fn timeout_options_are_taken_out() {
    let (t, rest) = extract_timeout(words(&["call", "--timeout", "5", "^a/b"]), 30);
    assert_eq!(t, 5);
    assert_eq!(rest, words(&["call", "^a/b"]));
    let (t, rest) = extract_timeout(words(&["call", "-t", "7", "^a/b"]), 30);
    assert_eq!(t, 7);
    assert_eq!(rest, words(&["call", "^a/b"]));
    let (t, rest) = extract_timeout(words(&["-t9", "call"]), 30);
    assert_eq!(t, 9);
    assert_eq!(rest, words(&["call"]));
    let (t, rest) = extract_timeout(words(&["call", "--timeout=12"]), 30);
    assert_eq!(t, 12);
    assert_eq!(rest, words(&["call"]));
}

#[test]
fn timeout_defaults_and_bad_values_stay() {
    let (t, rest) = extract_timeout(words(&["call", "^a/b"]), 30);
    assert_eq!(t, 30);
    assert_eq!(rest, words(&["call", "^a/b"]));
    let (t, rest) = extract_timeout(words(&["call", "-t", "soon"]), 30);
    assert_eq!(t, 30);
    assert_eq!(rest, words(&["call", "-t", "soon"]));
    let (t, rest) = extract_timeout(words(&["call", "--timeout"]), 30);
    assert_eq!(t, 30);
    assert_eq!(rest, words(&["call", "--timeout"]));
    let (t, rest) = extract_timeout(words(&["-tx", "--timeout=y"]), 30);
    assert_eq!(t, 30);
    assert_eq!(rest, words(&["-tx", "--timeout=y"]));
    // the last option wins
    let (t, _) = extract_timeout(words(&["-t", "1", "-t", "2"]), 30);
    assert_eq!(t, 2);
}

#[test]
fn parses_decimal_numbers() {
    assert_eq!(parse_u64_str("0"), Some(0));
    assert_eq!(parse_u64_str("42"), Some(42));
    assert_eq!(parse_u64_str("+5"), Some(5));
    assert_eq!(parse_u64_str("18446744073709551615"), Some(u64::MAX));
    assert_eq!(parse_u64_str("18446744073709551616"), None);
    assert_eq!(parse_u64_str(""), None);
    assert_eq!(parse_u64_str("+"), None);
    assert_eq!(parse_u64_str("-1"), None);
    assert_eq!(parse_u64_str("1a"), None);
    assert_eq!(parse_u64_str(" 1"), None);
}

#[test]
fn one_shot_commands() {
    assert_eq!(
        parse_args(&words(&["call", "^test/echo", "hello", "world"])),
        Some(("call".to_string(), "^test/echo".to_string(), "hello world".to_string()))
    );
    assert_eq!(
        parse_args(&words(&["NOTIFY", "^test/echo"])),
        Some(("notify".to_string(), "^test/echo".to_string(), String::new()))
    );
    assert_eq!(
        parse_args(&words(&["CaLl", "t", "{\"a\":1}"])),
        Some(("call".to_string(), "t".to_string(), "{\"a\":1}".to_string()))
    );
    assert_eq!(
        parse_args(&words(&["CALL", "^a/b", "x", "y"])),
        Some(("call".to_string(), "^a/b".to_string(), "x y".to_string()))
    );
    assert_eq!(parse_args(&words(&["call"])), None);
    assert_eq!(parse_args(&words(&["send", "t"])), None);
    assert_eq!(parse_args(&words(&[])), None);
}

#[test]
fn builtins() {
    assert_eq!(builtin_kind("exit"), Some(Builtin::Exit));
    assert_eq!(builtin_kind("QUIT"), Some(Builtin::Exit));
    assert_eq!(builtin_kind("Help"), Some(Builtin::Help));
    assert_eq!(builtin_kind("call"), None);
    assert_eq!(builtin_kind(" help"), None);
}

#[test]
fn repl_lines() {
    assert!(matches!(repl_command(&words(&[])), ReplCommand::Empty));
    match repl_command(&words(&["Frobnicate", "x"])) {
        ReplCommand::Unknown(t) => assert_eq!(t, "frobnicate"),
        _ => panic!("expected an unknown command"),
    }
    match repl_command(&words(&["call"])) {
        ReplCommand::Usage(t) => assert_eq!(t, "call"),
        _ => panic!("expected a usage message"),
    }
    match repl_command(&words(&["Notify", "^a/b", "1", "2"])) {
        ReplCommand::Send(t, g, d) => {
            assert_eq!(t, "notify");
            assert_eq!(g, "^a/b");
            assert_eq!(d, "1 2");
        }
        _ => panic!("expected a message to send"),
    }
}
