use virting_ublk_drbd_demo::cli::{
    hex, parse_command, parse_u64, same_text, CliError, Command, CommandError, Flags,
    IntParseError,
};

fn args(list: &[&str]) -> Vec<String> {
    list.iter().map(|s| s.to_string()).collect()
}

#[test]
fn flags_parse_values_and_switches() {
    let flags = Flags::parse(&args(&["--target", "a", "--full", "--target", "b"])).unwrap();
    assert_eq!(flags.optional("target"), Some("b".to_string()));
    assert!(flags.has("full"));
    assert!(!flags.has("target"));
    assert_eq!(flags.optional("len"), None);
    match flags.required("len") {
        Err(CliError::MissingFlag { name }) => assert_eq!(name, "len"),
        _ => panic!("expected a missing flag"),
    }
    assert_eq!(flags.optional_u64("nope").unwrap(), None);
}

#[test]
fn flags_refuse_positional_and_missing_value() {
    match Flags::parse(&args(&["target"])) {
        Err(CliError::UnexpectedPositional { arg }) => assert_eq!(arg, "target"),
        _ => panic!("expected a refusal"),
    }
    match Flags::parse(&args(&["--offset"])) {
        Err(CliError::MissingValue { name }) => assert_eq!(name, "offset"),
        _ => panic!("expected a refusal"),
    }
    match Flags::parse(&args(&["-x", "1"])) {
        Err(CliError::UnexpectedPositional { arg }) => assert_eq!(arg, "-x"),
        _ => panic!("expected a refusal"),
    }
}

#[test]
fn integers_parse_like_std() {
    assert_eq!(parse_u64("42", "len").unwrap(), 42);
    assert_eq!(parse_u64("+7", "len").unwrap(), 7);
    assert_eq!(parse_u64("18446744073709551615", "len").unwrap(), u64::MAX);
    let kind = |s: &str| match parse_u64(s, "len") {
        Err(CliError::InvalidInteger { kind, flag, value }) => {
            assert_eq!(flag, "len");
            assert_eq!(value, s);
            kind
        }
        _ => panic!("expected an error"),
    };
    assert_eq!(kind(""), IntParseError::Empty);
    assert_eq!(kind("12a"), IntParseError::InvalidDigit);
    assert_eq!(kind("-1"), IntParseError::InvalidDigit);
    assert_eq!(kind("+"), IntParseError::InvalidDigit);
    assert_eq!(kind("18446744073709551616"), IntParseError::PosOverflow);
}

#[test]
fn commands_parse() {
    match parse_command(&args(&["secondary", "--listen", "127.0.0.1:7001", "--backing", "/tmp/s.img"])).unwrap() {
        Command::Secondary { listen, backing, size_mib, block_size } => {
            assert_eq!(listen, "127.0.0.1:7001");
            assert_eq!(backing, "/tmp/s.img");
            assert_eq!(size_mib, 64);
            assert_eq!(block_size, 4096);
        }
        _ => panic!("expected secondary"),
    }
    match parse_command(&args(&[
        "primary", "--listen", "a", "--peer", "b", "--backing", "c", "--size-mib", "8",
    ]))
    .unwrap()
    {
        Command::Primary { listen, peer, backing, bitmap, size_mib, block_size } => {
            assert_eq!((listen.as_str(), peer.as_str(), backing.as_str()), ("a", "b", "c"));
            assert_eq!(bitmap, None);
            assert_eq!((size_mib, block_size), (8, 4096));
        }
        _ => panic!("expected primary"),
    }
    match parse_command(&args(&["write", "--target", "t", "--data", "hello vrbd"])).unwrap() {
        Command::Write { target, offset, data } => {
            assert_eq!((target.as_str(), offset, data.as_str()), ("t", 0, "hello vrbd"));
        }
        _ => panic!("expected write"),
    }
    match parse_command(&args(&["read", "--target", "t", "--offset", "4096", "--len", "13"])).unwrap() {
        Command::Read { target, offset, len } => assert_eq!((target.as_str(), offset, len), ("t", 4096, 13)),
        _ => panic!("expected read"),
    }
    match parse_command(&args(&["resync", "--target", "t", "--full"])).unwrap() {
        Command::Resync { full, .. } => assert!(full),
        _ => panic!("expected resync"),
    }
    assert!(matches!(parse_command(&args(&["status", "--target", "t"])).unwrap(), Command::Status { .. }));
    assert!(matches!(parse_command(&args(&["checksum", "--target", "t"])).unwrap(), Command::Checksum { .. }));
    assert!(matches!(parse_command(&args(&["demo"])).unwrap(), Command::Demo { dir: None }));
    assert!(matches!(parse_command(&args(&[])).unwrap(), Command::Help));
    assert!(matches!(parse_command(&args(&["--help"])).unwrap(), Command::Help));
    assert!(matches!(parse_command(&args(&["help", "whatever"])).unwrap(), Command::Help));
}

#[test]
fn command_errors() {
    let pairs = |e: &CommandError| {
        e.addresses
            .iter()
            .map(|(f, t)| (f.clone(), t.clone()))
            .collect::<Vec<(String, String)>>()
    };
    let p = |f: &str, t: &str| (f.to_string(), t.to_string());
    match parse_command(&args(&["frobnicate"])) {
        Err(CommandError { addresses, error: CliError::UnknownCommand { command } }) => {
            assert_eq!(command, "frobnicate");
            assert!(addresses.is_empty());
        }
        _ => panic!("expected unknown command"),
    }
    match parse_command(&args(&["read", "--target", "t"])) {
        Err(e) => {
            assert_eq!(pairs(&e), vec![p("target", "t")]);
            assert!(matches!(e.error, CliError::MissingFlag { ref name } if name == "len"));
        }
        _ => panic!("expected missing len"),
    }
    match parse_command(&args(&["read", "--target", "t", "--len", "ten"])) {
        Err(e) => assert!(matches!(e.error, CliError::InvalidInteger { ref flag, .. } if flag == "len")),
        _ => panic!("expected invalid len"),
    }
    match parse_command(&args(&["primary", "--listen", "a"])) {
        Err(e) => {
            assert!(e.addresses.is_empty());
            assert!(matches!(e.error, CliError::MissingFlag { ref name } if name == "backing"));
        }
        _ => panic!("expected missing backing"),
    }
    match parse_command(&args(&["primary", "--listen", "a", "--backing", "b"])) {
        Err(e) => {
            assert_eq!(pairs(&e), vec![p("listen", "a")]);
            assert!(matches!(e.error, CliError::MissingFlag { ref name } if name == "peer"));
        }
        _ => panic!("expected missing peer"),
    }
    match parse_command(&args(&[
        "primary", "--listen", "a", "--backing", "b", "--peer", "c", "--block-size", "x",
    ])) {
        Err(e) => {
            assert_eq!(pairs(&e), vec![p("listen", "a"), p("peer", "c")]);
            assert!(matches!(e.error, CliError::InvalidInteger { .. }));
        }
        _ => panic!("expected invalid block size"),
    }
    match parse_command(&args(&["secondary", "--listen", "bad", "--size-mib", "x"])) {
        Err(e) => {
            assert_eq!(pairs(&e), vec![p("listen", "bad")]);
            assert!(matches!(e.error, CliError::MissingFlag { ref name } if name == "backing"));
        }
        _ => panic!("expected missing backing"),
    }
    match parse_command(&args(&["status"])) {
        Err(e) => {
            assert!(e.addresses.is_empty());
            assert!(matches!(e.error, CliError::MissingFlag { ref name } if name == "target"));
        }
        _ => panic!("expected missing target"),
    }
}

#[test]
fn hex_is_lowercase_pairs() {
    assert_eq!(hex(b""), "");
    assert_eq!(hex(&[0x00, 0x0f, 0xa5, 0xff]), "000fa5ff");
    assert_eq!(hex(b"hi"), "6869");
}

#[test]
fn text_comparison() {
    assert!(same_text("full", "full"));
    assert!(!same_text("full", "ful"));
    assert!(!same_text("größe", "grosse"));
}

#[test]
fn integer_errors_match_std() {
    let samples = [
        "", "+", "-", "0", "+0", "-0", "007", "12a", "a12", "+-1", "-1", "1 ", " 1",
        "18446744073709551615", "18446744073709551616", "99999999999999999999x",
        "1844674407370955161x", "000000000000000000000000001", "+18446744073709551615",
        "٣", "1_000", "++1",
    ];
    for s in samples {
        let ours = parse_u64(s, "n");
        match s.parse::<u64>() {
            Ok(v) => assert_eq!(ours.unwrap(), v, "{s:?}"),
            Err(e) => {
                let kind = match e.kind() {
                    std::num::IntErrorKind::Empty => IntParseError::Empty,
                    std::num::IntErrorKind::InvalidDigit => IntParseError::InvalidDigit,
                    std::num::IntErrorKind::PosOverflow => IntParseError::PosOverflow,
                    other => panic!("unexpected kind {other:?}"),
                };
                match ours {
                    Err(CliError::InvalidInteger { kind: k, .. }) => assert_eq!(k, kind, "{s:?}"),
                    _ => panic!("{s:?} should be refused"),
                }
            }
        }
    }
}
