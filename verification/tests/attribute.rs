use std::collections::VecDeque;

use stuck::attribute::{generate, parse_config, Arg, ConfigError, Configuration, GenerateError, Lit};

fn named(name: &str, lit: Lit) -> Arg {
    Arg::NameValue { name: Some(String::from(name)), lit }
}

fn text(text: &str) -> Lit {
    Lit::Str(String::from(text))
}

fn integer(text: &str) -> Lit {
    Lit::Int(String::from(text))
}

fn parse(args: Vec<Arg>) -> Result<(String, usize), String> {
    match parse_config(VecDeque::from(args)) {
        Ok(config) => {
            let generated = generate(true, config, false, &String::from("f")).ok().unwrap();
            assert!(generated.is_test);
            Ok((generated.crate_name, generated.parallelism))
        }
        Err(err) => Err(err.message()),
    }
}

#[test]
fn configuration_of_attributes() {
    assert_eq!(parse(vec![]), Ok((String::from("stuck"), 0)));
    assert_eq!(parse(vec![named("parallelism", integer("1"))]), Ok((String::from("stuck"), 1)));
    assert_eq!(parse(vec![named("crate", text("crate"))]), Ok((String::from("crate"), 0)));
    assert_eq!(
        parse(vec![named("crate", text(" renamed ")), named("parallelism", integer("0x1_0usize"))]),
        Ok((String::from("renamed"), 16))
    );
}

#[test]
fn refused_attributes() {
    let refused = |args| parse(args).unwrap_err();
    assert_eq!(refused(vec![named("crate", text("a")), named("crate", text("b"))]), "crate name already set");
    assert_eq!(refused(vec![named("crate", text("a::b"))]), "invalid crate name: a::b");
    assert_eq!(refused(vec![named("crate", text("1a"))]), "invalid crate name: 1a");
    assert_eq!(refused(vec![named("crate", integer("1"))]), "invalid crate name");
    assert_eq!(refused(vec![named("parallelism", integer("1")), named("parallelism", integer("2"))]), "parallelism already set");
    assert_eq!(refused(vec![named("parallelism", integer("0"))]), "parallelism should be positive integer");
    assert_eq!(refused(vec![named("parallelism", text("1"))]), "parallelism should be positive integer");
    assert_eq!(refused(vec![named("parallelism", Lit::Other)]), "parallelism should be positive integer");
    assert_eq!(
        refused(vec![named("parallelism", integer("99999999999999999999999"))]),
        "number too large to fit in target type"
    );
    assert_eq!(refused(vec![Arg::NameValue { name: None, lit: Lit::Other }]), "invalid attribute name");
    assert_eq!(refused(vec![named("threads", integer("1"))]), "unknown attribute name");
    assert_eq!(refused(vec![Arg::Other]), "unknown attribute");
    // The first that is refused counts.
    assert_eq!(refused(vec![Arg::Other, named("threads", integer("1"))]), "unknown attribute");
}

#[test]
fn spellings_of_parallelism() {
    let parallelism = |spelling: &str| parse(vec![named("parallelism", integer(spelling))]).map(|(_, n)| n);
    for (spelling, n) in [("7", 7), ("1_000", 1000), ("0b11", 3), ("0o17u8", 15), ("0xfF_", 255), ("0_x1", 0), ("2foo", 2), ("4\u{e9}", 4), ("3e", 3), ("3e_x5", 3), ("0b1e5", 1), ("0x1e5\u{e9}", 0x1e5)] {
        let expected = if n > 0 { Ok(n) } else { Err(String::from("parallelism should be positive integer")) };
        assert_eq!(parallelism(spelling), expected);
    }
    assert_eq!(parallelism("-1").unwrap_err(), "invalid digit found in string");
    assert_eq!(parallelism("-1\u{e9}").unwrap_err(), "invalid digit found in string");
    let nested = "(".repeat(100_000);
    for spelling in ["", "-", "c\"x\"", "\"1\"", "1e5", "1E_5", "1e5\u{e9}", "1.0", "0x", "0b12", "0o_", "1 2", "- 1", "+1", "_1", "'a'", nested.as_str()] {
        assert_eq!(parallelism(spelling).unwrap_err(), "parallelism should be positive integer");
    }
}

#[test]
fn spellings_of_crate_name() {
    let crate_name = |spelling: &str| parse(vec![named("crate", text(spelling))]).map(|(name, _)| name);
    for spelling in ["stuck", "\tstuck\n", "_stuck2", "self", "super"] {
        assert_eq!(crate_name(spelling), Ok(String::from(spelling.trim())));
    }
    assert_eq!(crate_name("r#try"), Ok(String::from("r#try")));
    assert_eq!(crate_name(" r#fn "), Ok(String::from("r#fn")));
    assert_eq!(crate_name("crate"), Ok(String::from("crate")));
    assert_eq!(crate_name("async"), Ok(String::from("async")));
    // Identifiers need not be ASCII.
    assert_eq!(crate_name("\u{e9}"), Ok(String::from("\u{e9}")));
    assert_eq!(crate_name("r#\u{e9}2"), Ok(String::from("r#\u{e9}2")));
    // Comments are skipped.
    assert_eq!(crate_name("stuck // the crate's (own) name"), Ok(String::from("stuck")));
    assert_eq!(crate_name("/* a /* \"nested\" */ [comment */ stuck"), Ok(String::from("stuck")));
    assert_eq!(crate_name("// <first>\nstuck"), Ok(String::from("stuck")));
    let nested = "(".repeat(100_000);
    for spelling in [
        "", " ", "fn", "_", "a b", "::a", "a::", "a<c\"x\">", "a<b>", "c\"x\"", "1", "r#crate", "r#_", "r#1", "r#", "r##a",
        "a-b", "#a", "_", "Self2::a", "yield", "\u{2603}", "\u{e9} a", "/* a", "a /** b */", "a */ (b)", "// a\n(b)", "a / b",
        nested.as_str(),
    ] {
        assert_eq!(crate_name(spelling), Err(format!("invalid crate name: {}", spelling)));
    }
}

#[test]
fn settings_after_parsing() {
    let mut config = Configuration::default();
    assert!(config.set_ident(String::from("a b"), None).is_err());
    assert!(config.set_ident(String::from("a"), Some(String::from("a"))).is_ok());
    assert!(matches!(config.set_crate_name(text("b")), Err(ConfigError::CrateNameSet)));
    assert!(matches!(config.set_number(None), Err(ConfigError::NoParallelism)));
    assert!(matches!(config.set_number(Some(Ok(0))), Err(ConfigError::NoParallelism)));
    assert!(matches!(config.set_number(Some(Err(String::from("no")))), Err(ConfigError::InvalidParallelism(_))));
    assert!(config.set_number(Some(Ok(3))).is_ok());
    assert!(matches!(config.set_parallelism(integer("4")), Err(ConfigError::ParallelismSet)));
    let generated = generate(false, config, false, &String::from("main")).ok().unwrap();
    assert!(!generated.is_test);
    assert_eq!((generated.crate_name.as_str(), generated.parallelism), ("a", 3));
}

#[test]
fn refused_functions() {
    let refused = |is_test, asynchronous, name: &str| {
        generate(is_test, Configuration::default(), asynchronous, &String::from(name)).err().map(|err| err.message())
    };
    assert_eq!(refused(true, false, "f"), None);
    assert_eq!(refused(false, false, "main"), None);
    assert_eq!(
        refused(true, true, "f").as_deref(),
        Some("only synchronous function can be tagged with #[stuck::test]")
    );
    assert_eq!(
        refused(false, true, "f").as_deref(),
        Some("only synchronous function can be tagged with #[stuck::main]")
    );
    assert_eq!(
        refused(false, false, "f").as_deref(),
        Some("only the main function can be tagged with #[stuck::main]")
    );
    assert_eq!(GenerateError::NotMain.message(), "only the main function can be tagged with #[stuck::main]");
}
