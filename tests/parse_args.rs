use cdup::cli::{parse_args, parse_positional, ArgError, RuleType};

fn strings(items: &[&str]) -> Vec<String> {
    items.iter().map(|s| String::from(*s)).collect()
}

#[test]
fn test_parse_args() {
    let args = vec![String::from("bin"), String::from("/hello/world")];
    let cli = parse_args(&args).unwrap();
    assert_eq!(cli.fromdir.to_bytes(), "/hello/world".as_bytes());
    assert!(matches!(cli.subsequent_dir, None));
    assert_eq!(cli.list, false);
    assert!(matches!(cli.rule_type, RuleType::N));
    assert_eq!(cli.rule_value, "1");

    let args = vec![
        String::from("bin"),
        String::from("/hello/world"),
        String::from("-gP*s"),
    ];
    let cli = parse_args(&args).unwrap();
    assert_eq!(cli.fromdir.to_bytes(), "/hello/world".as_bytes());
    assert!(matches!(cli.subsequent_dir, None));
    assert_eq!(cli.list, false);
    assert!(matches!(cli.rule_type, RuleType::Glob));
    assert_eq!(cli.rule_value, "P*s");

    let args = vec![
        String::from("bin"),
        String::from("/hello/world"),
        String::from("-E"),
        String::from("P"),
        String::from("-sagain"),
        String::from("-l"),
    ];
    let cli = parse_args(&args).unwrap();
    assert_eq!(cli.fromdir.to_bytes(), "/hello/world".as_bytes());
    assert!(matches!(cli.subsequent_dir.as_deref(), Some("again")));
    assert_eq!(cli.list, true);
    assert!(matches!(cli.rule_type, RuleType::Regex));
    assert_eq!(cli.rule_value, "P");

    let args = vec![
        String::from("bin"),
        String::from("/hello/world"),
        String::from("--xxx"),
    ];
    let cli = parse_args(&args).unwrap();
    assert_eq!(cli.fromdir.to_bytes(), "/hello/world".as_bytes());
    assert!(matches!(cli.subsequent_dir, None));
    assert_eq!(cli.list, false);
    assert!(matches!(cli.rule_type, RuleType::Raw));
    assert_eq!(cli.rule_value, "--xxx");

    let args = vec![
        String::from("bin"),
        String::from("/hello/world"),
        String::from("--"),
        String::from("-s"),
    ];
    let cli = parse_args(&args).unwrap();
    assert_eq!(cli.fromdir.to_bytes(), "/hello/world".as_bytes());
    assert!(matches!(cli.subsequent_dir, None));
    assert_eq!(cli.list, false);
    assert!(matches!(cli.rule_type, RuleType::Raw));
    assert_eq!(cli.rule_value, "-s");

    let args = vec![
        String::from("bin"),
        String::from("/hello/world"),
        String::from("-r-sagain"),
        String::from("-s"),
        String::from("from"),
    ];
    let cli = parse_args(&args).unwrap();
    assert_eq!(cli.fromdir.to_bytes(), "/hello/world".as_bytes());
    assert!(matches!(cli.subsequent_dir.as_deref(), Some("from")));
    assert_eq!(cli.list, false);
    assert!(matches!(cli.rule_type, RuleType::Raw));
    assert_eq!(cli.rule_value, "-sagain");
}

#[test]
fn parse_args_level_count() {
    let cli = parse_args(&strings(&["bin", "/a/b/c", "-2"])).unwrap();
    assert!(matches!(cli.rule_type, RuleType::N));
    assert_eq!(cli.rule_value, "2");

    // A dash followed by something other than digits is a name.
    let cli = parse_args(&strings(&["bin", "/a", "-2x"])).unwrap();
    assert!(matches!(cli.rule_type, RuleType::Raw));
    assert_eq!(cli.rule_value, "-2x");

    let cli = parse_args(&strings(&["bin", "/a", "-"])).unwrap();
    assert!(matches!(cli.rule_type, RuleType::Raw));
    assert_eq!(cli.rule_value, "-");
}

#[test]
fn parse_args_separate_values() {
    let cli = parse_args(&strings(&["bin", "/a", "-g", "x*", "-s", "d"])).unwrap();
    assert!(matches!(cli.rule_type, RuleType::Glob));
    assert_eq!(cli.rule_value, "x*");
    assert_eq!(cli.subsequent_dir.as_deref(), Some("d"));

    let cli = parse_args(&strings(&["bin", "/a", "-r", "-l"])).unwrap();
    assert!(matches!(cli.rule_type, RuleType::Raw));
    assert_eq!(cli.rule_value, "-l");
    assert_eq!(cli.list, false);
}

#[test]
fn parse_args_errors() {
    assert_eq!(parse_args(&strings(&["bin", "/a", "-h"])).err(), Some(ArgError::Help));
    assert_eq!(
        parse_args(&strings(&["bin", "/a", "x", "--help"])).err(),
        Some(ArgError::Help)
    );
    assert_eq!(parse_args(&strings(&["bin"])).err(), Some(ArgError::MissingArgument));
    assert_eq!(parse_args(&strings(&["bin", "a/b"])).err(), Some(ArgError::NotAbsolute));
    assert_eq!(parse_args(&strings(&["bin", "/a", "-s"])).err(), Some(ArgError::MissingDir));
    assert_eq!(parse_args(&strings(&["bin", "/a", "-r"])).err(), Some(ArgError::MissingName));
    assert_eq!(parse_args(&strings(&["bin", "/a", "-g"])).err(), Some(ArgError::MissingPattern));
    assert_eq!(parse_args(&strings(&["bin", "/a", "-E"])).err(), Some(ArgError::MissingRegex));
    assert_eq!(
        parse_args(&strings(&["bin", "/a", "x", "y"])).err(),
        Some(ArgError::RuleRepeated)
    );
    // After `--` help is a name like any other.
    let cli = parse_args(&strings(&["bin", "/a", "--", "-h"])).unwrap();
    assert!(matches!(cli.rule_type, RuleType::Raw));
    assert_eq!(cli.rule_value, "-h");
}

#[test]
fn parse_positional_forms() {
    let cli = parse_positional(&strings(&["bin", "/hello/world", "glob", "wo*", ""])).unwrap();
    assert_eq!(cli.fromdir.to_bytes(), "/hello/world".as_bytes());
    assert!(matches!(cli.rule_type, RuleType::Glob));
    assert_eq!(cli.rule_value, "wo*");
    assert!(cli.subsequent_dir.is_none());

    let cli = parse_positional(&strings(&["bin", "/x", "git", "", "sub*"])).unwrap();
    assert!(matches!(cli.rule_type, RuleType::Git));
    assert_eq!(cli.subsequent_dir.as_deref(), Some("sub*"));

    assert_eq!(
        parse_positional(&strings(&["bin", "/x", "n", "1"])).err(),
        Some(ArgError::MissingArgument)
    );
    assert_eq!(
        parse_positional(&strings(&["bin", "x", "n", "1", ""])).err(),
        Some(ArgError::NotAbsolute)
    );
    assert_eq!(
        parse_positional(&strings(&["bin", "/x", "nope", "1", ""])).err(),
        Some(ArgError::UnknownRule)
    );
}
