use lsd::cli::{Cli, CliError};

#[test]
fn cli_parses_both_flags() {
    let argv = ["lsd", "--tree-columns", "--max-shown", "+15"];
    let cli = Cli::try_parse_from(&argv).unwrap();
    assert!(cli.tree_columns);
    assert_eq!(cli.max_shown, Some(15));
}

#[test]
fn cli_later_max_shown_wins() {
    let argv = ["lsd", "--max-shown", "2", "--max-shown=9"];
    let cli = Cli::try_parse_from(&argv).unwrap();
    assert_eq!(cli.max_shown, Some(9));
}

#[test]
fn cli_i64_limits() {
    let argv = ["lsd", "--max-shown", "-9223372036854775808"];
    assert_eq!(Cli::try_parse_from(&argv).unwrap().max_shown, Some(i64::MIN));
    let argv = ["lsd", "--max-shown", "9223372036854775807"];
    assert_eq!(Cli::try_parse_from(&argv).unwrap().max_shown, Some(i64::MAX));
    let argv = ["lsd", "--max-shown", "9223372036854775808"];
    match Cli::try_parse_from(&argv) {
        Err(CliError::InvalidValue(v)) => assert_eq!(v, "9223372036854775808"),
        _ => panic!("expected an invalid value"),
    }
}

#[test]
fn cli_missing_value() {
    let argv = ["lsd", "--max-shown"];
    match Cli::try_parse_from(&argv) {
        Err(CliError::MissingValue(v)) => assert_eq!(v, "--max-shown"),
        _ => panic!("expected a missing value"),
    }
}

#[test]
fn cli_invalid_values() {
    for bad in ["", "-", "+", "1a", "--3", "99999999999999999999999999"] {
        let argv = ["lsd", "--max-shown", bad];
        match Cli::try_parse_from(&argv) {
            Err(CliError::InvalidValue(v)) => assert_eq!(v, bad),
            _ => panic!("expected an invalid value for {bad:?}"),
        }
    }
    let argv = ["lsd", "--max-shown=x"];
    match Cli::try_parse_from(&argv) {
        Err(CliError::InvalidValue(v)) => assert_eq!(v, "x"),
        _ => panic!("expected an invalid value"),
    }
}

#[test]
fn cli_unknown_argument() {
    let argv = ["lsd", "--tree-column"];
    match Cli::try_parse_from(&argv) {
        Err(CliError::UnknownArgument(v)) => assert_eq!(v, "--tree-column"),
        _ => panic!("expected an unknown argument"),
    }
}

#[test]
fn cli_empty_argv() {
    let argv: [&str; 0] = [];
    let cli = Cli::try_parse_from(&argv).unwrap();
    assert_eq!(cli.max_shown, None);
    assert!(!cli.tree_columns);
}
