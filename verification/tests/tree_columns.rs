use lsd::cli::Cli;
use lsd::config_file::Config;
use lsd::flags::tree_columns::TreeColumns;

#[test]
fn tree_columns_test_from_cli_none() {
    let argv = ["lsd"];
    let cli = Cli::try_parse_from(&argv).unwrap();
    assert_eq!(None, TreeColumns::from_cli(&cli));
}

#[test]
fn tree_columns_test_from_cli_some() {
    let argv = ["lsd", "--tree-columns"];
    let cli = Cli::try_parse_from(&argv).unwrap();
    assert_eq!(Some(TreeColumns(true)), TreeColumns::from_cli(&cli));
}

#[test]
fn tree_columns_test_from_config_none() {
    assert_eq!(None, TreeColumns::from_config(&Config::with_none()));
}

#[test]
fn tree_columns_test_from_config_some() {
    let mut c = Config::with_none();
    c.tree_columns = Some(true);
    assert_eq!(Some(TreeColumns(true)), TreeColumns::from_config(&c));
}

#[test]
fn tree_columns_test_default() {
    assert_eq!(TreeColumns(false), TreeColumns::default());
}

#[test]
fn tree_columns_test_configure_from_cli_takes_precedence() {
    let argv = ["lsd", "--tree-columns"];
    let cli = Cli::try_parse_from(&argv).unwrap();
    let mut c = Config::with_none();
    c.tree_columns = Some(false);
    assert_eq!(TreeColumns(true), TreeColumns::configure_from(&cli, &c));
}

#[test]
fn tree_columns_test_configure_from_config_fallback() {
    let argv = ["lsd"];
    let cli = Cli::try_parse_from(&argv).unwrap();
    let mut c = Config::with_none();
    c.tree_columns = Some(true);
    assert_eq!(TreeColumns(true), TreeColumns::configure_from(&cli, &c));
}

#[test]
fn tree_columns_config_false_stays_false() {
    let argv = ["lsd"];
    let cli = Cli::try_parse_from(&argv).unwrap();
    let mut c = Config::with_none();
    c.tree_columns = Some(false);
    assert_eq!(TreeColumns(false), TreeColumns::configure_from(&cli, &c));
}
