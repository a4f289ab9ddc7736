use lsd::cli::Cli;
use lsd::config_file::Config;
use lsd::flags::max_shown::MaxShown;

#[test]
fn max_shown_test_from_cli_none() {
    let argv = ["lsd"];
    let cli = Cli::try_parse_from(&argv).unwrap();
    assert_eq!(None, MaxShown::from_cli(&cli));
}

#[test]
fn max_shown_test_from_cli_some() {
    let argv = ["lsd", "--max-shown", "3"];
    let cli = Cli::try_parse_from(&argv).unwrap();
    assert_eq!(Some(MaxShown::Count(3)), MaxShown::from_cli(&cli));
}

#[test]
fn test_from_cli_zero_is_count() {
    let argv = ["lsd", "--max-shown", "0"];
    let cli = Cli::try_parse_from(&argv).unwrap();
    assert_eq!(Some(MaxShown::Count(0)), MaxShown::from_cli(&cli));
}

#[test]
fn test_from_cli_negative_is_auto() {
    let argv = ["lsd", "--max-shown", "-1"];
    let cli = Cli::try_parse_from(&argv).unwrap();
    assert_eq!(Some(MaxShown::Auto), MaxShown::from_cli(&cli));
}

#[test]
fn test_from_cli_large_negative_is_auto() {
    let argv = ["lsd", "--max-shown", "-42"];
    let cli = Cli::try_parse_from(&argv).unwrap();
    assert_eq!(Some(MaxShown::Auto), MaxShown::from_cli(&cli));
}

#[test]
fn max_shown_test_from_config_none() {
    assert_eq!(None, MaxShown::from_config(&Config::with_none()));
}

#[test]
fn max_shown_test_from_config_some() {
    let mut c = Config::with_none();
    c.max_shown = Some(5);
    assert_eq!(Some(MaxShown::Count(5)), MaxShown::from_config(&c));
}

#[test]
fn test_from_config_negative_is_auto() {
    let mut c = Config::with_none();
    c.max_shown = Some(-1);
    assert_eq!(Some(MaxShown::Auto), MaxShown::from_config(&c));
}

#[test]
fn max_shown_test_default() {
    assert_eq!(MaxShown::Unset, MaxShown::default());
}

#[test]
fn max_shown_test_configure_from_cli_takes_precedence() {
    let argv = ["lsd", "--max-shown", "7"];
    let cli = Cli::try_parse_from(&argv).unwrap();
    let mut c = Config::with_none();
    c.max_shown = Some(2);
    assert_eq!(MaxShown::Count(7), MaxShown::configure_from(&cli, &c));
}

#[test]
fn max_shown_test_configure_from_config_fallback() {
    let argv = ["lsd"];
    let cli = Cli::try_parse_from(&argv).unwrap();
    let mut c = Config::with_none();
    c.max_shown = Some(4);
    assert_eq!(MaxShown::Count(4), MaxShown::configure_from(&cli, &c));
}

#[test]
fn test_resolve_unset_returns_none() {
    assert_eq!(None, MaxShown::Unset.resolve(9));
}

#[test]
fn test_resolve_auto_uses_top_count() {
    assert_eq!(Some(9), MaxShown::Auto.resolve(9));
    assert_eq!(Some(0), MaxShown::Auto.resolve(0));
}

#[test]
fn test_resolve_count_ignores_top_count() {
    assert_eq!(Some(3), MaxShown::Count(3).resolve(9));
}

#[test]
fn test_is_set() {
    assert!(!MaxShown::Unset.is_set());
    assert!(MaxShown::Auto.is_set());
    assert!(MaxShown::Count(0).is_set());
    assert!(MaxShown::Count(5).is_set());
}

#[test]
fn max_shown_configure_default_when_both_silent() {
    let argv = ["lsd"];
    let cli = Cli::try_parse_from(&argv).unwrap();
    assert_eq!(MaxShown::Unset, MaxShown::configure_from(&cli, &Config::with_none()));
}

#[test]
fn max_shown_negative_cli_overrides_positive_config() {
    let argv = ["lsd", "--max-shown=-3"];
    let cli = Cli::try_parse_from(&argv).unwrap();
    let mut c = Config::with_none();
    c.max_shown = Some(4);
    assert_eq!(MaxShown::Auto, MaxShown::configure_from(&cli, &c));
}

#[test]
fn max_shown_from_signed_values() {
    assert_eq!(MaxShown::Auto, lsd::flags::max_shown::from_signed(i64::MIN));
    assert_eq!(MaxShown::Count(0), lsd::flags::max_shown::from_signed(0));
    assert_eq!(MaxShown::Count(12), lsd::flags::max_shown::from_signed(12));
}
