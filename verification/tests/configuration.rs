use dyndns::config::format_error;
use dyndns::config::parse_interval;
use dyndns::config::Config;

#[test]
fn parse_from_env_keeps_the_values() {
    let c = Config::parse_from_env(
        "myhost".to_string(),
        "example.com".to_string(),
        "hunter2".to_string(),
        "300".to_string(),
    );
    assert_eq!(c.host, "myhost");
    assert_eq!(c.domain, "example.com");
    assert_eq!(c.password, "hunter2");
    assert_eq!(c.interval, "300");
}

#[test]
fn interval_parses_plain_digits() {
    assert_eq!(parse_interval("300"), Some(300));
    assert_eq!(parse_interval("0"), Some(0));
    assert_eq!(parse_interval("007"), Some(7));
}

#[test]
fn interval_accepts_a_leading_plus() {
    assert_eq!(parse_interval("+60"), Some(60));
}

#[test]
fn interval_bounds() {
    assert_eq!(parse_interval("18446744073709551615"), Some(u64::MAX));
    assert_eq!(parse_interval("18446744073709551616"), None);
    assert_eq!(parse_interval("99999999999999999999999"), None);
}

#[test]
fn interval_rejects_what_is_no_number() {
    assert_eq!(parse_interval(""), None);
    assert_eq!(parse_interval("+"), None);
    assert_eq!(parse_interval("-1"), None);
    assert_eq!(parse_interval("12x"), None);
    assert_eq!(parse_interval("x12"), None);
    assert_eq!(parse_interval(" 12"), None);
    assert_eq!(parse_interval("1 2"), None);
}

#[test]
fn format_error_single_message() {
    assert_eq!(format_error(&vec!["boom".to_string()]), "- boom");
}

#[test]
fn format_error_chains_causes() {
    let msgs = vec![
        "could not open file (creds.txt)".to_string(),
        "No such file or directory (os error 2)".to_string(),
    ];
    assert_eq!(
        format_error(&msgs),
        "- could not open file (creds.txt), caused by\n - No such file or directory (os error 2)"
    );
}

#[test]
fn format_error_trims_trailing_blanks() {
    assert_eq!(format_error(&vec!["boom\n".to_string()]), "- boom");
    assert_eq!(format_error(&vec!["a".to_string(), "b \t".to_string()]), "- a, caused by\n - b");
}
