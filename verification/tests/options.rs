use phrep::query::ConfigError;
use phrep::query::Query;
use phrep::query::SearchMode;
use phrep::query::mode_of;
use phrep::query::parse_exclude_set;
use phrep::query::validate_options;

#[test]
fn empty_query_rejected() {
    let r = Query::new(String::new());
    assert_eq!(r.unwrap_err(), ConfigError::EmptyQuery);
}

#[test]
fn bad_pattern_rejected() {
    let r = Query::new("[unclosed".to_string());
    assert_eq!(r.unwrap_err(), ConfigError::InvalidPattern);
}

#[test]
fn good_patterns_accepted() {
    assert!(Query::new("needle".to_string()).is_ok());
    assert!(Query::new("ne+dle".to_string()).is_ok());
}

#[test]
fn exclude_list_parsing() {
    let v = parse_exclude_set("vendor,cache,logs").unwrap();
    assert_eq!(v, vec!["vendor", "cache", "logs"]);
    let v = parse_exclude_set(" a , b ").unwrap();
    assert_eq!(v, vec!["a", "b"]);
    assert_eq!(parse_exclude_set("a,,b").unwrap_err(), ConfigError::InvalidExcludeList);
    assert_eq!(parse_exclude_set("").unwrap_err(), ConfigError::InvalidExcludeList);
    assert_eq!(parse_exclude_set("a, ,b").unwrap_err(), ConfigError::InvalidExcludeList);
}

#[test]
fn mode_selection() {
    assert_eq!(mode_of(false, false), SearchMode::Basic);
    assert_eq!(mode_of(true, false), SearchMode::Grep);
    assert_eq!(mode_of(false, true), SearchMode::NameSearch);
    assert_eq!(mode_of(true, true), SearchMode::Grep);
}

#[test]
fn option_validation() {
    assert!(validate_options("q", false, false, false, "vendor").is_ok());
    assert_eq!(
        validate_options("", false, false, false, "vendor").unwrap_err(),
        ConfigError::EmptyQuery
    );
    assert_eq!(
        validate_options("q", true, true, false, "vendor").unwrap_err(),
        ConfigError::ConflictingModes
    );
    assert_eq!(
        validate_options("q", true, false, true, "vendor").unwrap_err(),
        ConfigError::ConflictingModes
    );
    assert_eq!(
        validate_options("q", false, true, true, "vendor").unwrap_err(),
        ConfigError::ConflictingModes
    );
    assert_eq!(
        validate_options("q", false, false, false, "a,,b").unwrap_err(),
        ConfigError::InvalidExcludeList
    );
}
