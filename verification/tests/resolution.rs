//! End-to-end tests of compilation and resolution.

use sortmail::address_map::{AddressMap, MailboxConfig};
use sortmail::text::{normalize_blob, normalize_line};

fn mailbox(name: &str, addresses: &[&str], patterns: &[&str]) -> MailboxConfig {
    MailboxConfig {
        name: name.to_string(),
        addresses: addresses.iter().map(|b| b.to_string()).collect(),
        patterns: patterns.iter().map(|b| b.to_string()).collect(),
    }
}

fn resolve(map: &AddressMap, address: &str) -> Option<String> {
    map.mailbox_name_for_address(&normalize_line(address))
}

#[test]
fn exact_and_pattern_scenario() {
    let config = vec![
        mailbox("Work", &["boss@co.com\n"], &[]),
        mailbox("Lists", &[], &["^list-.*@co\\.com$\n"]),
    ];
    let map = AddressMap::compile(&config).unwrap();
    assert_eq!(resolve(&map, "boss@co.com"), Some("Work".to_string()));
    assert_eq!(resolve(&map, "list-eng@co.com"), Some("Lists".to_string()));
    assert_eq!(resolve(&map, "random@co.com"), None);
}

#[test]
fn exact_match_beats_earlier_pattern() {
    let config = vec![
        mailbox("Patterns", &[], &["boss@"]),
        mailbox("Exact", &["boss@co.com"], &[]),
    ];
    let map = AddressMap::compile(&config).unwrap();
    assert_eq!(resolve(&map, "boss@co.com"), Some("Exact".to_string()));
    assert_eq!(resolve(&map, "boss@other.com"), Some("Patterns".to_string()));
}

#[test]
fn first_declared_pattern_wins() {
    let config = vec![
        mailbox("A", &[], &["^a@"]),
        mailbox("B", &[], &["@example\\.com$"]),
    ];
    let map = AddressMap::compile(&config).unwrap();
    assert_eq!(resolve(&map, "a@example.com"), Some("A".to_string()));
    assert_eq!(resolve(&map, "b@example.com"), Some("B".to_string()));
}

#[test]
fn normalization_is_case_insensitive() {
    let config = vec![mailbox("Personal", &["Alice@Example.com"], &[])];
    let map = AddressMap::compile(&config).unwrap();
    assert_eq!(resolve(&map, "alice@EXAMPLE.COM"), Some("Personal".to_string()));
    assert_eq!(resolve(&map, "Alice@Example.com"), Some("Personal".to_string()));
}

#[test]
fn pattern_sources_are_normalized_too() {
    let config = vec![mailbox("Lists", &[], &["  ^LIST-  \n"])];
    let map = AddressMap::compile(&config).unwrap();
    assert_eq!(resolve(&map, "list-eng@co.com"), Some("Lists".to_string()));
    assert_eq!(resolve(&map, "dev@co.com"), None);
}

#[test]
fn blank_lines_never_produce_rules() {
    let blob = "\n   \n a@b.c \n\n\t\n";
    assert_eq!(normalize_blob(blob), vec!["a@b.c".to_string()]);
    let config = vec![mailbox("Box", &[blob], &[])];
    let map = AddressMap::compile(&config).unwrap();
    assert_eq!(resolve(&map, "a@b.c"), Some("Box".to_string()));
    assert_eq!(resolve(&map, ""), None);
}

#[test]
fn no_matching_rule_is_no_match_not_an_error() {
    let config = vec![mailbox("Work", &["boss@co.com"], &["^list-"])];
    let map = AddressMap::compile(&config).unwrap();
    assert_eq!(resolve(&map, "stranger@elsewhere.org"), None);
}

#[test]
fn empty_configuration_matches_nothing() {
    let config: Vec<MailboxConfig> = Vec::new();
    let map = AddressMap::compile(&config).unwrap();
    assert_eq!(resolve(&map, "anyone@anywhere.net"), None);
}

#[test]
fn invalid_pattern_fails_compilation_naming_the_culprit() {
    let config = vec![
        mailbox("Fine", &[], &["^ok@"]),
        mailbox("Broken", &["kept@co.com"], &["(unclosed"]),
    ];
    let err = match AddressMap::compile(&config) {
        Ok(_) => panic!("compilation should fail on an invalid pattern"),
        Err(e) => e,
    };
    assert_eq!(err.mailbox, "Broken");
    assert_eq!(err.pattern, "(unclosed");
    assert!(!err.detail.is_empty());
}

#[test]
fn error_names_the_first_invalid_pattern() {
    let config = vec![
        mailbox("First", &[], &["("]),
        mailbox("Second", &[], &[")"]),
    ];
    let err = match AddressMap::compile(&config) {
        Ok(_) => panic!("compilation should fail on an invalid pattern"),
        Err(e) => e,
    };
    assert_eq!(err.mailbox, "First");
    assert_eq!(err.pattern, "(");
}

#[test]
fn later_mailbox_owns_a_duplicated_address() {
    let config = vec![
        mailbox("Earlier", &["shared@co.com"], &[]),
        mailbox("Later", &["shared@co.com"], &[]),
    ];
    let map = AddressMap::compile(&config).unwrap();
    assert_eq!(resolve(&map, "shared@co.com"), Some("Later".to_string()));
}

#[test]
fn compiling_twice_resolves_identically() {
    let config = vec![
        mailbox("Work", &["boss@co.com\nhr@co.com"], &["^payroll-"]),
        mailbox("Lists", &[], &["^list-.*@co\\.com$"]),
    ];
    let map1 = AddressMap::compile(&config).unwrap();
    let map2 = AddressMap::compile(&config).unwrap();
    let queries = [
        "boss@co.com",
        "hr@co.com",
        "payroll-march@co.com",
        "list-eng@co.com",
        "nobody@co.com",
        "",
    ];
    for q in queries {
        assert_eq!(resolve(&map1, q), resolve(&map2, q));
    }
}

#[test]
fn patterns_match_anywhere_unless_anchored() {
    let config = vec![mailbox("Co", &[], &["co\\.com"])];
    let map = AddressMap::compile(&config).unwrap();
    assert_eq!(resolve(&map, "user@co.com"), Some("Co".to_string()));
    assert_eq!(resolve(&map, "co.com@elsewhere.net"), Some("Co".to_string()));
    assert_eq!(resolve(&map, "user@cozcom.net"), None);
}

#[test]
fn multiline_blobs_route_every_entry() {
    let config = vec![mailbox("Team", &["a@x.com\nb@x.com", "c@x.com"], &[])];
    let map = AddressMap::compile(&config).unwrap();
    assert_eq!(resolve(&map, "a@x.com"), Some("Team".to_string()));
    assert_eq!(resolve(&map, "b@x.com"), Some("Team".to_string()));
    assert_eq!(resolve(&map, "c@x.com"), Some("Team".to_string()));
}
