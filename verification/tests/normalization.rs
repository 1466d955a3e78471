//! Unit tests of blob and line normalization.

use sortmail::text::{normalize_blob, normalize_line};

#[test]
fn lines_are_trimmed_and_lowercased() {
    assert_eq!(normalize_line("  MiXeD@Co.COM \t"), "mixed@co.com");
    assert_eq!(normalize_line("plain@co.com"), "plain@co.com");
    assert_eq!(normalize_line("\r\n UPPER@CO.COM \r\n"), "upper@co.com");
}

#[test]
fn empty_and_blank_lines_normalize_to_empty() {
    assert_eq!(normalize_line(""), "");
    assert_eq!(normalize_line("   \t  "), "");
}

#[test]
fn blobs_split_on_newlines() {
    assert_eq!(
        normalize_blob("a@x.com\nb@x.com\n"),
        vec!["a@x.com".to_string(), "b@x.com".to_string()]
    );
    assert_eq!(
        normalize_blob("A@X.COM\n\n  b@x.com  "),
        vec!["a@x.com".to_string(), "b@x.com".to_string()]
    );
}

#[test]
fn unicode_whitespace_is_trimmed() {
    assert_eq!(normalize_line("\u{a0}\u{2003}A@B.C\u{a0}\u{3000}"), "a@b.c");
    assert_eq!(normalize_line("\u{a0}\u{2009}\u{205f}"), "");
}

#[test]
fn unicode_blank_lines_never_become_rules() {
    assert_eq!(
        normalize_blob("\u{a0}\u{a0}\na@b.c\n\u{2028}\u{85}\n"),
        vec!["a@b.c".to_string()]
    );
}

#[test]
fn carriage_returns_are_trimmed_from_split_lines() {
    assert_eq!(
        normalize_blob("A@B.C\r\nD@E.F\r\n"),
        vec!["a@b.c".to_string(), "d@e.f".to_string()]
    );
}

#[test]
fn empty_blob_has_no_entries() {
    assert_eq!(normalize_blob(""), Vec::<String>::new());
    assert_eq!(normalize_blob("\n\n"), Vec::<String>::new());
}
