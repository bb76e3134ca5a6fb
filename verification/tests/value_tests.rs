use backup::matcher::{extension, is_excluded};
use backup::text::{bytes_eq_ignore_case, strip_dots_copy, trim_copy};
use backup::tokens::{is_true_value, split_values};

fn b(s: &str) -> Vec<u8> {
    s.as_bytes().to_vec()
}

fn bl(items: &[&str]) -> Vec<Vec<u8>> {
    items.iter().map(|s| b(s)).collect()
}

#[test]
fn extension_simple() {
    assert_eq!(extension(&b("a.txt")), Some(b("txt")));
}

#[test]
fn extension_absent() {
    assert_eq!(extension(&b("Makefile")), None);
}

#[test]
fn extension_dotfile_has_none() {
    assert_eq!(extension(&b(".gitignore")), None);
}

#[test]
fn extension_last_dot_wins() {
    assert_eq!(extension(&b("archive.tar.gz")), Some(b("gz")));
}

#[test]
fn extension_trailing_dot_is_empty() {
    assert_eq!(extension(&b("name.")), Some(b("")));
}

#[test]
fn excluded_plain_match() {
    assert!(is_excluded(&Some(b("tmp")), &bl(&["tmp", "log"])));
}

#[test]
fn excluded_dotted_token_is_normalized() {
    assert!(is_excluded(&Some(b("tmp")), &bl(&[".tmp"])));
}

#[test]
fn excluded_absent_extension_never() {
    assert!(!is_excluded(&None, &bl(&["tmp", "log"])));
}

#[test]
fn excluded_is_case_sensitive() {
    assert!(!is_excluded(&Some(b("TMP")), &bl(&["tmp"])));
}

#[test]
fn excluded_is_exact_not_suffix() {
    assert!(!is_excluded(&Some(b("gz")), &bl(&["tar.gz"])));
    assert!(!is_excluded(&Some(b("og")), &bl(&["log"])));
}

#[test]
fn excluded_empty_list_never() {
    assert!(!is_excluded(&Some(b("tmp")), &bl(&[])));
}

#[test]
fn split_single_value() {
    assert_eq!(split_values(&b("backup")), bl(&["backup"]));
    assert_eq!(split_values(&b(" backup ")), bl(&["backup"]));
    assert_eq!(split_values(&b("  ")), bl(&[""]));
}

#[test]
fn split_comma_list() {
    assert_eq!(split_values(&b("a, b ,c")), bl(&["a", "b", "c"]));
}

#[test]
fn split_empty_value() {
    assert_eq!(split_values(&b("")), bl(&[]));
}

#[test]
fn split_keeps_empty_tokens() {
    assert_eq!(split_values(&b(",a,,")), bl(&["", "a", "", ""]));
    assert_eq!(split_values(&b(" , x")), bl(&["", "x"]));
    assert_eq!(split_values(&b("a,")), bl(&["a", ""]));
}

#[test]
fn split_trims_whitespace() {
    assert_eq!(split_values(&b("  tmp\t,\nlog ")), bl(&["tmp", "log"]));
}

#[test]
fn true_value_is_case_insensitive() {
    assert!(is_true_value(&b("true")));
    assert!(is_true_value(&b("TRUE")));
    assert!(is_true_value(&b("True")));
}

#[test]
fn true_value_rejects_others() {
    assert!(!is_true_value(&b("false")));
    assert!(!is_true_value(&b("")));
    assert!(!is_true_value(&b(" true")));
    assert!(!is_true_value(&b("truth")));
}

#[test]
fn trim_keeps_inner_spaces() {
    assert_eq!(trim_copy(&b("  a b  ")), b("a b"));
    assert_eq!(trim_copy(&b("\t\n")), b(""));
}

#[test]
fn strip_dots_only_leading() {
    assert_eq!(strip_dots_copy(&b("..a.b")), b("a.b"));
    assert_eq!(strip_dots_copy(&b("tmp")), b("tmp"));
}

#[test]
fn case_insensitive_eq_ascii() {
    assert!(bytes_eq_ignore_case(&b("Backup.INI"), &b("backup.ini")));
    assert!(!bytes_eq_ignore_case(&b("backup"), &b("backup.ini")));
}
