use craftmc::text::{
    compare_text, concat2, concat3, contains, decimal, ends_with, eq_ci, find, is_valid_name, is_whitespace,
    join_with_spaces, same_text, starts_with, to_ascii_lower, trim,
};

fn cs(s: &str) -> Vec<char> {
    s.chars().collect()
}

#[test]
fn searching_text() {
    assert_eq!(find(&cs("hello world"), &cs("o w")), Some(4));
    assert_eq!(find(&cs("aaa"), &cs("")), Some(0));
    assert_eq!(find(&cs("abc"), &cs("d")), None);
    assert!(contains(&cs("abc"), &cs("bc")));
    assert!(starts_with(&cs("abc"), &cs("ab")));
    assert!(!starts_with(&cs("a"), &cs("ab")));
    assert!(ends_with(&cs("abc.jar"), &cs(".jar")));
    assert!(!ends_with(&cs("abc.jar"), &cs(".JAR")));
}

#[test]
fn building_text() {
    assert_eq!(decimal(0), "0");
    assert_eq!(decimal(18446744073709551615), "18446744073709551615");
    assert_eq!(concat2("a", "b"), "ab");
    assert_eq!(concat3("a", "-", "b"), "a-b");
    assert_eq!(join_with_spaces(&vec!["say".to_string(), "hi".to_string(), "there".to_string()]), "say hi there");
    assert_eq!(join_with_spaces(&vec![]), "");
    assert_eq!(trim("  \t x y \n"), "x y");
    assert_eq!(trim("\u{3000}x\u{a0}"), "x");
    assert!(is_whitespace(' '));
    assert!(!is_whitespace('x'));
}

#[test]
fn comparing_text() {
    assert!(eq_ci("Steve", "sTEVE"));
    assert!(!eq_ci("Steve", "Steven"));
    assert!(same_text("a", "a"));
    assert!(!same_text("a", "A"));
    assert_eq!(to_ascii_lower('Q'), 'q');
    assert_eq!(to_ascii_lower('é'), 'é');
    assert_eq!(compare_text(&cs("a"), &cs("b")), -1);
    assert_eq!(compare_text(&cs("b"), &cs("a")), 1);
    assert_eq!(compare_text(&cs("ab"), &cs("ab")), 0);
    assert_eq!(compare_text(&cs("a"), &cs("ab")), -1);
    assert!(is_valid_name("Notch"));
    assert!(!is_valid_name("no spaces"));
}
