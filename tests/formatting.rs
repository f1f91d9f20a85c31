use simple_detailed_error::formatting::{
    ident_lines_except_first, join_strings, pluralize, split_lines, trim, usize_to_decimal,
    white_space,
};

#[test]
fn pluralize_boundary() {
    assert_eq!(pluralize(0, "cause", ""), "");
    assert_eq!(pluralize(1, "cause", ""), "1 cause");
    assert_eq!(pluralize(2, "cause", ""), "2 causes");
}

#[test]
fn pluralize_on_empty_and_large_counts() {
    assert_eq!(pluralize(0, "cause", "no causes"), "no causes");
    assert_eq!(pluralize(12, "explained cause", ""), "12 explained causes");
}

#[test]
fn decimal_numbers() {
    assert_eq!(usize_to_decimal(0), "0");
    assert_eq!(usize_to_decimal(7), "7");
    assert_eq!(usize_to_decimal(1234), "1234");
    assert_eq!(usize_to_decimal(usize::MAX), usize::MAX.to_string());
}

#[test]
fn join_skips_empty_items() {
    let items = vec![String::from("a"), String::new(), String::from("b"), String::new()];
    assert_eq!(join_strings(", ", &items), "a, b");
    assert_eq!(join_strings(", ", &Vec::new()), "");
    assert_eq!(join_strings("-", &vec![String::new(), String::from("x")]), "x");
}

#[test]
fn lines_split_like_std() {
    let lines = split_lines("a\nb\r\n\nc\n");
    assert_eq!(lines, vec!["a", "b", "", "c"]);
    assert!(split_lines("").is_empty());
    assert_eq!(split_lines("one"), vec!["one"]);
}

#[test]
fn continuation_lines_are_indented() {
    assert_eq!(ident_lines_except_first(String::from("a\nb\r\nc\n"), 2), "a\n  b\n  c");
    assert_eq!(ident_lines_except_first(String::from("single"), 4), "single");
    assert_eq!(ident_lines_except_first(String::from("x\n\ny"), 0), "x\n\ny");
    assert_eq!(ident_lines_except_first(String::new(), 3), "");
}

#[test]
fn trimming_white_space() {
    assert_eq!(trim("  x y \t"), "x y");
    assert_eq!(trim("\u{3000}a\u{85}"), "a");
    assert_eq!(trim("   "), "");
    assert!(white_space('\n'));
    assert!(!white_space('x'));
}
