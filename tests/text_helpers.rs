use radiology_teaching_files::text::{
    contains_str, i32_to_text, parse_i32, push_decimal, split_char, starts_with, str_eq,
    trim_start_matches,
};

#[test]
fn split_pieces() {
    assert_eq!(split_char("/api/cases/x/images", '/'), vec!["", "api", "cases", "x", "images"]);
    assert_eq!(split_char("", '/'), vec![""]);
    assert_eq!(split_char("a.b.", '.'), vec!["a", "b", ""]);
}

#[test]
fn trimming_repeats() {
    assert_eq!(trim_start_matches("///x/y", "/"), "x/y");
    assert_eq!(trim_start_matches("abab-c", "ab"), "-c");
    assert_eq!(trim_start_matches("abc", ""), "abc");
}

#[test]
fn prefix_and_infix() {
    assert!(starts_with("/api/x", "/api"));
    assert!(!starts_with("/ap", "/api"));
    assert!(contains_str("/api/cases/1/images", "/images"));
    assert!(!contains_str("/api/cases/1/image", "/images"));
    assert!(contains_str("abc", ""));
    assert!(str_eq("é", "é"));
}

#[test]
fn integers_as_text() {
    let mut s = String::from("x");
    push_decimal(&mut s, 0);
    push_decimal(&mut s, 4294967295);
    assert_eq!(s, "x04294967295");
    assert_eq!(i32_to_text(i32::MIN), "-2147483648");
    assert_eq!(i32_to_text(305), "305");
    assert_eq!(parse_i32("-0"), Some(0));
    assert_eq!(parse_i32("99999999999999999999"), None);
    assert_eq!(parse_i32("12a"), None);
}
