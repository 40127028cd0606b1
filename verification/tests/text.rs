use agentyk::json::{empty_object, put_member, strings_of, Json};
use agentyk::text::{
    comes_before, contains, count_matches, decimal_of, decimal_of_i64, join, lines, quote_list,
    replace, split, starts_with, strip_prefix, to_lower, trim, trim_end, trim_end_of, trim_of,
    trim_start,
};

#[test]
fn trimming_takes_white_space_off_both_ends() {
    assert_eq!(trim(" \t a b\u{a0}\n"), "a b");
    assert_eq!(trim_start("\u{3000}x "), "x ");
    assert_eq!(trim_end(" x\r\n"), " x");
    assert_eq!(trim_of("//a/b//", '/'), "a/b");
    assert_eq!(trim_end_of("a\r\r", '\r'), "a");
}

#[test]
fn searching_counts_matches_that_do_not_overlap() {
    assert!(contains("abc", "bc"));
    assert!(contains("abc", ""));
    assert!(!contains("ab", "abc"));
    assert_eq!(count_matches("aaaa", "aa"), 2);
    assert_eq!(replace("aaa", "aa", "b"), "ba");
    assert!(starts_with("abc", "ab"));
    assert_eq!(strip_prefix("data: x", "data:"), Some(" x".to_string()));
    assert_eq!(strip_prefix("x", "data:"), None);
}

#[test]
fn lines_end_with_a_feed_and_perhaps_a_return() {
    assert_eq!(lines("a\r\nb\n\nc"), vec!["a", "b", "", "c"]);
    assert_eq!(lines("a\n"), vec!["a"]);
    assert!(lines("").is_empty());
    assert_eq!(split("a//b", '/'), vec!["a", "", "b"]);
    assert_eq!(join(&vec!["a".to_string(), "b".to_string()], ", "), "a, b");
}

#[test]
fn numbers_are_written_in_decimal() {
    assert_eq!(decimal_of(0), "0");
    assert_eq!(decimal_of(u64::MAX), u64::MAX.to_string());
    assert_eq!(decimal_of_i64(i64::MIN), i64::MIN.to_string());
    assert_eq!(decimal_of_i64(42), "42");
}

#[test]
fn only_ascii_letters_are_lowered_and_strings_are_ordered_by_character() {
    assert_eq!(to_lower("MCP-Session"), "mcp-session");
    assert!(comes_before("a", "b"));
    assert!(comes_before("a", "aa"));
    assert!(!comes_before("b", "a"));
    assert!(!comes_before("a", "a"));
}

#[test]
fn quoted_lists_read_as_std_prints_them() {
    let list = vec!["a\"b".to_string(), "c\n".to_string()];
    assert_eq!(quote_list(&list), format!("{list:?}"));
    assert_eq!(quote_list(&vec![]), "[]");
}

#[test]
fn members_are_found_and_replaced_by_name() {
    let mut members = vec![("a".to_string(), Json::Null)];
    put_member(&mut members, "b", Json::Unsigned(1));
    put_member(&mut members, "a", Json::text("x"));
    let object = Json::object(members);
    assert_eq!(object.get_str("a"), Some("x"));
    assert_eq!(object.get("b").and_then(|v| v.as_u64()), Some(1));
    assert_eq!(object.get("c"), None);
    assert_eq!(Json::Signed(-1).as_u64(), None);
    assert_eq!(Json::Unsigned(u64::MAX).as_i64(), None);
    assert_eq!(Json::Signed(-1).as_i64(), Some(-1));
    assert_eq!(Json::Bool(true).as_bool(), Some(true));
    assert!(empty_object().is_object());
    let list = Json::array(vec![Json::text("a"), Json::Null, Json::text("b")]);
    assert_eq!(strings_of(Some(&list)), vec!["a", "b"]);
    assert!(strings_of(None).is_empty());
}
