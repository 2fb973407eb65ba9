use cursor_analysis::text::{
    chars_of, find_last_segment, join, lists_text, matches_at, parse_digits,
    replace_chars, same_text, text_less, text_of, text_of_range,
};

fn replaced(s: &str, pattern: &str, with: &str) -> String {
    text_of(&replace_chars(&chars_of(s), &chars_of(pattern), &chars_of(with)))
}

#[test]
fn strings_and_characters_convert_both_ways() {
    let chars = chars_of("héllo");
    assert_eq!(chars, vec!['h', 'é', 'l', 'l', 'o']);
    assert_eq!(text_of(&chars), "héllo");
    assert_eq!(text_of_range(&chars, 1, 3), "él");
    assert_eq!(text_of(&Vec::new()), "");
}

#[test]
fn texts_compare_by_their_characters() {
    assert!(same_text("abc", "abc"));
    assert!(!same_text("abc", "abd"));
    assert!(!same_text("abc", "ab"));
    assert!(same_text("", ""));
    assert!(text_less("", "a"));
    assert!(text_less("ab", "abc"));
    assert!(text_less("abc", "abd"));
    assert!(text_less("2023-11-14 22:13", "2023-11-14 22:23"));
    assert!(!text_less("b", "a"));
    assert!(!text_less("a", "a"));
    assert!(!text_less("a", ""));
    assert_eq!(text_less("z", "é"), "z" < "é");
    assert_eq!(text_less("é", "日"), "é" < "日");
}

#[test]
fn every_occurrence_is_replaced_from_the_left() {
    assert_eq!(replaced("a%20b%20c", "%20", " "), "a b c");
    assert_eq!(replaced("aaa", "aa", "b"), "ba");
    assert_eq!(replaced("abc", "x", "y"), "abc");
    assert_eq!(replaced("", "x", "y"), "");
    assert_eq!(replaced("xx", "x", ""), "");
    assert_eq!(replaced("%2%20", "%20", " "), "%2 ");
    assert_eq!(replaced("a%20b", "%20", " "), "a%20b".replace("%20", " "));
    assert_eq!(replaced("abc", "", "x"), "abc");
}

#[test]
fn patterns_are_found_where_they_occur() {
    let s = chars_of("one + two");
    assert!(matches_at(&s, 4, &chars_of("+ t")));
    assert!(!matches_at(&s, 5, &chars_of("+ t")));
    assert!(!matches_at(&s, 8, &chars_of("oo")));
    assert!(matches_at(&s, 0, &chars_of("")));
    assert!(matches_at(&s, 9, &chars_of("")));
}

#[test]
fn the_last_segment_follows_the_last_separator() {
    assert_eq!(find_last_segment(&chars_of("/home/ann/project"), '/'), 10);
    assert_eq!(find_last_segment(&chars_of("project"), '/'), 0);
    assert_eq!(find_last_segment(&chars_of("/home/ann/"), '/'), 10);
    assert_eq!(find_last_segment(&chars_of(""), '/'), 0);
}

#[test]
fn digits_are_read_as_a_number() {
    let chars = chars_of("x1700000000000y");
    assert_eq!(parse_digits(&chars, 1, 14), Some(1_700_000_000_000));
    assert_eq!(parse_digits(&chars, 1, 1), Some(0));
    let max = chars_of("9223372036854775807");
    assert_eq!(parse_digits(&max, 0, max.len()), Some(i64::MAX));
    let over = chars_of("9223372036854775808");
    assert_eq!(parse_digits(&over, 0, over.len()), None);
    let long = chars_of("00000000000000000000000042");
    assert_eq!(parse_digits(&long, 0, long.len()), Some(42));
    let huge = chars_of("99999999999999999999999999");
    assert_eq!(parse_digits(&huge, 0, huge.len()), None);
}

#[test]
fn paths_are_joined_with_one_separator() {
    assert_eq!(join("/a", "b"), "/a/b");
    assert_eq!(join("/a/", "b"), "/a/b");
    assert_eq!(join("", "b"), "b");
    assert_eq!(join("/a", "b/c.txt"), "/a/b/c.txt");
}

#[test]
fn a_list_of_texts_is_searched() {
    let list = vec!["a".to_string(), "b".to_string()];
    assert!(lists_text(&list, "b"));
    assert!(!lists_text(&list, "c"));
    assert!(!lists_text(&Vec::new(), "a"));
}
