use rmeter::string_map::StringMap;
use rmeter::text::{decimal_string, join7, quote, same_text};

fn map_of(pairs: &[(&str, &str)]) -> StringMap {
    let mut map = StringMap::new();
    for (name, value) in pairs {
        map.insert(name.to_string(), value.to_string());
    }
    map
}

#[test]
fn insert_replaces_and_keeps_first_order() {
    let mut map = StringMap::new();
    assert!(map.is_empty());
    map.insert("b".to_string(), "1".to_string());
    map.insert("a".to_string(), "2".to_string());
    map.insert("b".to_string(), "3".to_string());
    assert_eq!(map.len(), 2);
    assert_eq!(map.get("b").map(|v| v.as_str()), Some("3"));
    assert_eq!(map.get("a").map(|v| v.as_str()), Some("2"));
    assert!(map.get("c").is_none());
    assert!(map.get("B").is_none());
    assert!(map.contains_key("a"));
    assert!(!map.contains_key(""));
    let names: Vec<&str> = map.entries().iter().map(|e| e.name.as_str()).collect();
    assert_eq!(names, vec!["b", "a"]);
}

#[test]
fn extend_prefers_the_other_map() {
    let mut map = map_of(&[("a", "1"), ("b", "2")]);
    let other = map_of(&[("b", "20"), ("c", "30")]);
    map.extend(&other);
    assert_eq!(map.len(), 3);
    assert_eq!(map.get("a").map(|v| v.as_str()), Some("1"));
    assert_eq!(map.get("b").map(|v| v.as_str()), Some("20"));
    assert_eq!(map.get("c").map(|v| v.as_str()), Some("30"));
    let copy = map.copy();
    assert_eq!(copy.len(), 3);
    assert_eq!(copy.get("b").map(|v| v.as_str()), Some("20"));
}

#[test]
fn numbers_are_written_in_decimal() {
    assert_eq!(decimal_string(0), "0");
    assert_eq!(decimal_string(7), "7");
    assert_eq!(decimal_string(10), "10");
    assert_eq!(decimal_string(404), "404");
    assert_eq!(decimal_string(1_000_000), "1000000");
    assert_eq!(decimal_string(u64::MAX), "18446744073709551615");
}

#[test]
fn text_helpers_join_and_quote() {
    assert_eq!(quote("a\"b"), "\"a\"b\"");
    assert_eq!(join7("a", "b", "", "c", "d", "é", "f"), "abcdéf");
    assert!(same_text("é", "é"));
    assert!(!same_text("e", "é"));
}

#[test]
fn substring_search_finds_every_place() {
    use_contains("hello", "", true);
    use_contains("", "", true);
    use_contains("", "a", false);
    use_contains("hello", "hello", true);
    use_contains("hello", "hello!", false);
    use_contains("hello", "he", true);
    use_contains("hello", "lo", true);
    use_contains("hello", "ll", true);
    use_contains("hello", "lh", false);
    use_contains("aaab", "aab", true);
    use_contains("aaab", "aba", false);
    use_contains("héllo wörld", "o wö", true);
    use_contains("héllo", "e", false);
    use_contains("日本語のテキスト", "のテ", true);
}

fn use_contains(hay: &str, needle: &str, expected: bool) {
    assert_eq!(rmeter::text::str_contains(hay, needle), expected, "{hay:?} / {needle:?}");
    assert_eq!(hay.contains(needle), expected);
}
