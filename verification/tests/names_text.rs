use canum::entity::Entity;
use canum::names::{NameMap, NameSet};
use canum::text::{
    chars_of, decimal_string, parse_integer, signed_decimal_string, split, split_once,
    starts_with, str_lt, string_from_chars, strip_prefix,
};

#[test]
fn entity_bits_round_trip() {
    let e = Entity::from_bits(42);
    assert_eq!(e.to_bits(), 42);
    assert_eq!(e, Entity(42));
}

#[test]
fn name_map_insert_get_remove() {
    let mut m: NameMap<i32> = NameMap::new();
    assert_eq!(m.len(), 0);
    m.insert("b".to_owned(), 1);
    m.insert("a".to_owned(), 2);
    m.insert("b".to_owned(), 3);
    assert_eq!(m.len(), 2);
    assert_eq!(m.get("b"), Some(&3));
    assert!(m.contains_key("a"));
    assert!(!m.contains_key("c"));
    assert!(m.position("a").is_some());
    assert!(m.position("c").is_none());
    let mut keys = m.keys();
    keys.sort();
    assert_eq!(keys, vec!["a".to_owned(), "b".to_owned()]);
    assert_eq!(m.remove("a"), Some(2));
    assert_eq!(m.remove("a"), None);
    let (name, value) = m.entry_at(0);
    assert_eq!((name.as_str(), *value), ("b", 3));
    let mut other = NameMap::new();
    other.insert("b".to_owned(), 9);
    other.insert("z".to_owned(), 8);
    m.extend(other);
    assert_eq!(m.get("b"), Some(&9));
    assert_eq!(m.get("z"), Some(&8));
    let mut count = 0;
    while let Some((_, _)) = m.pop() {
        count += 1;
    }
    assert_eq!(count, 2);
    assert_eq!(m.len(), 0);
}

#[test]
fn name_set_keeps_order() {
    let mut s = NameSet::new();
    assert!(s.insert("pear".to_owned()));
    assert!(s.insert("apple".to_owned()));
    assert!(!s.insert("pear".to_owned()));
    assert!(s.insert("peach".to_owned()));
    assert_eq!(s.len(), 3);
    assert_eq!(s.at(0), "apple");
    assert_eq!(s.at(1), "peach");
    assert_eq!(s.at(2), "pear");
    assert!(s.contains("peach"));
    assert!(!s.contains("plum"));
    assert_eq!(s.starting_with("pe"), vec!["peach".to_owned(), "pear".to_owned()]);
    assert!(s.starting_with("x").is_empty());
}

#[test]
fn string_helpers() {
    assert_eq!(chars_of("héllo"), vec!['h', 'é', 'l', 'l', 'o']);
    assert_eq!(string_from_chars(&vec!['a', 'b', 'c', 'd'], 1, 3), "bc");
    assert_eq!(canum::text::concat("foo", "bar"), "foobar");
    assert!(str_lt("abc", "abd"));
    assert!(str_lt("ab", "abc"));
    assert!(!str_lt("abc", "abc"));
    assert!(!str_lt("b", "abc"));
    assert!(starts_with("Health+2", "Health+"));
    assert!(!starts_with("Heal", "Health+"));
    assert_eq!(strip_prefix("Health+2", "Health+"), Some("2".to_owned()));
    assert_eq!(strip_prefix("x", "Health+"), None);
    assert_eq!(split_once("a:b:c", ':'), Some(("a".to_owned(), "b:c".to_owned())));
    assert_eq!(split_once("abc", ':'), None);
    assert_eq!(split("a\n\nb", '\n'), vec!["a".to_owned(), "".to_owned(), "b".to_owned()]);
    assert_eq!(split("", '\n'), vec!["".to_owned()]);
}

#[test]
fn integers_parse_like_str_parse() {
    assert_eq!(parse_integer("42", -100, 100), Some(42));
    assert_eq!(parse_integer("+7", -100, 100), Some(7));
    assert_eq!(parse_integer("-100", -100, 100), Some(-100));
    assert_eq!(parse_integer("101", -100, 100), None);
    assert_eq!(parse_integer("", -100, 100), None);
    assert_eq!(parse_integer("-", -100, 100), None);
    assert_eq!(parse_integer("1x", -100, 100), None);
    assert_eq!(parse_integer(" 1", -100, 100), None);
    assert_eq!(parse_integer("99999999999999999999999", i64::MIN, i64::MAX), None);
    assert_eq!(parse_integer("-9223372036854775808", i64::MIN, i64::MAX), Some(i64::MIN));
    assert_eq!(parse_integer("007", 0, 10), Some(7));
}

#[test]
fn decimals() {
    assert_eq!(decimal_string(0), "0");
    assert_eq!(decimal_string(1203), "1203");
    assert_eq!(signed_decimal_string(-15), "-15");
    assert_eq!(signed_decimal_string(0), "0");
    assert_eq!(signed_decimal_string(i32::MAX), "2147483647");
}
