use abixio::digest::{hash_hex, sha256_hex};
use abixio::json::{copy, get, Json};
use abixio::order::distinct;
use abixio::split::{
    contains, sort_pairs, split, split_once, split_text, split_words, trim_char, trim_start_char,
};
use abixio::strmap::StringMap;
use abixio::text::{
    decimal_i64, decimal_u64, ends_with, parse_i64, parse_u64, parse_usize, space, starts_with,
    str_less, strip_prefix, strip_suffix, tail_after_last, to_ascii_lower, trim, trim_end_char,
};
use abixio::time::{epoch_secs, unix_secs, Duration};

#[test]
fn white_space_is_that_of_unicode() {
    for n in 0..=0x10ffffu32 {
        if let Some(c) = char::from_u32(n) {
            assert_eq!(space(c), c.is_whitespace(), "{:x}", n);
        }
    }
}

#[test]
fn digests_are_known_values() {
    assert_eq!(
        sha256_hex(b""),
        "e3b0c44298fc1c149afbf4c8996fb92427ae41e4649b934ca495991b7852b855"
    );
    assert_eq!(
        hash_hex("abc"),
        "ba7816bf8f01cfea414140de5dae2223b00361a396177a9cb410ff61f20015ad"
    );
}

#[test]
fn numbers_are_read_and_written() {
    for n in [0u64, 7, 10, 1_234_567, u64::MAX] {
        assert_eq!(decimal_u64(n), n.to_string());
        assert_eq!(parse_u64(&n.to_string()), Some(n));
    }
    for n in [0i64, -1, i64::MIN, i64::MAX] {
        assert_eq!(decimal_i64(n), n.to_string());
        assert_eq!(parse_i64(&n.to_string()), Some(n));
    }
    for s in ["", "+", "-", "+5", "5 ", "18446744073709551616", "x1", "007"] {
        assert_eq!(parse_u64(s), s.parse::<u64>().ok(), "{}", s);
        assert_eq!(parse_usize(s), s.parse::<usize>().ok(), "{}", s);
        assert_eq!(parse_i64(s), s.parse::<i64>().ok(), "{}", s);
    }
}

#[test]
fn texts_are_taken_apart() {
    assert_eq!(trim(" \u{3000}a b\n"), "a b");
    assert_eq!(strip_prefix("abc", "ab"), Some("c"));
    assert_eq!(strip_prefix("abc", "b"), None);
    assert_eq!(strip_suffix("abc", "bc"), Some("a"));
    assert!(starts_with("abc", "") && ends_with("abc", "c") && !starts_with("", "a"));
    assert_eq!(trim_end_char("a//", '/'), "a");
    assert_eq!(trim_start_char("//a", '/'), "a");
    assert_eq!(trim_char("\"a\"", '"'), "a");
    assert_eq!(tail_after_last("a/b/c", '/'), "c");
    assert_eq!(to_ascii_lower("AbC\u{c9}"), "abc\u{c9}");
    assert_eq!(split_once("a=b=c", '='), Some(("a".to_string(), "b=c".to_string())));
    assert_eq!(split_once("abc", '='), None);
    assert_eq!(split("a,,b", ','), vec!["a", "", "b"]);
    assert_eq!(split_text("a, b,c", ", "), vec!["a", "b,c"]);
    assert_eq!(split_words("  a  b "), vec!["a", "b"]);
    assert!(contains("haystack", "sta") && !contains("haystack", "needle"));
    assert!(str_less("a", "b") && str_less("a", "aa") && !str_less("b", "a"));
}

#[test]
fn lists_are_put_in_order() {
    let list: Vec<String> = ["b", "a", "b"].iter().map(|s| s.to_string()).collect();
    assert_eq!(distinct(&list), vec!["a", "b"]);
    let pairs = vec![
        ("b".to_string(), "1".to_string()),
        ("a".to_string(), "2".to_string()),
        ("a".to_string(), "1".to_string()),
    ];
    let mut expected = pairs.clone();
    expected.sort();
    assert_eq!(sort_pairs(&pairs), expected);
}

#[test]
fn a_map_holds_the_last_value() {
    let mut m: StringMap<u64> = StringMap::new();
    m.insert("b".to_string(), 1);
    m.insert("a".to_string(), 2);
    m.insert("b".to_string(), 3);
    assert_eq!(m.len(), 2);
    assert_eq!(m.get("b"), Some(&3));
    let keys: Vec<&str> = m.entries().iter().map(|e| e.0.as_str()).collect();
    assert_eq!(keys, vec!["b", "a"]);
    assert!(m.remove("b"));
    assert!(!m.remove("b"));
    assert!(!m.contains_key("b"));
    assert!(!m.is_empty());
}

#[test]
fn json_fields_are_found_by_name() {
    let fields = vec![
        ("a".to_string(), Json::Number("1".to_string())),
        ("b".to_string(), Json::Array(vec![Json::Bool(true), Json::Null])),
    ];
    assert!(matches!(get(&fields, "a"), Some(Json::Number(n)) if n == "1"));
    assert!(get(&fields, "c").is_none());
    let whole = Json::Object(fields);
    assert_eq!(format!("{:?}", copy(&whole)), format!("{:?}", whole));
}

#[test]
fn times_are_seconds() {
    assert_eq!(Duration::from_millis(1500).as_secs(), 1);
    assert_eq!(epoch_secs(None), 0);
    assert_eq!(epoch_secs(Some(Duration::from_secs(9))), 9);
    assert!(unix_secs() > 1_600_000_000);
}
