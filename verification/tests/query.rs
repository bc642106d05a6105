use abixio::query::{collect_pairs, lookup, parse_query};

#[test]
fn parse_query_decodes_percent_escaped_values() {
    let params = parse_query("prefix=docs%2F&delimiter=%2F&bucket=my%20bucket");

    assert_eq!(params.get("prefix").map(String::as_str), Some("docs/"));
    assert_eq!(params.get("delimiter").map(String::as_str), Some("/"));
    assert_eq!(params.get("bucket").map(String::as_str), Some("my bucket"));
}

#[test]
fn the_last_of_two_values_counts() {
    let params = parse_query("a=1&b=2&a=3+4");
    assert_eq!(lookup(&params, "a"), Some("3 4"));
    assert_eq!(lookup(&params, "b"), Some("2"));
    assert_eq!(lookup(&params, "c"), None);
    assert_eq!(params.len(), 2);
    let same = collect_pairs(vec![
        ("x".to_string(), "1".to_string()),
        ("x".to_string(), "2".to_string()),
    ]);
    assert_eq!(lookup(&same, "x"), Some("2"));
}
