use raw_http::{parse_json, Mapping, ParseError};

fn pairs(m: &Mapping) -> Vec<(String, String)> {
    let mut v = m.entries().clone();
    v.sort();
    v
}

fn owned(p: &[(&str, &str)]) -> Vec<(String, String)> {
    p.iter().map(|(k, v)| (k.to_string(), v.to_string())).collect()
}

#[test]
fn quoted_values_two_pairs() {
    // The quote that opens a quoted value closes the value span at once, so
    // "1" is dropped, the comma lands in the next key, and only the last
    // value survives.
    let m = parse_json("{\"a\":\"1\",\"b\":\"2\"}").unwrap();
    assert_eq!(pairs(&m), owned(&[("a,", "2")]));
    assert_eq!(m.len(), 1);
}

#[test]
fn quoted_value_single_pair_without_comma() {
    // The trailing key is "a}" and the value buffer is empty: nothing is
    // committed.
    assert_eq!(parse_json("{\"a\":\"1\"}").unwrap_err(), ParseError::NoEntries);
}

#[test]
fn unquoted_values_commit_on_comma_and_at_end() {
    let m = parse_json("{\"a\":1,\"b\":2}").unwrap();
    assert_eq!(pairs(&m), owned(&[("a", "1"), ("b", "2}")]));
    assert_eq!(m.get("a"), Some(&"1".to_string()));
    assert_eq!(m.get("b"), Some(&"2}".to_string()));
    assert_eq!(m.get("c"), None);
}

#[test]
fn single_unquoted_pair_without_trailing_comma() {
    let m = parse_json("\"a\":1").unwrap();
    assert_eq!(pairs(&m), owned(&[("a", "1")]));
}

#[test]
fn text_without_quotes_fails() {
    let e = parse_json("no quotes {here} at all").unwrap_err();
    assert_eq!(e, ParseError::NoEntries);
    assert_eq!(e.message(), "Failed to parse JSON");
}

#[test]
fn empty_text_fails() {
    assert_eq!(parse_json("").unwrap_err(), ParseError::NoEntries);
}

#[test]
fn colon_then_comma_without_quotes_commits_empty_key() {
    let m = parse_json(":x,").unwrap();
    assert_eq!(pairs(&m), owned(&[("", "x")]));
}

#[test]
fn quote_inside_value_closes_it() {
    // The value span holds "v"; the quote closes it and "w" is discarded.
    let m = parse_json("\"k\":v\"w").unwrap();
    assert_eq!(pairs(&m), owned(&[("k", "v")]));
}

#[test]
fn unmatched_opening_quote_keeps_only_key_buffer() {
    // The colon opens a value span, but the key span still takes every
    // character: key "kv", value empty, so nothing is committed.
    assert_eq!(parse_json("\"k:v").unwrap_err(), ParseError::NoEntries);
}

#[test]
fn unmatched_quote_after_complete_pair() {
    // The trailing partial span leaves the key buffer "x" but an empty
    // value, so only the committed pair is returned.
    let m = parse_json("\"a\":1,\"x").unwrap();
    assert_eq!(pairs(&m), owned(&[("a", "1")]));
}

#[test]
fn duplicate_key_last_write_wins() {
    let m = parse_json("\"a\":1,\"a\":2,").unwrap();
    assert_eq!(pairs(&m), owned(&[("a", "2")]));
    assert_eq!(m.len(), 1);
}

#[test]
fn key_buffer_spans_several_quoted_runs() {
    let m = parse_json("\"a\" \"b\":c,").unwrap();
    assert_eq!(pairs(&m), owned(&[("ab", "c")]));
}

#[test]
fn multibyte_characters_are_kept() {
    let m = parse_json("\"clé\":été,").unwrap();
    assert_eq!(pairs(&m), owned(&[("clé", "été")]));
}
