use textrest::db_row::{bool_to_int, converted_or_now, int_to_bool, stored_rule_text, update_time_from_column, TimeColumn};
use textrest::http::{
    build_cache_key, concurrency_limit, headers_distinct, headers_from_json, set_header_in, sort_headers,
    source_client_config, text_le_str, ClientCache, CLIENT_CACHE_CAPACITY,
};
use textrest::models::{BookSource, HttpClientConfig};

fn pairs(v: &[(&str, &str)]) -> Vec<(String, String)> {
    v.iter().map(|(a, b)| (a.to_string(), b.to_string())).collect()
}

#[test]
fn cache_returns_what_was_stored() {
    let mut c: ClientCache<u32> = ClientCache::new();
    assert_eq!(c.get("a"), None);
    c.insert("a".to_string(), 1);
    c.insert("b".to_string(), 2);
    assert_eq!(c.get("a"), Some(1));
    c.insert("a".to_string(), 3);
    assert_eq!(c.get("a"), Some(3));
    assert_eq!(c.len(), 2);
    c.clear();
    assert_eq!(c.len(), 0);
    assert_eq!(c.get("b"), None);
}

#[test]
fn cache_evicts_the_least_recently_used() {
    let mut c: ClientCache<usize> = ClientCache::new();
    for i in 0..CLIENT_CACHE_CAPACITY {
        c.insert(format!("k{}", i), i);
    }
    assert_eq!(c.len(), CLIENT_CACHE_CAPACITY);
    // Using k0 makes k1 the least recently used.
    assert_eq!(c.get("k0"), Some(0));
    c.insert("new".to_string(), 99);
    assert_eq!(c.len(), CLIENT_CACHE_CAPACITY);
    assert_eq!(c.get("k1"), None);
    assert_eq!(c.get("k0"), Some(0));
    assert_eq!(c.get("new"), Some(99));
    // Replacing a present key evicts nothing.
    c.insert("k2".to_string(), 22);
    assert_eq!(c.len(), CLIENT_CACHE_CAPACITY);
    assert_eq!(c.get("k3"), Some(3));
}

#[test]
fn text_order_is_by_code_point() {
    assert!(text_le_str("", "a"));
    assert!(text_le_str("a", "ab"));
    assert!(!text_le_str("ab", "a"));
    assert!(text_le_str("B", "a"));
    assert!(text_le_str("a", "a"));
    assert!(!text_le_str("b", "a"));
}

#[test]
fn headers_sort_by_name() {
    let h = pairs(&[("b", "2"), ("a", "1"), ("C", "3")]);
    assert_eq!(sort_headers(&h), pairs(&[("C", "3"), ("a", "1"), ("b", "2")]));
}

#[test]
fn cache_key_format() {
    let mut config = HttpClientConfig::default();
    assert_eq!(build_cache_key(&config, None), "|30|false|10|");
    config.default_headers = pairs(&[("X-b", "2"), ("X-a", "1")]);
    config.enable_cookie_jar = true;
    assert_eq!(build_cache_key(&config, Some("http://s/")), "http://s/|30|true|10|X-a=1;X-b=2");
    let mut other = config.clone();
    other.default_headers = pairs(&[("X-a", "1"), ("X-b", "2")]);
    assert_eq!(build_cache_key(&config, Some("u")), build_cache_key(&other, Some("u")));
}

#[test]
fn header_maps() {
    let mut h = pairs(&[("a", "1")]);
    set_header_in(&mut h, "b".to_string(), "2".to_string());
    set_header_in(&mut h, "a".to_string(), "3".to_string());
    assert_eq!(h, pairs(&[("a", "3"), ("b", "2")]));
    assert!(headers_distinct(&h));
    assert!(!headers_distinct(&pairs(&[("a", "1"), ("b", "2"), ("a", "3")])));
    assert!(headers_distinct(&Vec::new()));
}

#[test]
fn headers_from_json_text() {
    assert_eq!(headers_from_json(r#"{"User-Agent":"x","A":"b"}"#), Some(pairs(&[("User-Agent", "x"), ("A", "b")])));
    assert_eq!(headers_from_json(r#"{"A":1}"#), None);
    assert_eq!(headers_from_json(r#"["A"]"#), None);
    assert_eq!(headers_from_json("not json"), None);
    assert_eq!(headers_from_json("{}"), Some(Vec::new()));
}

fn source() -> BookSource {
    let mut s = BookSource::with_update_time("t".to_string());
    s.book_source_url = "http://s/".to_string();
    s
}

#[test]
fn client_settings_for_a_source() {
    let mut s = source();
    s.enabled_cookie_jar = true;
    s.header = Some(r#"{"Referer":"http://s/","A":"new"}"#.to_string());
    s.concurrent_rate = Some("3".to_string());
    let mut base = HttpClientConfig::default();
    base.timeout = 5;
    base.default_headers = pairs(&[("A", "old"), ("B", "keep")]);
    let c = source_client_config(&s, Some(base));
    assert_eq!(c.timeout, 5);
    assert!(c.enable_cookie_jar);
    assert_eq!(c.max_concurrent, 3);
    assert_eq!(c.default_headers, pairs(&[("A", "new"), ("B", "keep"), ("Referer", "http://s/")]));
    assert_eq!(concurrency_limit(&c), Some(3));
}

#[test]
fn client_settings_ignore_unreadable_values() {
    let mut s = source();
    s.header = Some("{bad".to_string());
    s.concurrent_rate = Some("1000/60".to_string());
    let c = source_client_config(&s, None);
    assert_eq!(c.timeout, 30);
    assert!(!c.enable_cookie_jar);
    assert_eq!(c.max_concurrent, 10);
    assert!(c.default_headers.is_empty());
    s.concurrent_rate = Some("0".to_string());
    let c = source_client_config(&s, None);
    assert_eq!(concurrency_limit(&c), None);
}

#[test]
fn stored_columns() {
    assert_eq!(bool_to_int(true), 1);
    assert_eq!(bool_to_int(false), 0);
    assert!(int_to_bool(2));
    assert!(int_to_bool(-1));
    assert!(!int_to_bool(0));
    assert_eq!(stored_rule_text(Some(String::new())), None);
    assert_eq!(stored_rule_text(Some("{}".to_string())), Some("{}".to_string()));
    assert_eq!(stored_rule_text(None), None);
}

#[test]
fn update_time_columns() {
    let now = "NOW".to_string();
    assert_eq!(update_time_from_column(TimeColumn::Integer(0), now.clone()), "1970-01-01T00:00:00+00:00");
    assert_eq!(update_time_from_column(TimeColumn::Integer(86400), now.clone()), "1970-01-02T00:00:00+00:00");
    assert_eq!(update_time_from_column(TimeColumn::Integer(i64::MAX), now.clone()), "NOW");
    assert_eq!(update_time_from_column(TimeColumn::Text("2020".to_string()), now.clone()), "2020");
    assert_eq!(update_time_from_column(TimeColumn::Null, now.clone()), "NOW");
    assert_eq!(update_time_from_column(TimeColumn::Unreadable, now.clone()), "NOW");
    assert_eq!(converted_or_now(Some("x".to_string()), now.clone()), "x");
    assert_eq!(converted_or_now(None, now), "NOW");
}
