use sitewatch::config::{parse_header_kv, pool_size, urls_from_lines, finalize, CheckConfig};

#[test]
fn test_parse_header_kv() {
    assert_eq!(parse_header_kv("A=B").unwrap(), ("A".to_string(), "B".to_string()));
    assert!(parse_header_kv("A=").is_ok());
    assert!(parse_header_kv("=B").is_err());
}

#[test]
fn parse_header_kv_trims_and_splits_once() {
    assert_eq!(
        parse_header_kv(" Content-Type = text/plain ").unwrap(),
        ("Content-Type".to_string(), "text/plain".to_string())
    );
    assert_eq!(parse_header_kv("K=a=b").unwrap(), ("K".to_string(), "a=b".to_string()));
    assert_eq!(parse_header_kv("no-separator"), Err("missing value"));
    assert_eq!(parse_header_kv("  =v"), Err("empty key"));
}

#[test]
fn default_config_values() {
    let c = CheckConfig::default();
    assert_eq!(c.workers, 50);
    assert_eq!(c.timeout_ms, 5000);
    assert_eq!(c.retries, 0);
    assert_eq!(c.period_secs, 0);
    assert!(c.header_checks.is_empty());
    assert!(c.urls.is_empty());
}

#[test]
fn pool_size_clamps_to_urls_but_at_least_one() {
    assert_eq!(pool_size(50, 2), 2);
    assert_eq!(pool_size(0, 5), 1);
    assert_eq!(pool_size(3, 0), 1);
    assert_eq!(pool_size(2, 5), 2);
    assert_eq!(pool_size(1, 1), 1);
}

#[test]
fn urls_from_lines_drops_comments_and_blanks() {
    let text = "http://a.example\n# a comment\n\n  http://b.example  \r\nhttp://c.example";
    let urls = urls_from_lines(text);
    assert_eq!(
        urls,
        vec![
            "http://a.example".to_string(),
            "http://b.example".to_string(),
            "http://c.example".to_string()
        ]
    );
}

#[test]
fn urls_from_lines_empty_text() {
    assert!(urls_from_lines("").is_empty());
    assert!(urls_from_lines("\n\n# only comments\n").is_empty());
}

#[test]
fn finalize_rejects_empty_urls() {
    let c = CheckConfig::default();
    let r = finalize(c);
    assert_eq!(r.err(), Some("no URLs provided. Pass them as args or with --file path"));
}

#[test]
fn finalize_clamps_workers() {
    let mut c = CheckConfig::default();
    c.urls.push("http://a.example".to_string());
    c.urls.push("http://b.example".to_string());
    let r = finalize(c).unwrap();
    assert_eq!(r.workers, 2);
    assert_eq!(r.urls.len(), 2);
}
