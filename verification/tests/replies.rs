use aisix::respond::{reply_from_cache, reply_from_upstream, reply_to_stream};
use aisix::types::Usage;

fn headers(pairs: &[(&str, &str)]) -> Vec<(String, String)> {
    pairs
        .iter()
        .map(|(name, value)| (name.to_string(), value.to_string()))
        .collect()
}

fn get<'a>(headers: &'a [(String, String)], name: &str) -> Option<&'a str> {
    headers
        .iter()
        .find(|(n, _)| n == name)
        .map(|(_, v)| v.as_str())
}

fn count(headers: &[(String, String)], name: &str) -> usize {
    headers.iter().filter(|(n, _)| n == name).count()
}

fn usage() -> Usage {
    Usage {
        input_tokens: 11,
        output_tokens: 3,
        cache_read: 0,
        cache_write: 0,
    }
}

#[test]
fn rebuilt_non_success_stream_responses_strip_stale_body_headers() {
    let upstream = headers(&[
        ("content-type", "application/json"),
        ("content-length", "999"),
        ("transfer-encoding", "chunked"),
    ]);

    let reply = reply_to_stream(502, &upstream, "openai", None);

    assert_eq!(reply.status, 502);
    assert_eq!(get(&reply.headers, "content-type"), Some("application/json"));
    assert!(get(&reply.headers, "transfer-encoding").is_none());
    assert_ne!(get(&reply.headers, "content-length"), Some("999"));
}

#[test]
fn successful_streams_are_typed_as_event_streams() {
    let upstream = headers(&[
        ("content-type", "application/json"),
        ("connection", "keep-alive"),
        ("x-request-id", "req-1"),
        ("x-aisix-provider", "spoofed"),
    ]);

    let reply = reply_to_stream(200, &upstream, "openai", Some(usage()));

    assert_eq!(get(&reply.headers, "content-type"), Some("text/event-stream"));
    assert_eq!(count(&reply.headers, "content-type"), 1);
    assert!(get(&reply.headers, "connection").is_none());
    assert_eq!(get(&reply.headers, "x-request-id"), Some("req-1"));
    assert_eq!(get(&reply.headers, "x-aisix-provider"), Some("openai"));
    assert_eq!(count(&reply.headers, "x-aisix-provider"), 1);
    assert_eq!(reply.record_usage, Some(usage()));
}

#[test]
fn failed_streams_record_no_usage() {
    let reply = reply_to_stream(500, &Vec::new(), "openai", Some(usage()));
    assert_eq!(reply.record_usage, None);
    assert!(get(&reply.headers, "content-type").is_none());
}

#[test]
fn cached_chats_answer_with_hit_header_and_json_type() {
    let reply = reply_from_cache("anthropic", Some(usage()));

    assert_eq!(reply.status, 200);
    assert_eq!(get(&reply.headers, "x-aisix-cache-hit"), Some("true"));
    assert_eq!(get(&reply.headers, "content-type"), Some("application/json"));
    assert_eq!(get(&reply.headers, "x-aisix-provider"), Some("anthropic"));
    assert_eq!(reply.record_usage, Some(usage()));
    assert!(!reply.store_in_cache);
}

#[test]
fn fresh_chats_with_caching_are_stored_and_marked_as_misses() {
    let upstream = headers(&[("content-type", "application/json; charset=utf-8")]);

    let reply = reply_from_upstream(200, &upstream, "openai", true, Some(usage()));

    assert_eq!(get(&reply.headers, "x-aisix-cache-hit"), Some("false"));
    assert_eq!(
        get(&reply.headers, "content-type"),
        Some("application/json; charset=utf-8")
    );
    assert_eq!(count(&reply.headers, "content-type"), 1);
    assert!(reply.store_in_cache);
    assert_eq!(reply.record_usage, Some(usage()));
}

#[test]
fn replies_without_caching_carry_no_cache_header() {
    let reply = reply_from_upstream(200, &Vec::new(), "openai", false, Some(usage()));

    assert!(get(&reply.headers, "x-aisix-cache-hit").is_none());
    assert!(get(&reply.headers, "content-type").is_none());
    assert!(!reply.store_in_cache);
    assert_eq!(get(&reply.headers, "x-aisix-provider"), Some("openai"));
}

#[test]
fn failed_upstream_answers_are_neither_stored_nor_counted() {
    let upstream = headers(&[("content-type", "application/json")]);

    let reply = reply_from_upstream(429, &upstream, "openai", true, Some(usage()));

    assert_eq!(reply.status, 429);
    assert!(!reply.store_in_cache);
    assert_eq!(reply.record_usage, None);
    assert_eq!(get(&reply.headers, "x-aisix-cache-hit"), Some("false"));
}

#[test]
fn gateway_headers_replace_upstream_ones() {
    let upstream = headers(&[
        ("x-aisix-cache-hit", "true"),
        ("x-aisix-provider", "elsewhere"),
    ]);

    let cached = reply_from_upstream(200, &upstream, "openai", true, None);
    assert_eq!(count(&cached.headers, "x-aisix-cache-hit"), 1);
    assert_eq!(get(&cached.headers, "x-aisix-cache-hit"), Some("false"));
    assert_eq!(count(&cached.headers, "x-aisix-provider"), 1);
    assert_eq!(get(&cached.headers, "x-aisix-provider"), Some("openai"));

    let uncached = reply_from_upstream(200, &upstream, "openai", false, None);
    assert_eq!(get(&uncached.headers, "x-aisix-cache-hit"), Some("true"));
    assert_eq!(get(&uncached.headers, "x-aisix-provider"), Some("openai"));
}
