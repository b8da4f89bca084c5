use aisix::spend::{usage_keys, UsageRecorder};
use aisix::storage::{
    counter_value, encode_command, expire_after_incr, expire_command, incr_by_command,
    incr_command, integer_reply, parse_integer, CounterStore, RedisEndpoint, RedisError,
    RedisPool,
};
use aisix::types::{KeyMeta, Usage};

#[test]
fn parses_host_and_port_from_redis_url() {
    let endpoint = RedisEndpoint::parse("redis://user:pw@cache.local:6380/0").unwrap();
    assert_eq!(endpoint.host, "cache.local");
    assert_eq!(endpoint.port, 6380);
    let pool = RedisPool::from_url("redis://127.0.0.1:6379").unwrap();
    assert_eq!(pool.endpoint.host, "127.0.0.1");
    assert_eq!(pool.connect_timeout_ms, 250);
    assert_eq!(pool.address(), "127.0.0.1:6379");
}

#[test]
fn rejects_malformed_redis_urls() {
    for url in [
        "http://127.0.0.1:6379",
        "redis://127.0.0.1",
        "redis://:6379",
        "redis://host:port",
        "redis://host:70000",
    ] {
        match RedisPool::from_url(url) {
            Err(RedisError::InvalidUrl(text)) => assert_eq!(text, url),
            other => panic!("unexpected result for {url}: {other:?}"),
        }
    }
}

#[test]
fn encodes_commands_as_resp_arrays() {
    assert_eq!(
        encode_command(&["INCR", "ratelimit:rpm:key:vk_1:7"]),
        b"*2\r\n$4\r\nINCR\r\n$24\r\nratelimit:rpm:key:vk_1:7\r\n".to_vec()
    );
    assert_eq!(incr_command("k"), b"*2\r\n$4\r\nINCR\r\n$1\r\nk\r\n".to_vec());
    assert_eq!(
        expire_command("k", 60),
        b"*3\r\n$6\r\nEXPIRE\r\n$1\r\nk\r\n$2\r\n60\r\n".to_vec()
    );
    assert_eq!(
        incr_by_command("k", 1234),
        b"*3\r\n$6\r\nINCRBY\r\n$1\r\nk\r\n$4\r\n1234\r\n".to_vec()
    );
    assert_eq!(encode_command(&[]), b"*0\r\n".to_vec());
}

#[test]
fn reads_integer_replies() {
    assert_eq!(integer_reply(b":42\r\n").unwrap(), 42);
    assert_eq!(integer_reply(b":-3\r\n").unwrap(), -3);
    match integer_reply(b"-ERR wrong type\r\n") {
        Err(RedisError::Unavailable(text)) => assert_eq!(text, "ERR wrong type"),
        other => panic!("unexpected {other:?}"),
    }
    match integer_reply(b"+OK\r\n") {
        Err(RedisError::Protocol(text)) => assert_eq!(text, "unexpected response prefix: +"),
        other => panic!("unexpected {other:?}"),
    }
    match integer_reply(b":1") {
        Err(RedisError::Protocol(text)) => assert_eq!(text, "truncated response"),
        other => panic!("unexpected {other:?}"),
    }
    match parse_integer(b"4x") {
        Err(RedisError::Protocol(text)) => assert!(text.starts_with("invalid integer response: ")),
        other => panic!("unexpected {other:?}"),
    }
    match parse_integer(&[0xff]) {
        Err(RedisError::Protocol(text)) => assert!(text.starts_with("invalid integer utf8: ")),
        other => panic!("unexpected {other:?}"),
    }
}

#[test]
fn first_increment_sets_the_window_expiry() {
    assert!(expire_after_incr(1));
    assert!(!expire_after_incr(2));
    assert_eq!(counter_value(7), 7);
}

#[test]
fn counter_totals_accumulate_per_key() {
    let mut store = CounterStore::new(None);
    assert_eq!(store.incr_total("a", 3), 3);
    assert_eq!(store.incr_total("a", 4), 7);
    assert_eq!(store.incr_total("b", 1), 1);
    assert_eq!(store.total_for("a"), 7);
    assert_eq!(store.total_for("missing"), 0);
    match store.minute_window_key("ratelimit:rpm:key:vk_1", 5) {
        Err(RedisError::Unavailable(text)) => assert_eq!(text, "redis pool not configured"),
        other => panic!("unexpected {other:?}"),
    }
    let with_redis = CounterStore::new(Some(RedisPool::from_url("redis://r:1").unwrap()));
    assert_eq!(
        with_redis.minute_window_key("ratelimit:rpm:key:vk_1", 5).unwrap(),
        "ratelimit:rpm:key:vk_1:5"
    );
}

#[test]
fn usage_is_recorded_per_key() {
    let key = KeyMeta {
        key_id: "vk_1".to_string(),
        user_id: None,
        customer_id: None,
        alias: None,
        expires_at: None,
        allowed_models: vec![],
    };
    let usage = Usage {
        input_tokens: 11,
        output_tokens: 3,
        cache_read: 0,
        cache_write: 0,
    };
    let mut recorder = UsageRecorder::new(None);
    recorder.record_success(&key, "gpt-4o-mini", &usage);
    recorder.record_success(&key, "gpt-4o-mini", &usage);
    let (input_key, output_key) = usage_keys("vk_1");
    assert_eq!(input_key, "usage:key:vk_1:input_tokens");
    assert_eq!(output_key, "usage:key:vk_1:output_tokens");
    assert_eq!(recorder.total_for("usage:key:vk_1:input_tokens"), 22);
    assert_eq!(recorder.total_for("usage:key:vk_1:output_tokens"), 6);
}

#[test]
fn redis_errors_describe_themselves() {
    assert_eq!(RedisError::Timeout.describe(), "redis timeout");
    assert_eq!(
        RedisError::InvalidUrl("x".to_string()).describe(),
        "invalid redis url: x"
    );
}

#[test]
fn usage_totals_are_sums_per_key() {
    let meta = |id: &str| KeyMeta {
        key_id: id.to_string(),
        user_id: None,
        customer_id: None,
        alias: None,
        expires_at: None,
        allowed_models: vec![],
    };
    let usage = |input: u64, output: u64| Usage {
        input_tokens: input,
        output_tokens: output,
        cache_read: 0,
        cache_write: 0,
    };
    let mut recorder = UsageRecorder::new(None);
    recorder.record_success(&meta("a"), "m", &usage(1, 2));
    recorder.record_success(&meta("b"), "m", &usage(10, 20));
    recorder.record_success(&meta("a"), "other", &usage(100, 200));
    assert_eq!(recorder.total_for("usage:key:a:input_tokens"), 101);
    assert_eq!(recorder.total_for("usage:key:a:output_tokens"), 202);
    assert_eq!(recorder.total_for("usage:key:b:input_tokens"), 10);
    assert_eq!(recorder.total_for("usage:key:b:output_tokens"), 20);
    assert_eq!(recorder.total_for("usage:key:c:input_tokens"), 0);
    assert_eq!(recorder.total_for("a"), 0);
}

#[test]
fn counter_totals_are_sums_in_any_order() {
    let mut one = CounterStore::new(None);
    let mut two = CounterStore::new(None);
    for (key, amount) in [("a", 1), ("b", 5), ("a", 2)] {
        one.incr_total(key, amount);
    }
    for (key, amount) in [("a", 2), ("a", 1), ("b", 5)] {
        two.incr_total(key, amount);
    }
    assert_eq!(one.total_for("a"), 3);
    assert_eq!(two.total_for("a"), 3);
    assert_eq!(one.total_for("b"), two.total_for("b"));
}
