use aisix::compile::compile_snapshot;
use aisix::config::{ApiKeyConfig, ModelConfig, ProviderAuth, ProviderConfig, ProviderKind, RateLimitConfig};
use aisix::ratelimit::{rate_limited, resolve_request_limits, ConcurrencyLimiter, RateLimitService};
use aisix::storage::RedisPool;
use aisix::types::ErrorKind;

fn limited(rpm: Option<u64>, concurrency: Option<u64>) -> Option<RateLimitConfig> {
    Some(RateLimitConfig {
        rpm,
        tpm: None,
        concurrency,
    })
}

fn snapshot(key_limits: Option<RateLimitConfig>) -> aisix::snapshot::CompiledSnapshot {
    let provider = ProviderConfig {
        id: "openai".to_string(),
        kind: ProviderKind::OpenAi,
        base_url: "https://api.openai.com".to_string(),
        auth: ProviderAuth {
            secret_ref: "env:OPENAI_API_KEY".to_string(),
        },
        policy_id: None,
        rate_limit: Some(RateLimitConfig {
            rpm: Some(50),
            tpm: Some(500),
            concurrency: Some(5),
        }),
        cache: None,
    };
    let model = ModelConfig {
        id: "gpt-4o-mini".to_string(),
        provider_id: "openai".to_string(),
        upstream_model: "gpt-4o-mini".to_string(),
        policy_id: None,
        rate_limit: limited(Some(20), None),
        cache: None,
    };
    let key = ApiKeyConfig {
        id: "vk_1".to_string(),
        key: "sk-live".to_string(),
        allowed_models: vec!["gpt-4o-mini".to_string()],
        policy_id: None,
        rate_limit: key_limits,
    };
    compile_snapshot(vec![provider], vec![model], vec![key], vec![], 1).unwrap()
}

#[test]
fn request_limits_fall_back_from_key_to_model_to_provider() {
    let snapshot = snapshot(limited(Some(1), None));
    let limits = resolve_request_limits(&snapshot, "vk_1", "gpt-4o-mini", "openai");
    assert_eq!(limits.rpm, Some(1));
    assert_eq!(limits.concurrency, Some(5));
    assert_eq!(limits.tpm, Some(500));

    let snapshot = snapshot_without_key_limits();
    let limits = resolve_request_limits(&snapshot, "vk_1", "gpt-4o-mini", "openai");
    assert_eq!(limits.rpm, Some(20));
}

fn snapshot_without_key_limits() -> aisix::snapshot::CompiledSnapshot {
    snapshot(None)
}

#[test]
fn concurrency_limit_counts_slots_until_released() {
    let mut limiter = ConcurrencyLimiter::new();
    let first = limiter.acquire("k".to_string(), Some(2)).unwrap();
    let second = limiter.acquire("k".to_string(), Some(2)).unwrap();
    let error = limiter.acquire("k".to_string(), Some(2)).unwrap_err();
    assert_eq!(error.kind, ErrorKind::RateLimited);
    assert_eq!(error.message, "concurrency limit exceeded");
    assert!(limiter.acquire("other".to_string(), Some(2)).is_ok());
    limiter.release(first);
    let third = limiter.acquire("k".to_string(), Some(2)).unwrap();
    limiter.release(second);
    limiter.release(third);
    assert!(limiter.acquire("k".to_string(), Some(1)).is_ok());
}

#[test]
fn no_limit_takes_no_slot() {
    let mut limiter = ConcurrencyLimiter::new();
    let guard = limiter.acquire("k".to_string(), None).unwrap();
    assert_eq!(guard.key, None);
    assert!(limiter.acquire("k".to_string(), Some(1)).is_ok());
}

#[test]
fn second_request_in_a_minute_is_refused_without_a_shared_store() {
    let snapshot = snapshot(limited(Some(1), None));
    let mut service = RateLimitService::new(None);
    let (guard, check) = service
        .precheck(&snapshot, "vk_1", "gpt-4o-mini", "openai", 100)
        .unwrap();
    assert!(check.is_none());
    service.release(guard);
    let error = service
        .precheck(&snapshot, "vk_1", "gpt-4o-mini", "openai", 100)
        .unwrap_err();
    assert_eq!(error.kind, ErrorKind::RateLimited);
    assert_eq!(error.message, "request rate limit exceeded");
    assert!(service
        .precheck(&snapshot, "vk_1", "gpt-4o-mini", "openai", 101)
        .is_ok());
}

#[test]
fn concurrency_refusal_comes_before_counting() {
    let snapshot = snapshot(limited(Some(100), Some(1)));
    let mut service = RateLimitService::new(None);
    let (guard, _) = service
        .precheck(&snapshot, "vk_1", "gpt-4o-mini", "openai", 7)
        .unwrap();
    let error = service
        .precheck(&snapshot, "vk_1", "gpt-4o-mini", "openai", 7)
        .unwrap_err();
    assert_eq!(error.kind, ErrorKind::RateLimited);
    assert_eq!(error.message, "concurrency limit exceeded");
    service.release(guard);
    assert!(service
        .precheck(&snapshot, "vk_1", "gpt-4o-mini", "openai", 7)
        .is_ok());
}

#[test]
fn a_refused_request_holds_no_slot() {
    let snapshot = snapshot(limited(Some(1), Some(1)));
    let mut service = RateLimitService::new(None);
    let (guard, _) = service
        .precheck(&snapshot, "vk_1", "gpt-4o-mini", "openai", 5)
        .unwrap();
    service.release(guard);
    let error = service
        .precheck(&snapshot, "vk_1", "gpt-4o-mini", "openai", 5)
        .unwrap_err();
    assert_eq!(error.message, "request rate limit exceeded");
    assert!(service
        .precheck(&snapshot, "vk_1", "gpt-4o-mini", "openai", 6)
        .is_ok());
}

#[test]
fn shared_store_counts_are_settled_by_the_caller() {
    let snapshot = snapshot(limited(Some(1), Some(1)));
    let pool = RedisPool::from_url("redis://127.0.0.1:6379").unwrap();
    let mut service = RateLimitService::new(Some(pool));
    let (guard, check) = service
        .precheck(&snapshot, "vk_1", "gpt-4o-mini", "openai", 9)
        .unwrap();
    let check = check.expect("the shared store counts requests");
    assert_eq!(check.counter_key, "ratelimit:rpm:key:vk_1");
    assert_eq!(check.rpm, 1);

    let guard = service.settle_rpm(guard, &check, 9, Some(1)).unwrap();
    service.release(guard);

    let (guard, check) = service
        .precheck(&snapshot, "vk_1", "gpt-4o-mini", "openai", 9)
        .unwrap();
    let check = check.unwrap();
    let error = service.settle_rpm(guard, &check, 9, Some(2)).unwrap_err();
    assert_eq!(error.message, "request rate limit exceeded");

    let (guard, check) = service
        .precheck(&snapshot, "vk_1", "gpt-4o-mini", "openai", 9)
        .unwrap();
    let check = check.unwrap();
    let guard = service.settle_rpm(guard, &check, 9, None).unwrap();
    service.release(guard);
    let (guard, check) = service
        .precheck(&snapshot, "vk_1", "gpt-4o-mini", "openai", 9)
        .unwrap();
    let error = service
        .settle_rpm(guard, &check.unwrap(), 9, None)
        .unwrap_err();
    assert_eq!(error.kind, ErrorKind::RateLimited);
}

#[test]
fn rate_limited_error_text() {
    let error = rate_limited();
    assert_eq!(error.kind, ErrorKind::RateLimited);
    assert_eq!(error.message, "request rate limit exceeded");
}

#[test]
fn a_limit_of_n_admits_n_then_frees_on_release() {
    let mut limiter = ConcurrencyLimiter::new();
    let mut guards = Vec::new();
    for _ in 0..3 {
        guards.push(limiter.acquire("k".to_string(), Some(3)).unwrap());
    }
    let error = limiter.acquire("k".to_string(), Some(3)).unwrap_err();
    assert_eq!(error.message, "concurrency limit exceeded");
    assert!(limiter.acquire("k2".to_string(), Some(3)).is_ok());
    limiter.release(guards.pop().unwrap());
    guards.push(limiter.acquire("k".to_string(), Some(3)).unwrap());
    for guard in guards {
        limiter.release(guard);
    }
    for _ in 0..3 {
        limiter.acquire("k".to_string(), Some(3)).unwrap();
    }
}
