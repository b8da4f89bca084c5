use aisix::access::authenticate_anthropic;
use aisix::config::CacheMode;
use aisix::pipeline::{cache_enabled_for_chat, cache_hit_header};
use aisix::sse::sse_frames;
use aisix::compile::compile_snapshot;
use aisix::config::{ApiKeyConfig, ModelConfig, ProviderAuth, ProviderConfig, ProviderKind};
use aisix::json::JsonValue;
use aisix::pipeline::{build_chat_cache_key, plan_request, resolve_target};
use aisix::snapshot::CompiledSnapshot;
use aisix::stream::extract_usage;
use aisix::types::{
    CanonicalRequest, ChatRequest, EmbeddingsRequest, ErrorKind, KeyMeta, TransportMode,
};
use aisix::watch::{
    burst_step, classify_watch_response, reconnect_after, watch_start_revision, BurstStep,
    WatchResponseAction, WatchResponseFacts,
};

fn snapshot_for_route(base_url: &str) -> CompiledSnapshot {
    let mut snapshot = CompiledSnapshot::empty(0);
    snapshot.providers_by_id.insert(
        "openai".to_string(),
        ProviderConfig {
            id: "openai".to_string(),
            kind: ProviderKind::OpenAi,
            base_url: base_url.to_string(),
            auth: ProviderAuth {
                secret_ref: "env:OPENAI_API_KEY".to_string(),
            },
            policy_id: None,
            rate_limit: None,
            cache: None,
        },
    );
    snapshot.models_by_name.insert(
        "text-embedding-3-small".to_string(),
        ModelConfig {
            id: "text-embedding-3-small".to_string(),
            provider_id: "openai".to_string(),
            upstream_model: "text-embedding-3-small-upstream".to_string(),
            policy_id: None,
            rate_limit: None,
            cache: None,
        },
    );
    snapshot
}

fn key_meta(models: &[&str]) -> KeyMeta {
    KeyMeta {
        key_id: "vk_123".to_string(),
        user_id: None,
        customer_id: None,
        alias: Some("test-key".to_string()),
        expires_at: None,
        allowed_models: models.iter().map(|m| m.to_string()).collect(),
    }
}

#[test]
fn resolve_populates_provider_and_upstream_model_on_context() {
    let snapshot = snapshot_for_route("https://example.invalid");
    let request = CanonicalRequest::Embeddings(EmbeddingsRequest {
        model: "text-embedding-3-small".to_string(),
        input: JsonValue::Str("hello".to_string()),
    });

    let plan = plan_request(
        &snapshot,
        &key_meta(&["text-embedding-3-small"]),
        &request,
        TransportMode::Json,
    )
    .unwrap();

    assert_eq!(plan.target.provider_id, "openai");
    assert_eq!(plan.target.upstream_model, "text-embedding-3-small-upstream");
    assert_eq!(plan.cache_key, None);
}

#[test]
fn transport_mode_matches_request_shape() {
    let chat_stream = CanonicalRequest::Chat(ChatRequest {
        model: "gpt-4o-mini".to_string(),
        messages: vec![],
        stream: true,
    });
    assert_eq!(chat_stream.transport_mode(), TransportMode::SseStream);

    let chat_non_stream = CanonicalRequest::Chat(ChatRequest {
        model: "gpt-4o-mini".to_string(),
        messages: vec![],
        stream: false,
    });
    assert_eq!(chat_non_stream.transport_mode(), TransportMode::Json);

    let embeddings = CanonicalRequest::Embeddings(EmbeddingsRequest {
        model: "text-embedding-3-small".to_string(),
        input: JsonValue::Str("hello".to_string()),
    });
    assert_eq!(embeddings.transport_mode(), TransportMode::Json);
}

#[test]
fn plan_checks_transport_permission_and_route() {
    let snapshot = snapshot_for_route("https://example.invalid");
    let chat = CanonicalRequest::Chat(ChatRequest {
        model: "text-embedding-3-small".to_string(),
        messages: vec![JsonValue::Str("m".to_string())],
        stream: false,
    });
    let meta = key_meta(&["text-embedding-3-small", "unrouted"]);

    let error = plan_request(&snapshot, &meta, &chat, TransportMode::SseStream).unwrap_err();
    assert_eq!(error.message, "expected streaming chat request");

    let plan = plan_request(&snapshot, &meta, &chat, TransportMode::Json).unwrap();
    assert_eq!(
        plan.cache_key.as_deref(),
        Some("[0,\"openai\",\"text-embedding-3-small-upstream\",\"text-embedding-3-small\",[\"m\"]]")
    );

    let denied = plan_request(&snapshot, &key_meta(&[]), &chat, TransportMode::Json).unwrap_err();
    assert_eq!(denied.kind, ErrorKind::Permission);

    let unrouted = CanonicalRequest::Chat(ChatRequest {
        model: "unrouted".to_string(),
        messages: vec![],
        stream: true,
    });
    let error = plan_request(&snapshot, &meta, &unrouted, TransportMode::Json).unwrap_err();
    assert_eq!(error.message, "streaming is not supported yet");
    let error = resolve_target(&snapshot, "unrouted").unwrap_err();
    assert_eq!(error.kind, ErrorKind::NotFound);
}

#[test]
fn cache_keys_differ_across_revisions() {
    let a = build_chat_cache_key(1, "p", "u", "m", &vec![]);
    let b = build_chat_cache_key(-12, "p", "u", "m", &vec![]);
    assert_eq!(a, "[1,\"p\",\"u\",\"m\",[]]");
    assert_eq!(b, "[-12,\"p\",\"u\",\"m\",[]]");
    assert_ne!(a, b);
}

#[test]
fn embeddings_usage_defaults_missing_completion_tokens_to_zero() {
    let body = br#"{
        "object": "list",
        "usage": {
            "prompt_tokens": 3,
            "total_tokens": 3
        }
    }"#;
    let parsed: serde_json::Value = serde_json::from_slice(body).unwrap();
    let value = to_library(&parsed);

    let usage = extract_usage(&value).expect("usage should be extracted");

    assert_eq!(usage.input_tokens, 3);
    assert_eq!(usage.output_tokens, 0);
}

fn to_library(value: &serde_json::Value) -> JsonValue {
    match value {
        serde_json::Value::Null => JsonValue::Null,
        serde_json::Value::Bool(b) => JsonValue::Bool(*b),
        serde_json::Value::Number(n) => JsonValue::Number(n.to_string()),
        serde_json::Value::String(s) => JsonValue::Str(s.clone()),
        serde_json::Value::Array(items) => JsonValue::Array(items.iter().map(to_library).collect()),
        serde_json::Value::Object(members) => JsonValue::Object(
            members
                .iter()
                .map(|(name, member)| (name.clone(), to_library(member)))
                .collect(),
        ),
    }
}

fn watch_response(canceled: bool, created: bool, compact_revision: i64, event_count: usize) -> WatchResponseFacts {
    WatchResponseFacts {
        canceled,
        created,
        compact_revision,
        cancel_reason: if canceled {
            "compacted revision".to_string()
        } else {
            String::new()
        },
        event_count,
    }
}

#[test]
fn classifies_compaction_cancel_as_reload_and_reconnect() {
    let response = watch_response(true, false, 42, 0);

    let action = classify_watch_response(&response).expect("compaction should not be an error");

    assert!(matches!(action, WatchResponseAction::ReloadAndReconnect));
}

#[test]
fn classifies_eventful_response_as_reload() {
    let response = watch_response(false, false, 0, 1);

    let action = classify_watch_response(&response).expect("event response should classify");

    assert!(matches!(action, WatchResponseAction::Reload));
}

#[test]
fn watch_decisions_cover_cancel_bursts_and_restart() {
    let error = classify_watch_response(&watch_response(true, false, 0, 0)).unwrap_err();
    assert_eq!(error, "etcd watch canceled: compacted revision");
    assert_eq!(
        classify_watch_response(&watch_response(false, true, 0, 3)).unwrap(),
        WatchResponseAction::Continue
    );
    assert_eq!(burst_step(WatchResponseAction::Reload), BurstStep::RestartQuietPeriod);
    assert_eq!(burst_step(WatchResponseAction::Continue), BurstStep::Wait);
    assert!(reconnect_after(WatchResponseAction::Reload, WatchResponseAction::ReloadAndReconnect));
    assert!(!reconnect_after(WatchResponseAction::Reload, WatchResponseAction::Reload));
    assert_eq!(watch_start_revision(41), 42);
    assert_eq!(watch_start_revision(i64::MAX), i64::MAX);
}

#[test]
fn anthropic_requests_may_use_x_api_key() {
    let provider = ProviderConfig {
        id: "openai".to_string(),
        kind: ProviderKind::OpenAi,
        base_url: "https://api.openai.com".to_string(),
        auth: ProviderAuth {
            secret_ref: "env:OPENAI_API_KEY".to_string(),
        },
        policy_id: None,
        rate_limit: None,
        cache: None,
    };
    let model = ModelConfig {
        id: "sonnet".to_string(),
        provider_id: "openai".to_string(),
        upstream_model: "gpt-4o-mini".to_string(),
        policy_id: None,
        rate_limit: None,
        cache: None,
    };
    let key = ApiKeyConfig {
        id: "vk".to_string(),
        key: "sk-a".to_string(),
        allowed_models: vec!["sonnet".to_string()],
        policy_id: None,
        rate_limit: None,
    };
    let snapshot = compile_snapshot(vec![provider], vec![model], vec![key], vec![], 3).unwrap();
    assert_eq!(
        authenticate_anthropic(&snapshot, Some("sk-a"), None, 0).unwrap().key_id,
        "vk"
    );
    assert_eq!(
        authenticate_anthropic(&snapshot, Some(""), Some("Bearer sk-a"), 0)
            .unwrap()
            .key_id,
        "vk"
    );
    assert!(authenticate_anthropic(&snapshot, None, None, 0).is_err());
    assert!(authenticate_anthropic(&snapshot, Some("sk-b"), Some("Bearer sk-a"), 0).is_err());
}

#[test]
fn cache_setting_prefers_model_then_provider_then_default() {
    let mut snapshot = snapshot_for_route("https://example.invalid");
    let chat = |stream: bool| {
        CanonicalRequest::Chat(ChatRequest {
            model: "text-embedding-3-small".to_string(),
            messages: vec![],
            stream,
        })
    };
    assert!(!cache_enabled_for_chat(&snapshot, &chat(false), "openai", false));
    assert!(cache_enabled_for_chat(&snapshot, &chat(false), "openai", true));
    assert!(!cache_enabled_for_chat(&snapshot, &chat(true), "openai", true));

    snapshot
        .provider_cache_modes
        .insert("openai".to_string(), CacheMode::Enabled);
    assert!(cache_enabled_for_chat(&snapshot, &chat(false), "openai", false));

    snapshot
        .model_cache_modes
        .insert("text-embedding-3-small".to_string(), CacheMode::Disabled);
    assert!(!cache_enabled_for_chat(&snapshot, &chat(false), "openai", true));

    let embeddings = CanonicalRequest::Embeddings(EmbeddingsRequest {
        model: "text-embedding-3-small".to_string(),
        input: JsonValue::Null,
    });
    assert!(!cache_enabled_for_chat(&snapshot, &embeddings, "openai", true));

    assert_eq!(cache_hit_header(false, true), None);
    assert_eq!(cache_hit_header(true, true), Some("true"));
    assert_eq!(cache_hit_header(true, false), Some("false"));
}

#[test]
fn crlf_and_lf_framing_give_the_same_frames() {
    let lf = sse_frames(b"event: a\ndata: 1\n\ndata: 2\n\n").unwrap();
    let crlf = sse_frames(b"event: a\r\ndata: 1\r\n\r\ndata: 2\r\n\r\n").unwrap();
    assert_eq!(lf.len(), crlf.len());
    for (x, y) in lf.iter().zip(crlf.iter()) {
        assert_eq!(x.event, y.event);
        assert_eq!(x.data, y.data);
    }
}

#[test]
fn counts_read_back_from_their_decimal_text() {
    for n in [0u64, 7, 1234567890, u64::MAX] {
        assert_eq!(JsonValue::Number(n.to_string()).as_u64(), Some(n));
    }
}

#[test]
fn lookup_keys_come_from_the_planning_snapshot() {
    let messages = vec![JsonValue::Str("hello".to_string())];
    let chat = CanonicalRequest::Chat(ChatRequest {
        model: "gpt-4o-mini".to_string(),
        messages: vec![JsonValue::Str("hello".to_string())],
        stream: false,
    });
    let meta = key_meta(&["gpt-4o-mini"]);
    let snapshot = |revision: i64, provider: &str, upstream: &str| {
        let mut s = CompiledSnapshot::empty(revision);
        s.providers_by_id.insert(
            provider.to_string(),
            ProviderConfig {
                id: provider.to_string(),
                kind: ProviderKind::OpenAi,
                base_url: "https://example.invalid".to_string(),
                auth: ProviderAuth {
                    secret_ref: "env:OPENAI_API_KEY".to_string(),
                },
                policy_id: None,
                rate_limit: None,
                cache: None,
            },
        );
        s.models_by_name.insert(
            "gpt-4o-mini".to_string(),
            ModelConfig {
                id: "gpt-4o-mini".to_string(),
                provider_id: provider.to_string(),
                upstream_model: upstream.to_string(),
                policy_id: None,
                rate_limit: None,
                cache: None,
            },
        );
        s
    };
    let v1 = snapshot(1, "openai", "gpt-4o-mini-2024-07-18");
    let plan = plan_request(&v1, &meta, &chat, TransportMode::Json).unwrap();
    let stored = build_chat_cache_key(1, "openai", "gpt-4o-mini-2024-07-18", "gpt-4o-mini", &messages);
    let v2 = snapshot(2, "openai-v2", "gpt-4o-mini-2024-07-18");
    let live_plan = plan_request(&v2, &meta, &chat, TransportMode::Json).unwrap();
    assert_eq!(plan.cache_key.as_deref(), Some(stored.as_str()));
    assert_ne!(live_plan.cache_key, plan.cache_key);
}

#[test]
fn plan_errors_carry_their_messages() {
    let snapshot = snapshot_for_route("https://example.invalid");
    let chat = |model: &str| {
        CanonicalRequest::Chat(ChatRequest {
            model: model.to_string(),
            messages: vec![],
            stream: false,
        })
    };
    let denied = plan_request(&snapshot, &key_meta(&[]), &chat("gpt-x"), TransportMode::Json).unwrap_err();
    assert_eq!(denied.message, "Model 'gpt-x' is not allowed for this key");
    let missing =
        plan_request(&snapshot, &key_meta(&["gpt-x"]), &chat("gpt-x"), TransportMode::Json).unwrap_err();
    assert_eq!(missing.kind, ErrorKind::NotFound);
    assert_eq!(missing.message, "model 'gpt-x' not found");
}
