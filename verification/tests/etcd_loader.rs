use aisix::config::{
    ApiKeyConfig, ModelConfig, PolicyConfig, ProviderAuth, ProviderConfig, ProviderKind,
    RateLimitConfig,
};
use aisix::loader::{
    compile_snapshot_from_entries, entry_location_of, resource_key, Collection, DecodedResource,
    EtcdEntry,
};
use serde_json::Value;

fn entry(key: &str, body: &str) -> EtcdEntry {
    EtcdEntry {
        key: key.to_string(),
        value: body.as_bytes().to_vec(),
    }
}

fn text(value: &Value, field: &str) -> Result<String, String> {
    match value.get(field) {
        Some(Value::String(s)) => Ok(s.clone()),
        Some(other) => Err(format!("invalid type: {other}, expected a string")),
        None => Err(format!("missing field `{field}`")),
    }
}

fn opt_text(value: &Value, field: &str) -> Result<Option<String>, String> {
    match value.get(field) {
        None | Some(Value::Null) => Ok(None),
        Some(Value::String(s)) => Ok(Some(s.clone())),
        Some(other) => Err(format!("invalid type: {other}, expected a string")),
    }
}

fn limits(value: &Value) -> Option<RateLimitConfig> {
    match value {
        Value::Object(_) => Some(RateLimitConfig {
            rpm: value.get("rpm").and_then(Value::as_u64),
            tpm: value.get("tpm").and_then(Value::as_u64),
            concurrency: value.get("concurrency").and_then(Value::as_u64),
        }),
        _ => None,
    }
}

fn decode(collection: Collection, raw: &[u8]) -> Result<DecodedResource, String> {
    let value: Value = serde_json::from_slice(raw).map_err(|error| error.to_string())?;
    let rate_limit = value.get("rate_limit").and_then(limits);
    match collection {
        Collection::Providers => Ok(DecodedResource::Provider(ProviderConfig {
            id: text(&value, "id")?,
            kind: match text(&value, "kind")?.as_str() {
                "openai" => ProviderKind::OpenAi,
                "azure_openai" => ProviderKind::AzureOpenAi,
                "anthropic" => ProviderKind::Anthropic,
                other => return Err(format!("unknown variant `{other}`")),
            },
            base_url: text(&value, "base_url")?,
            auth: ProviderAuth {
                secret_ref: text(value.get("auth").unwrap_or(&Value::Null), "secret_ref")?,
            },
            policy_id: opt_text(&value, "policy_id")?,
            rate_limit,
            cache: None,
        })),
        Collection::Models => Ok(DecodedResource::Model(ModelConfig {
            id: text(&value, "id")?,
            provider_id: text(&value, "provider_id")?,
            upstream_model: text(&value, "upstream_model")?,
            policy_id: opt_text(&value, "policy_id")?,
            rate_limit,
            cache: None,
        })),
        Collection::ApiKeys => Ok(DecodedResource::ApiKey(ApiKeyConfig {
            id: text(&value, "id")?,
            key: text(&value, "key")?,
            allowed_models: value
                .get("allowed_models")
                .and_then(Value::as_array)
                .map(|models| {
                    models
                        .iter()
                        .filter_map(|model| model.as_str().map(str::to_string))
                        .collect()
                })
                .unwrap_or_default(),
            policy_id: opt_text(&value, "policy_id")?,
            rate_limit,
        })),
        Collection::Policies => Ok(DecodedResource::Policy(PolicyConfig {
            id: text(&value, "id")?,
            rate_limit: rate_limit.unwrap_or(RateLimitConfig {
                rpm: None,
                tpm: None,
                concurrency: None,
            }),
        })),
    }
}

fn decode_all(prefix: &str, entries: &[EtcdEntry]) -> Vec<Result<DecodedResource, String>> {
    entries
        .iter()
        .map(|entry| match entry_location_of(prefix, &entry.key) {
            Ok((collection, _)) => decode(collection, &entry.value),
            Err(message) => Err(message),
        })
        .collect()
}

fn load(
    prefix: &str,
    entries: &[EtcdEntry],
    revision: i64,
) -> Result<aisix::snapshot::CompiledSnapshot, String> {
    compile_snapshot_from_entries(prefix, entries, decode_all(prefix, entries), revision)
}

const OPENAI_PROVIDER: &str = r#"{
    "id": "openai",
    "kind": "openai",
    "base_url": "https://api.openai.com",
    "auth": { "secret_ref": "env:OPENAI_API_KEY" },
    "policy_id": null,
    "rate_limit": null
}"#;

#[test]
fn joins_collection_paths_under_prefix() {
    assert_eq!(
        resource_key("/aisix", "providers", "openai"),
        "/aisix/providers/openai"
    );
}

#[test]
fn normalizes_trailing_slashes_in_prefix() {
    assert_eq!(
        resource_key("/aisix/", "models", "gpt-4o-mini"),
        "/aisix/models/gpt-4o-mini"
    );
}

#[test]
fn compiles_snapshot_from_etcd_entries() {
    let entries = vec![
        entry("/aisix/providers/openai", OPENAI_PROVIDER),
        entry(
            "/aisix/models/gpt-4o-mini",
            r#"{
                "id": "gpt-4o-mini",
                "provider_id": "openai",
                "upstream_model": "gpt-4o-mini",
                "policy_id": null,
                "rate_limit": null
            }"#,
        ),
        entry(
            "/aisix/apikeys/demo",
            r#"{
                "id": "demo",
                "key": "sk-demo",
                "allowed_models": ["gpt-4o-mini"],
                "policy_id": null,
                "rate_limit": null
            }"#,
        ),
    ];

    let snapshot = load("/aisix/", &entries, 9).expect("snapshot should compile");

    assert_eq!(snapshot.revision, 9);
    assert!(snapshot.providers_by_id.contains_key("openai"));
    assert!(snapshot.models_by_name.contains_key("gpt-4o-mini"));
    assert!(snapshot.keys_by_token.contains_key("sk-demo"));
}

#[test]
fn rejects_invalid_model_reference_from_etcd_entries() {
    let entries = vec![
        entry("/aisix/providers/openai", OPENAI_PROVIDER),
        entry(
            "/aisix/models/gpt-4o-mini",
            r#"{
                "id": "gpt-4o-mini",
                "provider_id": "missing-provider",
                "upstream_model": "gpt-4o-mini",
                "policy_id": null,
                "rate_limit": null
            }"#,
        ),
    ];

    let error = load("/aisix", &entries, 2).expect_err("invalid references should fail");

    assert_eq!(error, "missing provider reference: missing-provider");
}

#[test]
fn rejects_key_and_payload_id_mismatches() {
    let entries = vec![entry(
        "/aisix/providers/openai",
        r#"{
            "id": "anthropic",
            "kind": "openai",
            "base_url": "https://api.openai.com",
            "auth": { "secret_ref": "env:OPENAI_API_KEY" },
            "policy_id": null,
            "rate_limit": null
        }"#,
    )];

    let error = load("/aisix", &entries, 1).expect_err("key and payload id mismatches should fail");

    assert_eq!(
        error,
        "etcd key/body id mismatch for provider at /aisix/providers/openai: expected openai, got anthropic"
    );
}

#[test]
fn includes_key_and_type_in_decode_errors() {
    let entries = vec![EtcdEntry {
        key: "/aisix/models/gpt-4o-mini".to_string(),
        value: br#"{"id":"gpt-4o-mini","provider_id":123}"#.to_vec(),
    }];

    let error = load("/aisix", &entries, 1).expect_err("decode failures should include key context");

    assert!(error.starts_with("failed to decode model at /aisix/models/gpt-4o-mini: "));
}

#[test]
fn rejects_keys_outside_normalized_prefix() {
    let entries = vec![entry("/other/providers/openai", OPENAI_PROVIDER)];

    let error = load("/aisix/", &entries, 1).expect_err("keys outside prefix should fail");

    assert_eq!(
        error,
        "invalid etcd key outside prefix: /other/providers/openai"
    );
}

#[test]
fn rejects_malformed_keys_without_resource_id() {
    let entries = vec![entry("/aisix/providers", OPENAI_PROVIDER)];

    let error = load("/aisix", &entries, 1).expect_err("malformed keys should fail");

    assert_eq!(error, "invalid etcd key: /aisix/providers");
}

#[test]
fn rejects_unsupported_collection() {
    let entries = vec![entry("/aisix/tenants/demo", r#"{"id": "demo"}"#)];

    let error = load("/aisix", &entries, 1).expect_err("unsupported collections should fail");

    assert_eq!(error, "unsupported etcd collection: tenants");
}

#[test]
fn entry_location_names_collection_and_id() {
    let (collection, id) = entry_location_of("/aisix", "/aisix/policies/gold").unwrap();
    assert_eq!(collection, Collection::Policies);
    assert_eq!(id, "gold");
    assert_eq!(
        entry_location_of("/aisix", "/aisix/models/a/b").unwrap_err(),
        "invalid etcd key: /aisix/models/a/b"
    );
}

#[test]
fn trailing_slashes_on_the_prefix_change_no_load() {
    let entries = vec![
        entry("/aisix/providers/openai", OPENAI_PROVIDER),
        entry("/other/providers/x", OPENAI_PROVIDER),
    ];
    let plain = load("/aisix", &entries, 3).unwrap_err();
    let slashed = load("/aisix/", &entries, 3).unwrap_err();
    assert_eq!(plain, slashed);
    assert_eq!(plain, "invalid etcd key outside prefix: /other/providers/x");

    let entries = vec![entry("/aisix/providers/openai", OPENAI_PROVIDER)];
    let plain = load("/aisix", &entries, 3).unwrap();
    let slashed = load("/aisix//", &entries, 3).unwrap();
    assert!(plain.providers_by_id.contains_key("openai"));
    assert!(slashed.providers_by_id.contains_key("openai"));
    assert_eq!(plain.revision, slashed.revision);
}
