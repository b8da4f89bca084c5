use aisix::access::{
    authenticate, bearer_token, delete_result, ensure_model_allowed, ensure_path_matches_body_id,
    ensure_valid_resource_id, missing_admin_resource, require_admin, AdminKeys,
};
use aisix::compile::compile_snapshot;
use aisix::config::{ApiKeyConfig, ModelConfig, ProviderAuth, ProviderConfig, ProviderKind};
use aisix::loader::AdminStoreWrite;
use aisix::types::{ErrorKind, KeyMeta};

fn snapshot() -> aisix::snapshot::CompiledSnapshot {
    let provider = ProviderConfig {
        id: "openai".to_string(),
        kind: ProviderKind::OpenAi,
        base_url: "https://api.openai.com".to_string(),
        auth: ProviderAuth {
            secret_ref: "env:OPENAI_API_KEY".to_string(),
        },
        policy_id: None,
        rate_limit: None,
        cache: None,
    };
    let model = ModelConfig {
        id: "gpt-4o-mini".to_string(),
        provider_id: "openai".to_string(),
        upstream_model: "gpt-4o-mini".to_string(),
        policy_id: None,
        rate_limit: None,
        cache: None,
    };
    let key = ApiKeyConfig {
        id: "vk_1".to_string(),
        key: "sk-live".to_string(),
        allowed_models: vec!["gpt-4o-mini".to_string()],
        policy_id: None,
        rate_limit: None,
    };
    compile_snapshot(vec![provider], vec![model], vec![key], vec![], 1).unwrap()
}

fn meta(expires_at: Option<i128>) -> KeyMeta {
    KeyMeta {
        key_id: "vk_1".to_string(),
        user_id: None,
        customer_id: None,
        alias: None,
        expires_at,
        allowed_models: vec!["gpt-4o-mini".to_string()],
    }
}

#[test]
fn bearer_scheme_is_case_insensitive() {
    assert_eq!(bearer_token(Some("Bearer sk-live")).unwrap(), "sk-live");
    assert_eq!(bearer_token(Some("bearer sk-live")).unwrap(), "sk-live");
    assert_eq!(bearer_token(Some("BEARER a b")).unwrap(), "a b");
}

#[test]
fn malformed_authorization_is_rejected() {
    for header in [None, Some("sk-live"), Some("Basic sk-live"), Some("Bearer "), Some("")] {
        let error = bearer_token(header).unwrap_err();
        assert_eq!(error.kind, ErrorKind::Authentication);
        assert_eq!(error.message, "Invalid API key");
    }
}

#[test]
fn known_token_authenticates() {
    let snapshot = snapshot();
    let key = authenticate(&snapshot, Some("Bearer sk-live"), 0).unwrap();
    assert_eq!(key.token, "sk-live");
    assert_eq!(key.meta.key_id, "vk_1");
    assert_eq!(key.meta.allowed_models, ["gpt-4o-mini"]);
}

#[test]
fn unknown_token_is_rejected() {
    let snapshot = snapshot();
    let error = authenticate(&snapshot, Some("Bearer sk-other"), 0).unwrap_err();
    assert_eq!(error.kind, ErrorKind::Authentication);
}

#[test]
fn expiry_at_or_before_now_is_rejected() {
    let mut snapshot = snapshot();
    snapshot
        .keys_by_token
        .insert("sk-old".to_string(), meta(Some(100)));
    assert!(authenticate(&snapshot, Some("Bearer sk-old"), 99).is_ok());
    assert!(authenticate(&snapshot, Some("Bearer sk-old"), 100).is_err());
    assert!(authenticate(&snapshot, Some("Bearer sk-old"), 101).is_err());
}

#[test]
fn model_allow_list_is_enforced() {
    assert!(ensure_model_allowed(&meta(None), "gpt-4o-mini").is_ok());
    let error = ensure_model_allowed(&meta(None), "gpt-4o").unwrap_err();
    assert_eq!(error.kind, ErrorKind::Permission);
    assert_eq!(error.message, "Model 'gpt-4o' is not allowed for this key");
}

#[test]
fn admin_requires_enabled_api_and_known_key() {
    let keys = AdminKeys {
        keys: vec!["admin-secret".to_string()],
    };
    let disabled = require_admin(None, Some("admin-secret")).unwrap_err();
    assert_eq!(disabled.kind, ErrorKind::Permission);
    assert_eq!(disabled.message, "admin api is disabled");
    let missing = require_admin(Some(&keys), None).unwrap_err();
    assert_eq!(missing.kind, ErrorKind::Authentication);
    assert_eq!(missing.message, "Invalid admin key");
    assert!(require_admin(Some(&keys), Some("wrong")).is_err());
    assert!(require_admin(Some(&keys), Some("admin-secret")).is_ok());
}

#[test]
fn resource_ids_must_not_contain_slashes() {
    assert!(ensure_valid_resource_id("openai").is_ok());
    let error = ensure_valid_resource_id("a/b").unwrap_err();
    assert_eq!(error.kind, ErrorKind::InvalidRequest);
    assert_eq!(error.message, "admin resource id 'a/b' must not contain '/'");
}

#[test]
fn path_and_body_ids_must_match() {
    assert!(ensure_path_matches_body_id("openai", "openai").is_ok());
    let error = ensure_path_matches_body_id("openai", "anthropic").unwrap_err();
    assert_eq!(error.kind, ErrorKind::InvalidRequest);
    assert_eq!(
        error.message,
        "path id 'openai' does not match body id 'anthropic'"
    );
    let error = ensure_path_matches_body_id("openai", "x/y").unwrap_err();
    assert_eq!(error.message, "admin resource id 'x/y' must not contain '/'");
}

#[test]
fn deleting_a_missing_resource_is_not_found() {
    let write = AdminStoreWrite {
        key: "/aisix/models/m".to_string(),
        revision: 4,
    };
    let error = delete_result("models", "m", write.clone(), false).unwrap_err();
    assert_eq!(error.kind, ErrorKind::NotFound);
    assert_eq!(error.message, "models 'm' not found");
    let result = delete_result("models", "m", write, true).unwrap();
    assert_eq!(result.id, "m");
    assert_eq!(result.path, "/aisix/models/m");
    assert_eq!(result.revision, 4);
    assert_eq!(
        missing_admin_resource("providers", "openai").message,
        "providers 'openai' not found"
    );
}
