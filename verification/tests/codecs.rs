use aisix::codec::{
    auth_header, build_anthropic_request, build_openai_chat_request,
    build_openai_embeddings_request, chat_completions_path, embeddings_path, join_text_parts,
    missing_secret, secret_env_name, upstream_url, AuthHeader,
};
use aisix::config::ProviderKind;
use aisix::json::JsonValue;
use aisix::types::{
    CanonicalChatRequest, CanonicalContentPart, CanonicalMessage, CanonicalRole,
    EmbeddingsRequest, ErrorKind, ProtocolFamily,
};
use serde_json::Value;

fn canonical_request(role: CanonicalRole, text: &str) -> CanonicalChatRequest {
    CanonicalChatRequest {
        model: "gpt-4o-mini".to_string(),
        system: vec![],
        messages: vec![CanonicalMessage {
            role,
            content: vec![CanonicalContentPart::Text {
                text: text.to_string(),
            }],
        }],
        raw_messages: None,
        stream: true,
        max_tokens: None,
        stop_sequences: vec![],
        top_k: None,
        metadata: None,
        user: None,
        protocol: ProtocolFamily::OpenAi,
    }
}

fn parse(text: &str) -> Value {
    serde_json::from_str(text).unwrap()
}

#[test]
fn anthropic_upstream_request_maps_system_and_message_content() {
    let request = CanonicalChatRequest {
        model: "gpt-4o-mini".to_string(),
        system: vec!["be concise".to_string()],
        messages: vec![CanonicalMessage {
            role: CanonicalRole::User,
            content: vec![CanonicalContentPart::Text {
                text: "hello".to_string(),
            }],
        }],
        raw_messages: None,
        stream: true,
        max_tokens: Some(2048),
        stop_sequences: vec![],
        top_k: None,
        metadata: None,
        user: None,
        protocol: ProtocolFamily::OpenAi,
    };

    let body = parse(&build_anthropic_request(&request, "sonnet-upstream-latest"));

    assert_eq!(body["model"], "sonnet-upstream-latest");
    assert_eq!(body["system"], "be concise");
    assert_eq!(body["max_tokens"], 2048);
    assert_eq!(body["messages"][0]["role"], "user");
    assert_eq!(body["messages"][0]["content"], "hello");
}

#[test]
fn anthropic_upstream_request_keeps_assistant_messages() {
    let request = canonical_request(CanonicalRole::Assistant, "hello");

    let body = parse(&build_anthropic_request(&request, "sonnet-upstream-latest"));

    assert_eq!(body["messages"][0]["role"], "assistant");
    assert_eq!(body["messages"][0]["content"], "hello");
}

#[test]
fn anthropic_body_folds_system_messages_and_defaults_max_tokens() {
    let mut request = canonical_request(CanonicalRole::User, "hi");
    request.system = vec!["a".to_string()];
    request.messages.insert(
        0,
        CanonicalMessage {
            role: CanonicalRole::System,
            content: vec![
                CanonicalContentPart::Text {
                    text: "b".to_string(),
                },
                CanonicalContentPart::Text {
                    text: "c".to_string(),
                },
            ],
        },
    );
    request.stop_sequences = vec!["END".to_string()];
    request.top_k = Some(5);

    let text = build_anthropic_request(&request, "sonnet");

    assert_eq!(
        text,
        "{\"max_tokens\":1024,\"messages\":[{\"content\":\"hi\",\"role\":\"user\"}],\"model\":\"sonnet\",\"stop_sequences\":[\"END\"],\"stream\":true,\"system\":\"a\\n\\nb\\n\\nc\",\"top_k\":5}"
    );
}

#[test]
fn builds_openai_chat_body_from_canonical_chat() {
    let mut request = canonical_request(CanonicalRole::User, "hello");
    request.model = "anthropic-sonnet".to_string();
    request.system = vec!["be concise".to_string()];
    request.max_tokens = Some(256);
    request.stop_sequences = vec!["STOP".to_string()];
    request.top_k = Some(50);
    request.metadata = Some(JsonValue::Object(vec![(
        "trace_id".to_string(),
        JsonValue::Str("abc".to_string()),
    )]));
    request.user = Some("user-1".to_string());
    request.protocol = ProtocolFamily::Anthropic;

    let body = parse(&build_openai_chat_request(&request, "deepseek-chat"));

    assert_eq!(chat_completions_path(), "/v1/chat/completions");
    assert_eq!(body["model"], "deepseek-chat");
    assert_eq!(body["stream"], true);
    assert_eq!(body["max_tokens"], 256);
    assert_eq!(body["stop"], parse("[\"STOP\"]"));
    assert_eq!(body["user"], "user-1");
    assert_eq!(body["metadata"]["trace_id"], "abc");
    assert_eq!(
        body["messages"],
        parse("[{\"role\":\"system\",\"content\":\"be concise\"},{\"role\":\"user\",\"content\":\"hello\"}]")
    );
}

#[test]
fn openai_body_passes_raw_messages_through() {
    let mut request = canonical_request(CanonicalRole::User, "ignored");
    request.raw_messages = Some(vec![JsonValue::Object(vec![
        ("content".to_string(), JsonValue::Str("hi".to_string())),
        ("role".to_string(), JsonValue::Str("user".to_string())),
    ])]);
    request.stream = false;

    let text = build_openai_chat_request(&request, "gpt-4o");

    assert_eq!(
        text,
        "{\"messages\":[{\"content\":\"hi\",\"role\":\"user\"}],\"model\":\"gpt-4o\",\"stream\":false}"
    );
}

#[test]
fn embeddings_body_uses_upstream_model() {
    let request = EmbeddingsRequest {
        model: "text-embedding-3-small".to_string(),
        input: JsonValue::Str("hello".to_string()),
    };
    assert_eq!(embeddings_path(), "/v1/embeddings");
    assert_eq!(
        build_openai_embeddings_request(&request, "upstream-embed"),
        "{\"input\":\"hello\",\"model\":\"upstream-embed\"}"
    );
}

#[test]
fn text_parts_join_with_blank_lines() {
    let parts = vec![
        CanonicalContentPart::Text {
            text: "a".to_string(),
        },
        CanonicalContentPart::Text {
            text: "b".to_string(),
        },
    ];
    assert_eq!(join_text_parts(&parts), "a\n\nb");
    assert_eq!(join_text_parts(&vec![]), "");
}

#[test]
fn secrets_come_from_environment_references() {
    assert_eq!(secret_env_name("env:OPENAI_API_KEY").unwrap(), "OPENAI_API_KEY");
    let error = secret_env_name("vault:x").unwrap_err();
    assert_eq!(error.kind, ErrorKind::Internal);
    assert_eq!(error.message, "unsupported provider secret ref: vault:x");
    assert_eq!(
        missing_secret("X").message,
        "missing provider secret env var: X"
    );
}

#[test]
fn azure_takes_api_key_header_others_bearer() {
    assert_eq!(
        auth_header(ProviderKind::AzureOpenAi, "s"),
        AuthHeader::ApiKey("s".to_string())
    );
    assert_eq!(
        auth_header(ProviderKind::OpenAi, "s"),
        AuthHeader::Bearer("s".to_string())
    );
    assert_eq!(
        upstream_url("https://api.openai.com//", "/v1/embeddings"),
        "https://api.openai.com/v1/embeddings"
    );
}

#[test]
fn json_calls_are_refused_for_anthropic_only() {
    let refused = aisix::codec::ensure_json_supported(aisix::config::ProviderKind::Anthropic)
        .expect_err("anthropic answers by streaming only");
    assert_eq!(refused.kind, aisix::types::ErrorKind::InvalidRequest);
    assert_eq!(refused.message, "anthropic does not support non-stream chat yet");
    assert!(aisix::codec::ensure_json_supported(aisix::config::ProviderKind::OpenAi).is_ok());
    assert!(aisix::codec::ensure_json_supported(aisix::config::ProviderKind::AzureOpenAi).is_ok());
}
