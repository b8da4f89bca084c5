use aisix::json::JsonValue;
use aisix::protocol::{
    anthropic_error_type, build_anthropic_json_response, build_anthropic_stream_body,
    into_canonical_request, map_finish_reason, normalize_content, normalize_system,
    render_gateway_error, require_anthropic_version, upstream_error_body, AnthropicInputMessage,
    AnthropicMessagesRequest,
};
use aisix::types::{CanonicalRole, ErrorKind, GatewayError, ProtocolFamily, Usage};
use serde_json::Value;

fn to_library(value: &Value) -> JsonValue {
    match value {
        Value::Null => JsonValue::Null,
        Value::Bool(b) => JsonValue::Bool(*b),
        Value::Number(n) => JsonValue::Number(n.to_string()),
        Value::String(s) => JsonValue::Str(s.clone()),
        Value::Array(items) => JsonValue::Array(items.iter().map(to_library).collect()),
        Value::Object(members) => JsonValue::Object(
            members
                .iter()
                .map(|(name, member)| (name.clone(), to_library(member)))
                .collect(),
        ),
    }
}

fn json(text: &str) -> JsonValue {
    to_library(&serde_json::from_str::<Value>(text).unwrap())
}

fn request(system: Option<JsonValue>, messages: Vec<AnthropicInputMessage>) -> AnthropicMessagesRequest {
    AnthropicMessagesRequest {
        model: "anthropic-sonnet".to_string(),
        system,
        messages,
        stream: false,
        max_tokens: Some(256),
        stop_sequences: vec!["STOP".to_string()],
        top_k: None,
        metadata: None,
        user: None,
        tools: None,
        tool_choice: None,
        thinking: None,
        container: None,
        extra_fields: vec![],
    }
}

fn message(role: &str, content: &str) -> AnthropicInputMessage {
    AnthropicInputMessage {
        role: role.to_string(),
        content: json(content),
    }
}

#[test]
fn converts_text_content_shapes_to_canonical_chat() {
    let canonical = into_canonical_request(request(
        Some(json("[{\"type\":\"text\",\"text\":\"be concise\"}]")),
        vec![
            message("user", "\"hello\""),
            message("assistant", "[{\"type\":\"text\",\"text\":\"hi\"}]"),
        ],
    ))
    .unwrap();

    assert_eq!(canonical.model, "anthropic-sonnet");
    assert_eq!(canonical.system, vec!["be concise".to_string()]);
    assert_eq!(canonical.messages.len(), 2);
    assert_eq!(canonical.messages[0].role, CanonicalRole::User);
    assert_eq!(canonical.messages[1].role, CanonicalRole::Assistant);
    assert_eq!(canonical.stop_sequences, vec!["STOP"]);
    assert_eq!(canonical.protocol, ProtocolFamily::Anthropic);
    assert!(!canonical.stream);
}

#[test]
fn refuses_unsupported_members_and_shapes() {
    let mut with_tools = request(None, vec![]);
    with_tools.tools = Some(JsonValue::Array(vec![]));
    let error = into_canonical_request(with_tools).unwrap_err();
    assert_eq!(error.kind, ErrorKind::InvalidRequest);
    assert_eq!(
        error.message,
        "unsupported Anthropic field in current implementation: tools"
    );

    let mut with_extra = request(None, vec![]);
    with_extra.extra_fields = vec![("service_tier".to_string(), JsonValue::Null)];
    assert_eq!(
        into_canonical_request(with_extra).unwrap_err().message,
        "unsupported Anthropic field in current implementation: service_tier"
    );

    let error = into_canonical_request(request(None, vec![message("tool", "\"x\"")])).unwrap_err();
    assert_eq!(error.message, "unsupported Anthropic message role: tool");

    let error = normalize_content(&json("[{\"type\":\"image\"}]")).unwrap_err();
    assert_eq!(
        error.message,
        "unsupported Anthropic field in current implementation: image"
    );
    let error = normalize_content(&json("[3]")).unwrap_err();
    assert_eq!(error.message, "unsupported Anthropic content block: 3");
    let error = normalize_content(&json("{\"a\":1}")).unwrap_err();
    assert_eq!(error.message, "unsupported Anthropic content shape: {\"a\":1}");
    let error = normalize_system(&Some(json("7"))).unwrap_err();
    assert_eq!(error.message, "unsupported Anthropic system shape: 7");
    let error = normalize_system(&Some(json("[{\"type\":\"text\"}]"))).unwrap_err();
    assert_eq!(error.message, "unsupported Anthropic text block");
    assert_eq!(normalize_system(&Some(JsonValue::Null)).unwrap().len(), 0);
}

#[test]
fn version_header_is_required() {
    assert_eq!(require_anthropic_version(Some("2023-06-01")).unwrap(), "2023-06-01");
    for header in [None, Some("")] {
        let error = require_anthropic_version(header).unwrap_err();
        assert_eq!(error.kind, ErrorKind::InvalidRequest);
        assert_eq!(error.message, "missing required anthropic-version header");
    }
}

#[test]
fn finish_reasons_map_to_stop_reasons() {
    assert!(matches!(map_finish_reason(None), JsonValue::Null));
    for (finish, stop) in [
        ("stop", "end_turn"),
        ("length", "max_tokens"),
        ("content_filter", "stop_sequence"),
        ("other", "other"),
    ] {
        match map_finish_reason(Some(finish)) {
            JsonValue::Str(s) => assert_eq!(s, stop),
            other => panic!("unexpected {other:?}"),
        }
    }
    assert_eq!(anthropic_error_type(429), "rate_limit_error");
    assert_eq!(anthropic_error_type(503), "overloaded_error");
    assert_eq!(anthropic_error_type(500), "api_error");
}

#[test]
fn gateway_errors_render_as_anthropic_errors() {
    let (status, body) = render_gateway_error(&GatewayError::new(
        ErrorKind::Authentication,
        "Invalid API key".to_string(),
    ));
    assert_eq!(status, 401);
    assert_eq!(
        body,
        "{\"error\":{\"message\":\"Invalid API key\",\"type\":\"authentication_error\"},\"type\":\"error\"}"
    );
}

#[test]
fn upstream_errors_keep_their_type_and_message() {
    let payload = json("{\"error\":{\"message\":\"bad model\",\"type\":\"invalid_request_error\"}}");
    let body: Value = serde_json::from_str(&upstream_error_body(400, Some(&payload))).unwrap();
    assert_eq!(body["error"]["message"], "bad model");
    assert_eq!(body["error"]["type"], "invalid_request_error");
    assert_eq!(body["type"], "error");

    let body: Value = serde_json::from_str(&upstream_error_body(503, None)).unwrap();
    assert_eq!(body["error"]["type"], "overloaded_error");
    assert_eq!(body["error"]["message"], "Service Unavailable");
}

#[test]
fn json_completions_become_anthropic_messages() {
    let upstream = Ok(json(
        "{\"id\":\"chatcmpl-1\",\"choices\":[{\"message\":{\"content\":\"hi\"},\"finish_reason\":\"length\"}]}",
    ));
    let usage = Some(Usage {
        input_tokens: 3,
        output_tokens: 4,
        cache_read: 0,
        cache_write: 0,
    });
    let (status, body) = build_anthropic_json_response(200, &upstream, usage, "sonnet").unwrap();
    assert_eq!(status, 200);
    assert_eq!(
        body,
        "{\"content\":[{\"text\":\"hi\",\"type\":\"text\"}],\"id\":\"chatcmpl-1\",\"model\":\"sonnet\",\"role\":\"assistant\",\"stop_reason\":\"max_tokens\",\"stop_sequence\":null,\"type\":\"message\",\"usage\":{\"input_tokens\":3,\"output_tokens\":4}}"
    );

    let error = build_anthropic_json_response(200, &Err("eof".to_string()), None, "sonnet").unwrap_err();
    assert_eq!(error.kind, ErrorKind::Internal);
    assert_eq!(error.message, "failed to parse openai json response: eof");

    let (status, body) =
        build_anthropic_json_response(429, &Err("eof".to_string()), None, "sonnet").unwrap();
    assert_eq!(status, 429);
    let body: Value = serde_json::from_str(&body).unwrap();
    assert_eq!(body["error"]["type"], "rate_limit_error");
}

#[test]
fn openai_chunks_become_an_anthropic_event_stream() {
    let events = vec![
        json("{\"id\":\"chatcmpl-9\",\"choices\":[{\"delta\":{\"content\":\"Hel\"}}]}"),
        json("{\"id\":\"chatcmpl-9\",\"choices\":[{\"delta\":{\"content\":\"lo\"},\"finish_reason\":\"stop\"}]}"),
    ];
    let usage = Some(Usage {
        input_tokens: 5,
        output_tokens: 2,
        cache_read: 0,
        cache_write: 0,
    });
    let body = build_anthropic_stream_body(&events, usage, "sonnet");
    let names: Vec<&str> = body
        .lines()
        .filter_map(|line| line.strip_prefix("event: "))
        .collect();
    assert_eq!(
        names,
        [
            "message_start",
            "content_block_start",
            "content_block_delta",
            "content_block_delta",
            "content_block_stop",
            "message_delta",
            "message_stop"
        ]
    );
    assert!(body.contains("\"id\":\"chatcmpl-9\""));
    assert!(body.contains("\"input_tokens\":5"));
    assert!(body.contains("\"stop_reason\":\"end_turn\""));
    assert!(body.contains("\"output_tokens\":2"));

    let empty = build_anthropic_stream_body(&[], None, "sonnet");
    assert!(empty.contains("\"id\":\"msg_aisix\""));
    assert!(empty.contains("\"stop_reason\":null,\"stop_sequence\":null},"));
}

#[test]
fn upstream_bodies_are_parsed_by_the_library() {
    let (status, body) = aisix::protocol::anthropic_json_from_upstream(
        200,
        b"{\"id\":\"chatcmpl-1\",\"choices\":[{\"message\":{\"content\":\"hi\"},\"finish_reason\":\"stop\"}]}",
        None,
        "sonnet",
    )
    .unwrap();
    assert_eq!(status, 200);
    let body: Value = serde_json::from_str(&body).unwrap();
    assert_eq!(body["content"][0]["text"], "hi");
    assert_eq!(body["stop_reason"], "end_turn");

    let error =
        aisix::protocol::anthropic_json_from_upstream(200, b"not json", None, "sonnet").unwrap_err();
    assert_eq!(error.kind, ErrorKind::Internal);
    assert!(error.message.starts_with("failed to parse openai json response: "));

    let text = aisix::protocol::anthropic_error_from_upstream(
        400,
        b"{\"error\":{\"message\":\"bad model\",\"type\":\"invalid_request_error\"}}",
    );
    let body: Value = serde_json::from_str(&text).unwrap();
    assert_eq!(body["error"]["message"], "bad model");
    let text = aisix::protocol::anthropic_error_from_upstream(503, b"<html>");
    let body: Value = serde_json::from_str(&text).unwrap();
    assert_eq!(body["error"]["message"], "Service Unavailable");
}

#[test]
fn openai_stream_bodies_become_anthropic_event_streams() {
    let body = b"data: {\"id\":\"c1\",\"choices\":[{\"delta\":{\"content\":\"hi\"},\"finish_reason\":null}]}\n\ndata: {\"id\":\"c1\",\"choices\":[{\"delta\":{},\"finish_reason\":\"stop\"}]}\n\ndata: [DONE]\n\n";
    let text = aisix::protocol::anthropic_stream_from_upstream(body, None, "sonnet").unwrap();
    assert!(text.starts_with("event: message_start\n"));
    assert!(text.contains("\"text\":\"hi\""));
    assert!(text.contains("\"stop_reason\":\"end_turn\""));
    assert!(text.ends_with("event: message_stop\ndata: {\"type\":\"message_stop\"}\n\n"));

    let error = aisix::protocol::anthropic_stream_from_upstream(b"data: {oops\n\n", None, "sonnet")
        .unwrap_err();
    assert_eq!(error.kind, ErrorKind::Upstream);
    assert!(error.message.starts_with("failed to parse upstream SSE frame: "));
}

#[test]
fn usage_is_read_from_json_answers_only() {
    let usage = aisix::stream::usage_of_body(
        b"{\"usage\":{\"prompt_tokens\":5,\"completion_tokens\":2}}",
    )
    .unwrap();
    assert_eq!(usage.input_tokens, 5);
    assert_eq!(usage.output_tokens, 2);
    assert!(aisix::stream::usage_of_body(b"not json").is_none());
    assert!(aisix::protocol::succeeded(204));
    assert!(!aisix::protocol::succeeded(302));
}

#[test]
fn invalid_utf8_streams_report_the_decoding_error() {
    let error = aisix::protocol::anthropic_stream_from_upstream(&[0xff, 0xfe], None, "sonnet")
        .unwrap_err();
    assert_eq!(error.kind, ErrorKind::Upstream);
    assert!(error
        .message
        .starts_with("upstream SSE body was not valid UTF-8: invalid utf-8 sequence"));
}
