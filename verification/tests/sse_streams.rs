use aisix::sse::sse_frames;
use aisix::stream::{
    normalize_anthropic_chat_body, normalize_openai_chat_body, NormalizedSse, SseEvent,
};
use aisix::types::{ErrorKind, GatewayError};
use serde_json::Value;

fn openai(body: &[u8]) -> Result<NormalizedSse, GatewayError> {
    normalize_openai_chat_body(body)
}

fn anthropic(body: &[u8]) -> Result<NormalizedSse, GatewayError> {
    normalize_anthropic_chat_body(body)
}

fn data_text(event: &SseEvent) -> String {
    match event {
        SseEvent::Data(bytes) => String::from_utf8(bytes.clone()).unwrap(),
        SseEvent::Done => panic!("expected a data event"),
    }
}

#[test]
fn normalizes_anthropic_chat_stream_to_openai_chunks() {
    let stream = [
        "event: message_start\n",
        "data: {\"type\":\"message_start\",\"message\":{\"id\":\"msg_test\",\"usage\":{\"input_tokens\":11,\"cache_creation_input_tokens\":7}}}\n\n",
        "event: content_block_delta\n",
        "data: {\"type\":\"content_block_delta\",\"delta\":{\"type\":\"text_delta\",\"text\":\"hi\"}}\n\n",
        "event: message_delta\n",
        "data: {\"type\":\"message_delta\",\"delta\":{\"stop_reason\":\"end_turn\"},\"usage\":{\"output_tokens\":3,\"cache_read_input_tokens\":5}}\n\n",
        "event: message_stop\n",
        "data: {\"type\":\"message_stop\"}\n\n"
    ].concat();

    let normalized = anthropic(stream.as_bytes()).unwrap();

    assert_eq!(normalized.events.len(), 3);
    assert!(matches!(normalized.events[0], SseEvent::Data(_)));
    assert!(matches!(normalized.events[1], SseEvent::Data(_)));
    assert!(matches!(normalized.events[2], SseEvent::Done));
    let first = data_text(&normalized.events[0]);
    assert!(first.contains("\"id\":\"msg_test\""));
    let usage = normalized.usage.expect("usage should be extracted");
    assert_eq!(usage.input_tokens, 11);
    assert_eq!(usage.output_tokens, 3);
    assert_eq!(usage.cache_read, 5);
    assert_eq!(usage.cache_write, 7);
    let last_chunk: Value = serde_json::from_str(&data_text(&normalized.events[1])).unwrap();
    assert_eq!(last_chunk["choices"][0]["finish_reason"], "stop");
}

#[test]
fn maps_max_tokens_stop_reason_to_length() {
    let stream = [
        "event: message_start\n",
        "data: {\"type\":\"message_start\",\"message\":{\"id\":\"msg_test\",\"usage\":{\"input_tokens\":1}}}\n\n",
        "event: content_block_delta\n",
        "data: {\"type\":\"content_block_delta\",\"delta\":{\"type\":\"text_delta\",\"text\":\"hi\"}}\n\n",
        "event: message_delta\n",
        "data: {\"type\":\"message_delta\",\"delta\":{\"stop_reason\":\"max_tokens\"},\"usage\":{\"output_tokens\":2}}\n\n",
        "event: message_stop\n",
        "data: {\"type\":\"message_stop\"}\n\n"
    ].concat();

    let normalized = anthropic(stream.as_bytes()).unwrap();

    let last_chunk: Value = serde_json::from_str(&data_text(&normalized.events[1])).unwrap();
    assert_eq!(last_chunk["choices"][0]["finish_reason"], "length");
}

#[test]
fn rejects_tool_use_stop_reason_without_tool_call_payloads() {
    let stream = [
        "event: message_start\n",
        "data: {\"type\":\"message_start\",\"message\":{\"id\":\"msg_test\",\"usage\":{\"input_tokens\":1}}}\n\n",
        "event: message_delta\n",
        "data: {\"type\":\"message_delta\",\"delta\":{\"stop_reason\":\"tool_use\"},\"usage\":{\"output_tokens\":2}}\n\n"
    ].concat();

    let error = match anthropic(stream.as_bytes()) {
        Ok(_) => panic!("tool_use should be rejected until tool-call deltas are implemented"),
        Err(error) => error,
    };

    assert_eq!(error.kind, ErrorKind::InvalidRequest);
    assert!(error.message.contains("tool_use"));
}

#[test]
fn normalizes_openai_chat_stream_and_preserves_done() {
    let stream = [
        "data: {\"choices\":[{\"delta\":{\"content\":\"hi\"}}]}\n\n",
        "data: [DONE]\n\n"
    ].concat();

    let normalized = openai(stream.as_bytes()).unwrap();

    assert_eq!(normalized.events.len(), 2);
    assert_eq!(
        data_text(&normalized.events[0]),
        "{\"choices\":[{\"delta\":{\"content\":\"hi\"}}]}"
    );
    assert!(matches!(normalized.events[1], SseEvent::Done));
    assert_eq!(normalized.usage, None);
}

#[test]
fn normalizes_crlf_framed_openai_chat_stream() {
    let stream = [
        "data: {\"choices\":[{\"delta\":{\"content\":\"hi\"}}]}\r\n\r\n",
        "data: [DONE]\r\n\r\n"
    ].concat();

    let normalized = openai(stream.as_bytes()).unwrap();

    assert_eq!(normalized.events.len(), 2);
    assert!(matches!(normalized.events[0], SseEvent::Data(_)));
    assert!(matches!(normalized.events[1], SseEvent::Done));
}

#[test]
fn openai_stream_keeps_first_reported_usage() {
    let stream = [
        "data: {\"choices\":[],\"usage\":{\"prompt_tokens\":4}}\n\n",
        "data: {\"choices\":[],\"usage\":{\"prompt_tokens\":9,\"completion_tokens\":2}}\n\n",
        "data: [DONE]\n\n"
    ].concat();

    let normalized = openai(stream.as_bytes()).unwrap();
    let usage = normalized.usage.expect("usage should be extracted");

    assert_eq!(usage.input_tokens, 4);
    assert_eq!(usage.output_tokens, 0);
}

#[test]
fn openai_stream_reports_unparseable_frames() {
    let error = match openai(b"data: {not json}\n\n") {
        Ok(_) => panic!("bad frames should fail"),
        Err(error) => error,
    };
    assert_eq!(error.kind, ErrorKind::Upstream);
    assert!(error.message.starts_with("failed to parse upstream SSE frame: "));
}

#[test]
fn invalid_utf8_body_is_an_upstream_error() {
    let error = match sse_frames(&[0xff, 0xfe]) {
        Ok(_) => panic!("invalid utf-8 should fail"),
        Err(error) => error,
    };
    assert_eq!(error.kind, ErrorKind::Upstream);
    assert!(error.message.starts_with("upstream SSE body was not valid UTF-8: "));
}

#[test]
fn frames_keep_event_names_and_join_data_lines() {
    let frames = sse_frames(b"event:  ping \r\ndata: a\r\ndata:b \n\n: comment\n\ndata: c").unwrap();
    assert_eq!(frames.len(), 2);
    assert_eq!(frames[0].event.as_deref(), Some("ping"));
    assert_eq!(frames[0].data, "a\nb");
    assert_eq!(frames[1].event, None);
    assert_eq!(frames[1].data, "c");
}

#[test]
fn anthropic_stop_emits_each_text_then_final_usage() {
    let stream = [
        "data: {\"type\":\"message_start\",\"message\":{\"id\":\"m1\",\"usage\":{\"input_tokens\":2}}}\n\n",
        "data: {\"type\":\"content_block_delta\",\"delta\":{\"text\":\"a\"}}\n\n",
        "data: {\"type\":\"content_block_delta\",\"delta\":{\"text\":\"b\"}}\n\n",
        "data: {\"type\":\"message_delta\",\"usage\":{\"output_tokens\":5}}\n\n",
        "data: {\"type\":\"message_stop\"}\n\n"
    ].concat();

    let normalized = anthropic(stream.as_bytes()).unwrap();

    assert_eq!(normalized.events.len(), 4);
    assert_eq!(
        data_text(&normalized.events[0]),
        "{\"choices\":[{\"delta\":{\"content\":\"a\",\"role\":\"assistant\"},\"finish_reason\":null,\"index\":0}],\"id\":\"m1\",\"object\":\"chat.completion.chunk\"}"
    );
    assert_eq!(
        data_text(&normalized.events[2]),
        "{\"choices\":[{\"delta\":{},\"finish_reason\":\"stop\",\"index\":0}],\"id\":\"m1\",\"object\":\"chat.completion.chunk\",\"usage\":{\"completion_tokens\":5,\"prompt_tokens\":2,\"total_tokens\":7}}"
    );
    assert!(matches!(normalized.events[3], SseEvent::Done));
}
