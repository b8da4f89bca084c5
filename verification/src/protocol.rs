//! The Anthropic messages protocol at the gateway's edge: requests turned
//! into canonical chats, and OpenAI answers turned back into Anthropic
//! messages, event streams and errors.
use vstd::prelude::*;

use crate::codec::views;
use crate::config::clone_strings;
use crate::json::{
    json_at, json_from_bytes, json_get, json_quoted, json_str, json_text, parse_json, push_text,
    quote_json, write_json, JsonValue,
};
use crate::stream::{
    events_model, normalize_openai_chat_body, openai_body_outcome, EventModel, SseEvent,
};
use crate::storage::utf8_error_text;
use vstd::utf8::{decode_utf8, valid_utf8};
use crate::strmap::str_eq;
use crate::text::{concat, decimal, string_from_chars, to_owned_string, u64_to_decimal};
use crate::types::{
    status_for_kind, CanonicalChatRequest, CanonicalContentPart, CanonicalMessage, CanonicalRole,
    ErrorKind, GatewayError, ProtocolFamily, Usage,
};

verus! {

/// The `anthropic-version` header, which must be present and not empty.
pub fn require_anthropic_version(header: Option<&str>) -> (res: Result<String, GatewayError>)
    ensures
        match header {
            Some(h) if h@.len() > 0 => res matches Ok(v) && v@ == h@,
            _ => res matches Err(e) && e.kind == ErrorKind::InvalidRequest && e.message@
                == "missing required anthropic-version header"@,
        },
{
    match header {
        Some(h) => {
            if !h.is_empty() {
                return Ok(to_owned_string(h));
            }
        },
        None => {},
    }
    Err(
        GatewayError {
            kind: ErrorKind::InvalidRequest,
            message: to_owned_string("missing required anthropic-version header"),
        },
    )
}

/// One message of an Anthropic request.
#[derive(Debug)]
pub struct AnthropicInputMessage {
    pub role: String,
    pub content: JsonValue,
}

/// An Anthropic messages request, with the members that the gateway does
/// not take kept so that they can be refused.  The sampling temperature and
/// nucleus mass are fractional numbers and travel beside it.
#[derive(Debug)]
pub struct AnthropicMessagesRequest {
    pub model: String,
    pub system: Option<JsonValue>,
    pub messages: Vec<AnthropicInputMessage>,
    pub stream: bool,
    pub max_tokens: Option<u64>,
    pub stop_sequences: Vec<String>,
    pub top_k: Option<u64>,
    pub metadata: Option<JsonValue>,
    pub user: Option<String>,
    pub tools: Option<JsonValue>,
    pub tool_choice: Option<JsonValue>,
    pub thinking: Option<JsonValue>,
    pub container: Option<JsonValue>,
    pub extra_fields: Vec<(String, JsonValue)>,
}

/// An invalid-request error with `message`.
pub fn invalid_request(message: String) -> (e: GatewayError)
    ensures
        e.kind == ErrorKind::InvalidRequest,
        e.message == message,
{
    GatewayError { kind: ErrorKind::InvalidRequest, message }
}

/// The message that refuses a member the gateway does not support.
pub open spec fn unsupported_field_message(field: Seq<char>) -> Seq<char> {
    "unsupported Anthropic field in current implementation: "@ + field
}

/// The error that refuses a member the gateway does not support.
pub fn unsupported_field_error(field: &str) -> (e: GatewayError)
    ensures
        e.kind == ErrorKind::InvalidRequest,
        e.message@ == unsupported_field_message(field@),
{
    invalid_request(concat("unsupported Anthropic field in current implementation: ", field))
}

/// The first member of a request that the gateway refuses: tools, tool
/// choice, thinking, container, then any unknown member.
pub open spec fn refused_member(r: AnthropicMessagesRequest) -> Option<Seq<char>> {
    if r.tools is Some {
        Some("tools"@)
    } else if r.tool_choice is Some {
        Some("tool_choice"@)
    } else if r.thinking is Some {
        Some("thinking"@)
    } else if r.container is Some {
        Some("container"@)
    } else if r.extra_fields@.len() > 0 {
        Some(r.extra_fields@[0].0@)
    } else {
        None
    }
}

/// Refuses requests with members the gateway does not support.
pub fn reject_unsupported_top_level_fields(request: &AnthropicMessagesRequest) -> (res: Result<
    (),
    GatewayError,
>)
    ensures
        match refused_member(*request) {
            None => res is Ok,
            Some(f) => res matches Err(e) && e.kind == ErrorKind::InvalidRequest && e.message@
                == unsupported_field_message(f),
        },
{
    if request.tools.is_some() {
        return Err(unsupported_field_error("tools"));
    }
    if request.tool_choice.is_some() {
        return Err(unsupported_field_error("tool_choice"));
    }
    if request.thinking.is_some() {
        return Err(unsupported_field_error("thinking"));
    }
    if request.container.is_some() {
        return Err(unsupported_field_error("container"));
    }
    if request.extra_fields.len() > 0 {
        return Err(unsupported_field_error(request.extra_fields[0].0.as_str()));
    }
    Ok(())
}

/// The text of an optional value, when it is a string.
pub open spec fn opt_str(v: Option<JsonValue>) -> Option<Seq<char>> {
    match v {
        Some(x) => json_str(x),
        None => None,
    }
}

/// What a text block gives: a string, or an object of type `text` with a
/// string `text`; the message of the error otherwise.
pub open spec fn text_value_outcome(v: JsonValue) -> Result<Seq<char>, Seq<char>> {
    match v {
        JsonValue::Str(t) => Ok(t@),
        JsonValue::Object(_) => if opt_str(json_get(v, "type"@)) == Some("text"@) {
            match opt_str(json_get(v, "text"@)) {
                Some(t) => Ok(t),
                None => Err("unsupported Anthropic text block"@),
            }
        } else {
            Err("unsupported Anthropic text block: "@ + json_text(v))
        },
        _ => Err("unsupported Anthropic text block: "@ + json_text(v)),
    }
}

/// The results of `f` on each of `xs`, or the first error.
pub open spec fn collect<A, B>(xs: Seq<A>, f: spec_fn(A) -> Result<B, Seq<char>>) -> Result<
    Seq<B>,
    Seq<char>,
>
    decreases xs.len(),
{
    if xs.len() == 0 {
        Ok(Seq::empty())
    } else {
        match collect(xs.drop_last(), f) {
            Err(e) => Err(e),
            Ok(bs) => match f(xs.last()) {
                Err(e) => Err(e),
                Ok(b) => Ok(bs.push(b)),
            },
        }
    }
}

/// Once collecting fails, later elements do not change the error.
proof fn lemma_collect_error_stays<A, B>(xs: Seq<A>, f: spec_fn(A) -> Result<B, Seq<char>>, k: int)
    requires
        0 <= k <= xs.len(),
        collect(xs.take(k), f) is Err,
    ensures
        collect(xs, f) == collect(xs.take(k), f),
    decreases xs.len(),
{
    if k == xs.len() {
        assert(xs.take(k) =~= xs);
    } else {
        assert(xs.drop_last().take(k) =~= xs.take(k));
        lemma_collect_error_stays(xs.drop_last(), f, k);
    }
}

/// Reads a text block.
pub fn normalize_text_value(value: &JsonValue) -> (res: Result<String, GatewayError>)
    ensures
        match text_value_outcome(*value) {
            Ok(t) => res matches Ok(s) && s@ == t,
            Err(m) => res matches Err(e) && e.kind == ErrorKind::InvalidRequest && e.message@ == m,
        },
{
    match value {
        JsonValue::Str(t) => {
            return Ok(t.clone());
        },
        JsonValue::Object(_) => {
            let is_text = match value.get("type") {
                Some(k) => match k.as_str() {
                    Some(kind) => str_eq(kind, "text"),
                    None => false,
                },
                None => false,
            };
            if is_text {
                return match value.get("text") {
                    Some(t) => match t.as_str() {
                        Some(text) => Ok(to_owned_string(text)),
                        None => Err(
                            invalid_request(to_owned_string("unsupported Anthropic text block")),
                        ),
                    },
                    None => Err(invalid_request(to_owned_string("unsupported Anthropic text block"))),
                };
            }
        },
        _ => {},
    }
    let text = crate::json::to_json_text(value);
    Err(invalid_request(concat("unsupported Anthropic text block: ", text.as_str())))
}

/// What the system member gives: nothing, one string, or the texts of an
/// array of text blocks.
pub open spec fn system_outcome(system: Option<JsonValue>) -> Result<Seq<Seq<char>>, Seq<char>> {
    match system {
        None => Ok(Seq::empty()),
        Some(v) => match v {
            JsonValue::Null => Ok(Seq::empty()),
            JsonValue::Str(t) => Ok(seq![t@]),
            JsonValue::Array(parts) => collect(parts@, |p: JsonValue| text_value_outcome(p)),
            _ => Err("unsupported Anthropic system shape: "@ + json_text(v)),
        },
    }
}

/// Reads the system member.
pub fn normalize_system(system: &Option<JsonValue>) -> (res: Result<Vec<String>, GatewayError>)
    ensures
        match system_outcome(*system) {
            Ok(ts) => res matches Ok(v) && views(v@) == ts,
            Err(m) => res matches Err(e) && e.kind == ErrorKind::InvalidRequest && e.message@ == m,
        },
{
    let value = match system {
        None => {
            let v: Vec<String> = Vec::new();
            proof {
                assert(views(v@) =~= Seq::<Seq<char>>::empty());
            }
            return Ok(v);
        },
        Some(v) => v,
    };
    match value {
        JsonValue::Null => {
            let v: Vec<String> = Vec::new();
            proof {
                assert(views(v@) =~= Seq::<Seq<char>>::empty());
            }
            Ok(v)
        },
        JsonValue::Str(t) => {
            let mut v: Vec<String> = Vec::new();
            v.push(t.clone());
            proof {
                assert(views(v@) =~= seq![t@]);
            }
            Ok(v)
        },
        JsonValue::Array(parts) => {
            let ghost f = |p: JsonValue| text_value_outcome(p);
            let mut out: Vec<String> = Vec::new();
            let mut i: usize = 0;
            proof {
                assert(parts@.take(0) =~= Seq::<JsonValue>::empty());
                assert(views(out@) =~= Seq::<Seq<char>>::empty());
            }
            while i < parts.len()
                invariant
                    i <= parts@.len(),
                    collect(parts@.take(i as int), f) == Ok::<Seq<Seq<char>>, Seq<char>>(
                        views(out@),
                    ),
                    f == (|p: JsonValue| text_value_outcome(p)),
                    *system == Some(*value),
                    *value == JsonValue::Array(*parts),
                decreases parts@.len() - i,
            {
                let ghost t = parts@.take(i + 1);
                proof {
                    assert(t.drop_last() =~= parts@.take(i as int));
                    assert(t.last() == parts@[i as int]);
                }
                match normalize_text_value(&parts[i]) {
                    Ok(s) => {
                        let ghost before = views(out@);
                        out.push(s);
                        proof {
                            assert(views(out@) =~= before.push(s@));
                        }
                    },
                    Err(e) => {
                        proof {
                            assert(f(parts@[i as int]) == text_value_outcome(parts@[i as int]));
                            lemma_collect_error_stays(parts@, f, i + 1);
                            assert(f =~= (|p: JsonValue| text_value_outcome(p)));
                        }
                        return Err(e);
                    },
                }
                i = i + 1;
            }
            proof {
                assert(parts@.take(parts@.len() as int) =~= parts@);
                assert(f =~= (|p: JsonValue| text_value_outcome(p)));
            }
            Ok(out)
        },
        _ => {
            let text = crate::json::to_json_text(value);
            Err(invalid_request(concat("unsupported Anthropic system shape: ", text.as_str())))
        },
    }
}

/// What one content block gives: an object of type `text` with a string
/// `text`; another type is an unsupported member; anything else is refused
/// with its JSON text.
pub open spec fn part_outcome(p: JsonValue) -> Result<Seq<char>, Seq<char>> {
    if !(p is Object) {
        Err("unsupported Anthropic content block: "@ + json_text(p))
    } else {
        match opt_str(json_get(p, "type"@)) {
            None => Err("unsupported Anthropic content block: "@ + json_text(p)),
            Some(kind) => if kind != "text"@ {
                Err(unsupported_field_message(kind))
            } else {
                match opt_str(json_get(p, "text"@)) {
                    Some(t) => Ok(t),
                    None => Err("unsupported Anthropic content block: "@ + json_text(p)),
                }
            },
        }
    }
}

/// What a message's content gives: one string, or the texts of an array of
/// content blocks.
pub open spec fn content_outcome(v: JsonValue) -> Result<Seq<Seq<char>>, Seq<char>> {
    match v {
        JsonValue::Str(t) => Ok(seq![t@]),
        JsonValue::Array(parts) => collect(parts@, |p: JsonValue| part_outcome(p)),
        _ => Err("unsupported Anthropic content shape: "@ + json_text(v)),
    }
}

/// The texts of content parts.
pub open spec fn part_texts(ps: Seq<CanonicalContentPart>) -> Seq<Seq<char>> {
    ps.map_values(|p: CanonicalContentPart| crate::codec::part_text(p))
}

/// Reads one content block.
fn normalize_part(part: &JsonValue) -> (res: Result<String, GatewayError>)
    ensures
        match part_outcome(*part) {
            Ok(t) => res matches Ok(s) && s@ == t,
            Err(m) => res matches Err(e) && e.kind == ErrorKind::InvalidRequest && e.message@ == m,
        },
{
    let is_object = match part {
        JsonValue::Object(_) => true,
        _ => false,
    };
    if is_object {
        match part.get("type") {
            Some(k) => match k.as_str() {
                Some(kind) => {
                    if !str_eq(kind, "text") {
                        return Err(unsupported_field_error(kind));
                    }
                    match part.get("text") {
                        Some(t) => match t.as_str() {
                            Some(text) => {
                                return Ok(to_owned_string(text));
                            },
                            None => {},
                        },
                        None => {},
                    }
                },
                None => {},
            },
            None => {},
        }
    }
    let text = crate::json::to_json_text(part);
    Err(invalid_request(concat("unsupported Anthropic content block: ", text.as_str())))
}

/// Reads a message's content.
pub fn normalize_content(content: &JsonValue) -> (res: Result<Vec<CanonicalContentPart>, GatewayError>)
    ensures
        match content_outcome(*content) {
            Ok(ts) => res matches Ok(v) && part_texts(v@) == ts,
            Err(m) => res matches Err(e) && e.kind == ErrorKind::InvalidRequest && e.message@ == m,
        },
{
    match content {
        JsonValue::Str(t) => {
            let mut v: Vec<CanonicalContentPart> = Vec::new();
            v.push(CanonicalContentPart::Text { text: t.clone() });
            proof {
                assert(part_texts(v@) =~= seq![t@]);
            }
            Ok(v)
        },
        JsonValue::Array(parts) => {
            let ghost f = |p: JsonValue| part_outcome(p);
            let mut out: Vec<CanonicalContentPart> = Vec::new();
            let mut i: usize = 0;
            proof {
                assert(parts@.take(0) =~= Seq::<JsonValue>::empty());
                assert(part_texts(out@) =~= Seq::<Seq<char>>::empty());
            }
            while i < parts.len()
                invariant
                    i <= parts@.len(),
                    collect(parts@.take(i as int), f) == Ok::<Seq<Seq<char>>, Seq<char>>(
                        part_texts(out@),
                    ),
                    f == (|p: JsonValue| part_outcome(p)),
                    *content == JsonValue::Array(*parts),
                decreases parts@.len() - i,
            {
                let ghost t = parts@.take(i + 1);
                proof {
                    assert(t.drop_last() =~= parts@.take(i as int));
                    assert(t.last() == parts@[i as int]);
                    assert(f(parts@[i as int]) == part_outcome(parts@[i as int]));
                }
                match normalize_part(&parts[i]) {
                    Ok(s) => {
                        let ghost before = part_texts(out@);
                        out.push(CanonicalContentPart::Text { text: s });
                        proof {
                            assert(part_texts(out@) =~= before.push(s@));
                        }
                    },
                    Err(e) => {
                        proof {
                            lemma_collect_error_stays(parts@, f, i + 1);
                            assert(f =~= (|p: JsonValue| part_outcome(p)));
                        }
                        return Err(e);
                    },
                }
                i = i + 1;
            }
            proof {
                assert(parts@.take(parts@.len() as int) =~= parts@);
                assert(f =~= (|p: JsonValue| part_outcome(p)));
            }
            Ok(out)
        },
        _ => {
            let text = crate::json::to_json_text(content);
            Err(invalid_request(concat("unsupported Anthropic content shape: ", text.as_str())))
        },
    }
}

/// What one message gives: its role, which must be `user` or `assistant`,
/// and the texts of its content.
pub open spec fn message_outcome(m: AnthropicInputMessage) -> Result<
    (CanonicalRole, Seq<Seq<char>>),
    Seq<char>,
> {
    let role = if m.role@ == "user"@ {
        Some(CanonicalRole::User)
    } else if m.role@ == "assistant"@ {
        Some(CanonicalRole::Assistant)
    } else {
        None
    };
    match role {
        None => Err("unsupported Anthropic message role: "@ + m.role@),
        Some(r) => match content_outcome(m.content) {
            Err(e) => Err(e),
            Ok(ts) => Ok((r, ts)),
        },
    }
}

/// The role and texts of a canonical message.
pub open spec fn message_model(m: CanonicalMessage) -> (CanonicalRole, Seq<Seq<char>>) {
    (m.role, part_texts(m.content@))
}

/// Reads the messages of a request.
pub fn normalize_messages(messages: &Vec<AnthropicInputMessage>) -> (res: Result<
    Vec<CanonicalMessage>,
    GatewayError,
>)
    ensures
        match collect(messages@, |m: AnthropicInputMessage| message_outcome(m)) {
            Ok(ms) => res matches Ok(v) && v@.map_values(|m: CanonicalMessage| message_model(m))
                == ms,
            Err(m) => res matches Err(e) && e.kind == ErrorKind::InvalidRequest && e.message@ == m,
        },
{
    let ghost f = |m: AnthropicInputMessage| message_outcome(m);
    let mut out: Vec<CanonicalMessage> = Vec::new();
    let mut i: usize = 0;
    proof {
        assert(messages@.take(0) =~= Seq::<AnthropicInputMessage>::empty());
        assert(out@.map_values(|m: CanonicalMessage| message_model(m)) =~= Seq::<
            (CanonicalRole, Seq<Seq<char>>),
        >::empty());
    }
    while i < messages.len()
        invariant
            i <= messages@.len(),
            collect(messages@.take(i as int), f) == Ok::<
                Seq<(CanonicalRole, Seq<Seq<char>>)>,
                Seq<char>,
            >(out@.map_values(|m: CanonicalMessage| message_model(m))),
            f == (|m: AnthropicInputMessage| message_outcome(m)),
        decreases messages@.len() - i,
    {
        let ghost t = messages@.take(i + 1);
        proof {
            assert(t.drop_last() =~= messages@.take(i as int));
            assert(t.last() == messages@[i as int]);
            assert(f(messages@[i as int]) == message_outcome(messages@[i as int]));
        }
        let message = &messages[i];
        let role = if str_eq(message.role.as_str(), "user") {
            CanonicalRole::User
        } else if str_eq(message.role.as_str(), "assistant") {
            CanonicalRole::Assistant
        } else {
            proof {
                lemma_collect_error_stays(messages@, f, i + 1);
                assert(f =~= (|m: AnthropicInputMessage| message_outcome(m)));
            }
            return Err(
                invalid_request(concat("unsupported Anthropic message role: ", message.role.as_str())),
            );
        };
        proof {
            reveal_strlit("user");
            reveal_strlit("assistant");
        }
        match normalize_content(&message.content) {
            Ok(content) => {
                let ghost before = out@.map_values(|m: CanonicalMessage| message_model(m));
                let m = CanonicalMessage { role, content };
                out.push(m);
                proof {
                    assert(out@.map_values(|m: CanonicalMessage| message_model(m)) =~= before.push(
                        message_model(m),
                    ));
                }
            },
            Err(e) => {
                proof {
                    lemma_collect_error_stays(messages@, f, i + 1);
                    assert(f =~= (|m: AnthropicInputMessage| message_outcome(m)));
                }
                return Err(e);
            },
        }
        i = i + 1;
    }
    proof {
        assert(messages@.take(messages@.len() as int) =~= messages@);
        assert(f =~= (|m: AnthropicInputMessage| message_outcome(m)));
    }
    Ok(out)
}

/// Turns an Anthropic messages request into a canonical chat: refused
/// members first, then the system texts, then the messages.
pub fn into_canonical_request(request: AnthropicMessagesRequest) -> (res: Result<
    CanonicalChatRequest,
    GatewayError,
>)
    ensures
        match refused_member(request) {
            Some(f) => res matches Err(e) && e.kind == ErrorKind::InvalidRequest && e.message@
                == unsupported_field_message(f),
            None => match system_outcome(request.system) {
                Err(m) => res matches Err(e) && e.kind == ErrorKind::InvalidRequest && e.message@
                    == m,
                Ok(system) => match collect(
                    request.messages@,
                    |m: AnthropicInputMessage| message_outcome(m),
                ) {
                    Err(m) => res matches Err(e) && e.kind == ErrorKind::InvalidRequest
                        && e.message@ == m,
                    Ok(ms) => res matches Ok(c) && c.model == request.model && views(c.system@)
                        == system && c.messages@.map_values(|m: CanonicalMessage| message_model(m))
                        == ms && c.raw_messages is None && c.stream == request.stream
                        && c.max_tokens == request.max_tokens && c.stop_sequences
                        == request.stop_sequences && c.top_k == request.top_k && c.metadata
                        == request.metadata && c.user == request.user && c.protocol
                        == ProtocolFamily::Anthropic,
                },
            },
        },
{
    match reject_unsupported_top_level_fields(&request) {
        Ok(()) => {},
        Err(e) => {
            return Err(e);
        },
    }
    let system = match normalize_system(&request.system) {
        Ok(s) => s,
        Err(e) => {
            return Err(e);
        },
    };
    let messages = match normalize_messages(&request.messages) {
        Ok(m) => m,
        Err(e) => {
            return Err(e);
        },
    };
    Ok(
        CanonicalChatRequest {
            model: request.model,
            system,
            messages,
            raw_messages: None,
            stream: request.stream,
            max_tokens: request.max_tokens,
            stop_sequences: request.stop_sequences,
            top_k: request.top_k,
            metadata: request.metadata,
            user: request.user,
            protocol: ProtocolFamily::Anthropic,
        },
    )
}

/// The Anthropic stop reason for an OpenAI finish reason.
pub open spec fn anthropic_stop_reason(reason: Option<Seq<char>>) -> Option<Seq<char>> {
    match reason {
        None => None,
        Some(r) => Some(
            if r == "stop"@ {
                "end_turn"@
            } else if r == "length"@ {
                "max_tokens"@
            } else if r == "content_filter"@ {
                "stop_sequence"@
            } else {
                r
            },
        ),
    }
}

/// The JSON text of a stop reason: a string, or `null`.
pub open spec fn stop_reason_text(reason: Option<Seq<char>>) -> Seq<char> {
    match anthropic_stop_reason(reason) {
        Some(s) => json_quoted(s),
        None => "null"@,
    }
}

/// Maps an OpenAI finish reason to an Anthropic stop reason.
pub fn map_finish_reason(reason: Option<&str>) -> (res: JsonValue)
    ensures
        reason is None ==> res is Null,
        reason matches Some(r) ==> (res matches JsonValue::Str(s) && Some(s@)
            == anthropic_stop_reason(Some(r@))),
        json_text(res) == stop_reason_text(
            match reason {
                Some(r) => Some(r@),
                None => None,
            },
        ),
{
    proof {
        reveal_strlit("null");
    }
    match reason {
        None => JsonValue::Null,
        Some(r) => {
            let mapped = if str_eq(r, "stop") {
                to_owned_string("end_turn")
            } else if str_eq(r, "length") {
                to_owned_string("max_tokens")
            } else if str_eq(r, "content_filter") {
                to_owned_string("stop_sequence")
            } else {
                to_owned_string(r)
            };
            JsonValue::Str(mapped)
        },
    }
}

/// The texts of an array whose elements are all strings.
pub open spec fn string_texts(parts: Seq<JsonValue>) -> Seq<Seq<char>> {
    Seq::new(parts.len(), |i: int| parts[i]->Str_0@)
}

/// Every element of an array of strings is kept, in order.
proof fn lemma_collect_strings(parts: Seq<JsonValue>)
    requires
        forall|i: int| 0 <= i < parts.len() ==> #[trigger] parts[i] is Str,
    ensures
        collect(parts, |p: JsonValue| text_value_outcome(p)) == Ok::<Seq<Seq<char>>, Seq<char>>(
            string_texts(parts),
        ),
    decreases parts.len(),
{
    if parts.len() > 0 {
        let d = parts.drop_last();
        assert forall|i: int| 0 <= i < d.len() implies #[trigger] d[i] is Str by {
            assert(d[i] == parts[i]);
        }
        lemma_collect_strings(d);
        assert(parts.last() == parts[parts.len() - 1]);
        assert(string_texts(d).push(parts.last()->Str_0@) =~= string_texts(parts));
        let f = |p: JsonValue| text_value_outcome(p);
        assert(f(parts.last()) == Ok::<Seq<char>, Seq<char>>(parts.last()->Str_0@));
        assert(collect(d, f) == Ok::<Seq<Seq<char>>, Seq<char>>(string_texts(d)));
    } else {
        assert(string_texts(parts) =~= Seq::<Seq<char>>::empty());
    }
}

/// The system prompt reaches the canonical chat whole: no system member or
/// a null one gives no system text, a string gives exactly that text, and an
/// array of strings gives each of them, in order.
pub proof fn lemma_system_texts_kept(t: String, parts: Vec<JsonValue>)
    ensures
        system_outcome(None) == Ok::<Seq<Seq<char>>, Seq<char>>(Seq::empty()),
        system_outcome(Some(JsonValue::Null)) == Ok::<Seq<Seq<char>>, Seq<char>>(Seq::empty()),
        system_outcome(Some(JsonValue::Str(t))) == Ok::<Seq<Seq<char>>, Seq<char>>(seq![t@]),
        (forall|i: int| 0 <= i < parts@.len() ==> #[trigger] parts@[i] is Str) ==> (system_outcome(
            Some(JsonValue::Array(parts)),
        ) matches Ok(texts) && texts.len() == parts@.len() && forall|i: int|
            0 <= i < parts@.len() ==> texts[i] == (#[trigger] parts@[i])->Str_0@),
{
    if forall|i: int| 0 <= i < parts@.len() ==> #[trigger] parts@[i] is Str {
        lemma_collect_strings(parts@);
    }
}

/// The Anthropic error type of each status, and so of each kind of gateway
/// error: 401 (authentication) is an authentication error, 403 (permission)
/// a permission error, 429 (rate limits) a rate-limit error, 400 and 404
/// invalid requests, 503 an overload; every other status is an API error.
pub proof fn lemma_anthropic_error_types(status: u16)
    ensures
        anthropic_error_type_for(401) == "authentication_error"@,
        anthropic_error_type_for(403) == "permission_error"@,
        anthropic_error_type_for(429) == "rate_limit_error"@,
        anthropic_error_type_for(400) == "invalid_request_error"@,
        anthropic_error_type_for(404) == "invalid_request_error"@,
        anthropic_error_type_for(503) == "overloaded_error"@,
        status != 401 && status != 403 && status != 429 && status != 400 && status != 404 && status
            != 503 ==> anthropic_error_type_for(status) == "api_error"@,
        anthropic_error_type_for(status_for_kind(ErrorKind::Authentication))
            == "authentication_error"@,
        anthropic_error_type_for(status_for_kind(ErrorKind::Permission)) == "permission_error"@,
        anthropic_error_type_for(status_for_kind(ErrorKind::RateLimited)) == "rate_limit_error"@,
        anthropic_error_type_for(status_for_kind(ErrorKind::InvalidRequest))
            == "invalid_request_error"@,
        anthropic_error_type_for(status_for_kind(ErrorKind::NotFound)) == "invalid_request_error"@,
        anthropic_error_type_for(status_for_kind(ErrorKind::Internal)) == "api_error"@,
        anthropic_error_type_for(status_for_kind(ErrorKind::Upstream)) == "api_error"@,
        anthropic_error_type_for(status_for_kind(ErrorKind::Timeout)) == "api_error"@,
{
}

/// The Anthropic error type for an HTTP status.
pub open spec fn anthropic_error_type_for(status: u16) -> Seq<char> {
    if status == 401 {
        "authentication_error"@
    } else if status == 403 {
        "permission_error"@
    } else if status == 429 {
        "rate_limit_error"@
    } else if status == 400 || status == 404 {
        "invalid_request_error"@
    } else if status == 503 {
        "overloaded_error"@
    } else {
        "api_error"@
    }
}

/// The Anthropic error type for an HTTP status.
pub fn anthropic_error_type(status: u16) -> (t: &'static str)
    ensures
        t@ == anthropic_error_type_for(status),
{
    if status == 401 {
        "authentication_error"
    } else if status == 403 {
        "permission_error"
    } else if status == 429 {
        "rate_limit_error"
    } else if status == 400 || status == 404 {
        "invalid_request_error"
    } else if status == 503 {
        "overloaded_error"
    } else {
        "api_error"
    }
}

/// The body of an Anthropic error: its type and message.
pub open spec fn error_envelope_text(error_type: Seq<char>, message: Seq<char>) -> Seq<char> {
    "{\"error\":{\"message\":"@ + json_quoted(message) + ",\"type\":"@ + json_quoted(error_type)
        + "},\"type\":\"error\"}"@
}

/// Writes the body of an Anthropic error.
pub fn render_error(error_type: &str, message: &str) -> (body: String)
    ensures
        body@ == error_envelope_text(error_type@, message@),
{
    let mut out: Vec<char> = Vec::new();
    push_text(&mut out, "{\"error\":{\"message\":");
    push_text(&mut out, quote_json(message).as_str());
    push_text(&mut out, ",\"type\":");
    push_text(&mut out, quote_json(error_type).as_str());
    push_text(&mut out, "},\"type\":\"error\"}");
    string_from_chars(&out)
}

/// A gateway error as an Anthropic error: its status and body.
pub fn render_gateway_error(error: &GatewayError) -> (res: (u16, String))
    ensures
        res.0 == crate::types::status_for_kind(error.kind),
        res.1@ == error_envelope_text(
            anthropic_error_type_for(crate::types::status_for_kind(error.kind)),
            error.message@,
        ),
{
    let status = error.status_code();
    let body = render_error(anthropic_error_type(status), error.message.as_str());
    (status, body)
}

/// The reason phrase that `http` gives a status code, if it knows one.
pub uninterp spec fn status_reason_phrase(status: u16) -> Option<Seq<char>>;

/// The reason phrase of a status code.
/// Calls `http::StatusCode::canonical_reason`; the contract names its result.
/// A number that `http` does not take as a status code has no phrase.
#[verifier::external_body]
fn canonical_reason(status: u16) -> (res: Option<String>)
    ensures
        match res {
            Some(s) => status_reason_phrase(status) == Some(s@),
            None => status_reason_phrase(status) is None,
        },
{
    match http::StatusCode::from_u16(status) {
        Ok(code) => code.canonical_reason().map(|reason| reason.to_string()),
        Err(_) => None,
    }
}

/// The member `name` of a value, or `null`, as `serde_json` indexing gives it.
pub open spec fn member_or_null(v: JsonValue, name: Seq<char>) -> JsonValue {
    match json_get(v, name) {
        Some(x) => x,
        None => JsonValue::Null,
    }
}

/// The element `i` of a value, or `null`.
pub open spec fn element_or_null(v: JsonValue, i: int) -> JsonValue {
    match json_at(v, i) {
        Some(x) => x,
        None => JsonValue::Null,
    }
}

/// The type and message of the Anthropic error that answers an upstream
/// failure: taken from the upstream `error` object when it has them (the
/// message also from a top-level `message`), else from the status.
pub open spec fn upstream_error_fields(status: u16, payload: Option<JsonValue>) -> (Seq<char>, Seq<char>) {
    let error = match payload {
        Some(p) => json_get(p, "error"@),
        None => None,
    };
    let error_type = match error {
        Some(e) => match opt_str(json_get(e, "type"@)) {
            Some(t) => t,
            None => anthropic_error_type_for(status),
        },
        None => anthropic_error_type_for(status),
    };
    let from_error = match error {
        Some(e) => opt_str(json_get(e, "message"@)),
        None => None,
    };
    let top = match payload {
        Some(p) => opt_str(json_get(p, "message"@)),
        None => None,
    };
    let message = match from_error {
        Some(m) => m,
        None => match top {
            Some(m) => m,
            None => match status_reason_phrase(status) {
                Some(r) => r,
                None => "request failed"@,
            },
        },
    };
    (error_type, message)
}

/// A string member of an optional value.
fn member_str<'a>(v: Option<&'a JsonValue>, name: &str) -> (res: Option<&'a str>)
    ensures
        match res {
            Some(s) => opt_str(
                match v {
                    Some(x) => json_get(*x, name@),
                    None => None,
                },
            ) == Some(s@),
            None => opt_str(
                match v {
                    Some(x) => json_get(*x, name@),
                    None => None,
                },
            ) is None,
        },
{
    match v {
        Some(x) => match x.get(name) {
            Some(m) => m.as_str(),
            None => None,
        },
        None => None,
    }
}

/// The body of the Anthropic error that answers an upstream failure with
/// `status`; `payload` is the upstream body when it is JSON.
pub fn upstream_error_body(status: u16, payload: Option<&JsonValue>) -> (body: String)
    ensures
        ({
            let (t, m) = upstream_error_fields(
                status,
                match payload {
                    Some(p) => Some(*p),
                    None => None,
                },
            );
            body@ == error_envelope_text(t, m)
        }),
{
    let error = match payload {
        Some(p) => p.get("error"),
        None => None,
    };
    let error_type: String = match member_str(error, "type") {
        Some(t) => to_owned_string(t),
        None => to_owned_string(anthropic_error_type(status)),
    };
    let message: String = match member_str(error, "message") {
        Some(m) => to_owned_string(m),
        None => match member_str(payload, "message") {
            Some(m) => to_owned_string(m),
            None => match canonical_reason(status) {
                Some(r) => r,
                None => to_owned_string("request failed"),
            },
        },
    };
    render_error(error_type.as_str(), message.as_str())
}

/// Whether a status code reports success.
pub open spec fn is_success(status: u16) -> bool {
    200 <= status && status <= 299
}

/// Whether a status code reports success: one from 200 to 299.
pub fn succeeded(status: u16) -> (b: bool)
    ensures
        b == is_success(status),
{
    200 <= status && status <= 299
}

/// The text of an Anthropic message made from an OpenAI chat completion:
/// the first choice's content, its stop reason, the token usage.
pub open spec fn anthropic_message_text(upstream: JsonValue, usage: Option<Usage>, model: Seq<char>) -> Seq<
    char,
> {
    let choice = element_or_null(member_or_null(upstream, "choices"@), 0);
    let text = match json_str(member_or_null(member_or_null(choice, "message"@), "content"@)) {
        Some(t) => t,
        None => Seq::empty(),
    };
    let (input, output) = match usage {
        Some(u) => (u.input_tokens, u.output_tokens),
        None => (0u64, 0u64),
    };
    "{\"content\":[{\"text\":"@ + json_quoted(text) + ",\"type\":\"text\"}],\"id\":"@ + json_text(
        member_or_null(upstream, "id"@),
    ) + ",\"model\":"@ + json_quoted(model) + ",\"role\":\"assistant\",\"stop_reason\":"@
        + stop_reason_text(json_str(member_or_null(choice, "finish_reason"@)))
        + ",\"stop_sequence\":null,\"type\":\"message\",\"usage\":{\"input_tokens\":"@ + decimal(
        input as nat,
    ) + ",\"output_tokens\":"@ + decimal(output as nat) + "}}"@
}

/// A member of a value, as a reference to it or to `null`.
fn member_ref<'a>(v: &'a JsonValue, name: &str, null: &'a JsonValue) -> (res: &'a JsonValue)
    requires
        *null == JsonValue::Null,
    ensures
        *res == member_or_null(*v, name@),
{
    match v.get(name) {
        Some(x) => x,
        None => null,
    }
}

/// The first element of a value, as a reference to it or to `null`.
fn first_ref<'a>(v: &'a JsonValue, null: &'a JsonValue) -> (res: &'a JsonValue)
    requires
        *null == JsonValue::Null,
    ensures
        *res == element_or_null(*v, 0),
{
    match v.at(0) {
        Some(x) => x,
        None => null,
    }
}

/// Appends the decimal text of a number.
fn push_decimal(out: &mut Vec<char>, n: u64)
    ensures
        final(out)@ == old(out)@ + decimal(n as nat),
{
    let text = string_from_chars(&u64_to_decimal(n));
    push_text(out, text.as_str());
}

/// Writes the Anthropic message for an OpenAI chat completion.
fn anthropic_message(upstream: &JsonValue, usage: Option<Usage>, model: &str) -> (body: String)
    ensures
        body@ == anthropic_message_text(*upstream, usage, model@),
{
    let null = JsonValue::Null;
    let choice = first_ref(member_ref(upstream, "choices", &null), &null);
    let text: &str = match member_ref(member_ref(choice, "message", &null), "content", &null).as_str() {
        Some(t) => t,
        None => "",
    };
    proof {
        reveal_strlit("");
    }
    let (input, output) = match usage {
        Some(u) => (u.input_tokens, u.output_tokens),
        None => (0u64, 0u64),
    };
    let stop = map_finish_reason(member_ref(choice, "finish_reason", &null).as_str());
    let mut out: Vec<char> = Vec::new();
    push_text(&mut out, "{\"content\":[{\"text\":");
    push_text(&mut out, quote_json(text).as_str());
    push_text(&mut out, ",\"type\":\"text\"}],\"id\":");
    write_json(member_ref(upstream, "id", &null), &mut out);
    push_text(&mut out, ",\"model\":");
    push_text(&mut out, quote_json(model).as_str());
    push_text(&mut out, ",\"role\":\"assistant\",\"stop_reason\":");
    write_json(&stop, &mut out);
    push_text(
        &mut out,
        ",\"stop_sequence\":null,\"type\":\"message\",\"usage\":{\"input_tokens\":",
    );
    push_decimal(&mut out, input);
    push_text(&mut out, ",\"output_tokens\":");
    push_decimal(&mut out, output);
    push_text(&mut out, "}}");
    proof {
        let ghost c = element_or_null(member_or_null(*upstream, "choices"@), 0);
        assert(*choice == c);
        let ghost t = match json_str(member_or_null(member_or_null(c, "message"@), "content"@)) {
            Some(t) => t,
            None => Seq::empty(),
        };
        assert(text@ == t);
        assert(json_text(stop) == stop_reason_text(json_str(member_or_null(c, "finish_reason"@))));
        assert(out@ =~= anthropic_message_text(*upstream, usage, model@));
    }
    string_from_chars(&out)
}

/// The Anthropic answer to an OpenAI chat completion: on success the message
/// made from the parsed upstream body, which must be JSON; otherwise the
/// error made from the upstream body.  `parsed` is what parsing the upstream
/// body as JSON gave.
pub fn build_anthropic_json_response(
    status: u16,
    parsed: &Result<JsonValue, String>,
    usage: Option<Usage>,
    model: &str,
) -> (res: Result<(u16, String), GatewayError>)
    ensures
        !is_success(status) ==> (res matches Ok((s, body)) && s == status && ({
            let (t, m) = upstream_error_fields(
                status,
                match parsed {
                    Ok(p) => Some(*p),
                    Err(_) => None,
                },
            );
            body@ == error_envelope_text(t, m)
        })),
        is_success(status) ==> match parsed {
            Ok(upstream) => (res matches Ok((s, body)) && s == status && body@
                == anthropic_message_text(*upstream, usage, model@)),
            Err(e) => (res matches Err(err) && err.kind == ErrorKind::Internal && err.message@
                == "failed to parse openai json response: "@ + e@),
        },
{
    if !(200 <= status && status <= 299) {
        let payload = match parsed {
            Ok(p) => Some(p),
            Err(_) => None,
        };
        return Ok((status, upstream_error_body(status, payload)));
    }
    match parsed {
        Ok(upstream) => Ok((status, anthropic_message(upstream, usage, model))),
        Err(e) => Err(
            GatewayError {
                kind: ErrorKind::Internal,
                message: concat("failed to parse openai json response: ", e.as_str()),
            },
        ),
    }
}

/// The Anthropic answer to an OpenAI chat completion whose body is `body`:
/// `build_anthropic_json_response` with the body parsed as JSON.
pub fn anthropic_json_from_upstream(
    status: u16,
    body: &[u8],
    usage: Option<Usage>,
    model: &str,
) -> (res: Result<(u16, String), GatewayError>)
    ensures
        !is_success(status) ==> (res matches Ok((s, text)) && s == status && ({
            let (t, m) = upstream_error_fields(
                status,
                match json_from_bytes(body@) {
                    Ok(p) => Some(p),
                    Err(_) => None,
                },
            );
            text@ == error_envelope_text(t, m)
        })),
        is_success(status) ==> match json_from_bytes(body@) {
            Ok(upstream) => (res matches Ok((s, text)) && s == status && text@
                == anthropic_message_text(upstream, usage, model@)),
            Err(e) => (res matches Err(err) && err.kind == ErrorKind::Internal && err.message@
                == "failed to parse openai json response: "@ + e),
        },
{
    let parsed = parse_json(body);
    build_anthropic_json_response(status, &parsed, usage, model)
}

/// The body of the Anthropic error that answers an upstream failure with
/// `status` and body `body`: `upstream_error_body` with the body's JSON, when
/// it is JSON.
pub fn anthropic_error_from_upstream(status: u16, body: &[u8]) -> (text: String)
    ensures
        ({
            let (t, m) = upstream_error_fields(
                status,
                match json_from_bytes(body@) {
                    Ok(p) => Some(p),
                    Err(_) => None,
                },
            );
            text@ == error_envelope_text(t, m)
        }),
{
    let parsed = parse_json(body);
    match &parsed {
        Ok(p) => upstream_error_body(status, Some(p)),
        Err(_) => upstream_error_body(status, None),
    }
}

/// The JSON chunks that the data events of a normalised stream carry, or
/// the text of the first one that does not parse.
pub open spec fn data_chunks(events: Seq<EventModel>) -> Result<Seq<JsonValue>, Seq<char>>
    decreases events.len(),
{
    if events.len() == 0 {
        Ok(Seq::empty())
    } else {
        match data_chunks(events.drop_last()) {
            Err(e) => Err(e),
            Ok(chunks) => match events.last() {
                EventModel::Done => Ok(chunks),
                EventModel::Data(b) => match json_from_bytes(b) {
                    Ok(v) => Ok(chunks.push(v)),
                    Err(e) => Err(e),
                },
            },
        }
    }
}

/// Once a data event fails to parse, later events do not change the error.
proof fn lemma_data_chunks_error_stays(events: Seq<EventModel>, k: int)
    requires
        0 <= k <= events.len(),
        data_chunks(events.take(k)) is Err,
    ensures
        data_chunks(events) == data_chunks(events.take(k)),
    decreases events.len(),
{
    if k == events.len() {
        assert(events.take(k) =~= events);
    } else {
        assert(events.drop_last().take(k) =~= events.take(k));
        lemma_data_chunks_error_stays(events.drop_last(), k);
    }
}

/// The chunks of a normalised stream, each data event parsed as JSON.
pub fn normalized_chunks(events: &[SseEvent]) -> (res: Result<Vec<JsonValue>, GatewayError>)
    ensures
        match data_chunks(events_model(events@)) {
            Ok(chunks) => res matches Ok(v) && v@ == chunks,
            Err(m) => res matches Err(e) && e.kind == ErrorKind::Internal && e.message@
                == "failed to parse normalized openai sse frame: "@ + m,
        },
{
    let ghost all = events_model(events@);
    let mut chunks: Vec<JsonValue> = Vec::new();
    let mut i: usize = 0;
    proof {
        assert(all.take(0) =~= Seq::<EventModel>::empty());
    }
    while i < events.len()
        invariant
            i <= events@.len(),
            all == events_model(events@),
            data_chunks(all.take(i as int)) == Ok::<Seq<JsonValue>, Seq<char>>(chunks@),
        decreases events@.len() - i,
    {
        proof {
            let t = all.take(i + 1);
            assert(t.drop_last() =~= all.take(i as int));
            assert(t.last() == all[i as int]);
        }
        match &events[i] {
            SseEvent::Done => {},
            SseEvent::Data(bytes) => {
                match parse_json(bytes.as_slice()) {
                    Ok(v) => {
                        chunks.push(v);
                    },
                    Err(e) => {
                        proof {
                            lemma_data_chunks_error_stays(all, i + 1);
                        }
                        return Err(normalized_frame_error(e.as_str()));
                    },
                }
            },
        }
        i = i + 1;
    }
    proof {
        assert(all.take(events@.len() as int) =~= all);
    }
    Ok(chunks)
}

/// The Anthropic event stream made from a successful OpenAI chat stream
/// body: the body normalised, its chunks parsed, then
/// `build_anthropic_stream_body`.
pub fn anthropic_stream_from_upstream(body: &[u8], usage: Option<Usage>, model: &str) -> (res: Result<
    String,
    GatewayError,
>)
    ensures
        !valid_utf8(body@) ==> (res matches Err(e) && e.kind == ErrorKind::Upstream && e.message@
            == "upstream SSE body was not valid UTF-8: "@ + utf8_error_text(body@)),
        valid_utf8(body@) ==> match openai_body_outcome(decode_utf8(body@)) {
            Err(m) => res matches Err(e) && e.kind == ErrorKind::Upstream && e.message@ == m,
            Ok((events, _)) => match data_chunks(events) {
                Err(m) => res matches Err(e) && e.kind == ErrorKind::Internal && e.message@
                    == "failed to parse normalized openai sse frame: "@ + m,
                Ok(chunks) => res matches Ok(text) && text@ == anthropic_stream_text(
                    chunks,
                    usage,
                    model@,
                ),
            },
        },
{
    let normalized = match normalize_openai_chat_body(body) {
        Ok(n) => n,
        Err(e) => {
            return Err(e);
        },
    };
    let chunks = match normalized_chunks(&normalized.events) {
        Ok(c) => c,
        Err(e) => {
            return Err(e);
        },
    };
    Ok(build_anthropic_stream_body(&chunks, usage, model))
}

/// The first choice of an OpenAI chunk.
pub open spec fn event_choice(e: JsonValue) -> JsonValue {
    element_or_null(member_or_null(e, "choices"@), 0)
}

/// The text that an OpenAI chunk adds, if any.
pub open spec fn event_delta_text(e: JsonValue) -> Option<Seq<char>> {
    json_str(member_or_null(member_or_null(event_choice(e), "delta"@), "content"@))
}

/// The finish reason of an OpenAI chunk, if any.
pub open spec fn event_finish(e: JsonValue) -> Option<Seq<char>> {
    json_str(member_or_null(event_choice(e), "finish_reason"@))
}

/// The id of an OpenAI chunk, if any.
pub open spec fn event_id(e: JsonValue) -> Option<Seq<char>> {
    json_str(member_or_null(e, "id"@))
}

/// The first value that `f` gives on `evs`.
pub open spec fn first_some(evs: Seq<JsonValue>, f: spec_fn(JsonValue) -> Option<Seq<char>>) -> Option<
    Seq<char>,
>
    decreases evs.len(),
{
    if evs.len() == 0 {
        None
    } else {
        match first_some(evs.drop_last(), f) {
            Some(x) => Some(x),
            None => f(evs.last()),
        }
    }
}

/// The `content_block_delta` events of the chunks that add text.
pub open spec fn delta_events_text(evs: Seq<JsonValue>) -> Seq<char>
    decreases evs.len(),
{
    if evs.len() == 0 {
        Seq::empty()
    } else {
        delta_events_text(evs.drop_last()) + match event_delta_text(evs.last()) {
            Some(t) => "event: content_block_delta\ndata: {\"type\":\"content_block_delta\",\"index\":0,\"delta\":{\"type\":\"text_delta\",\"text\":"@
                + json_quoted(t) + "}}\n\n"@,
            None => Seq::empty(),
        }
    }
}

/// The Anthropic event stream made from OpenAI chunks: the message start
/// with the first chunk id, one text block with a delta per chunk that adds
/// text, the first finish reason as stop reason, the usage, the stop.
pub open spec fn anthropic_stream_text(evs: Seq<JsonValue>, usage: Option<Usage>, model: Seq<char>) -> Seq<
    char,
> {
    let id = match first_some(evs, |e: JsonValue| event_id(e)) {
        Some(i) => i,
        None => "msg_aisix"@,
    };
    let (input, output) = match usage {
        Some(u) => (u.input_tokens, u.output_tokens),
        None => (0u64, 0u64),
    };
    "event: message_start\ndata: {\"type\":\"message_start\",\"message\":{\"id\":"@ + json_quoted(id)
        + ",\"type\":\"message\",\"role\":\"assistant\",\"model\":\""@ + model
        + "\",\"content\":[],\"stop_reason\":null,\"stop_sequence\":null,\"usage\":{\"input_tokens\":"@
        + decimal(input as nat) + ",\"output_tokens\":0}}}\n\n"@
        + "event: content_block_start\ndata: {\"type\":\"content_block_start\",\"index\":0,\"content_block\":{\"type\":\"text\",\"text\":\"\"}}\n\n"@
        + delta_events_text(evs)
        + "event: content_block_stop\ndata: {\"type\":\"content_block_stop\",\"index\":0}\n\n"@
        + "event: message_delta\ndata: {\"type\":\"message_delta\",\"delta\":{\"stop_reason\":"@
        + stop_reason_text(first_some(evs, |e: JsonValue| event_finish(e)))
        + ",\"stop_sequence\":null},\"usage\":{\"output_tokens\":"@ + decimal(output as nat)
        + "}}\n\n"@ + "event: message_stop\ndata: {\"type\":\"message_stop\"}\n\n"@
}

/// The first choice of a chunk, or `null`.
fn choice_ref<'a>(e: &'a JsonValue, null: &'a JsonValue) -> (res: &'a JsonValue)
    requires
        *null == JsonValue::Null,
    ensures
        *res == event_choice(*e),
{
    first_ref(member_ref(e, "choices", null), null)
}

/// Writes the Anthropic event stream for normalised OpenAI chunks.
pub fn build_anthropic_stream_body(events: &[JsonValue], usage: Option<Usage>, model: &str) -> (body:
    String)
    ensures
        body@ == anthropic_stream_text(events@, usage, model@),
{
    let null = JsonValue::Null;
    let ghost fid = |e: JsonValue| event_id(e);
    let ghost ffin = |e: JsonValue| event_finish(e);
    let mut id: Option<&str> = None;
    let mut finish: Option<&str> = None;
    let mut deltas: Vec<char> = Vec::new();
    let mut i: usize = 0;
    proof {
        assert(events@.take(0) =~= Seq::<JsonValue>::empty());
        assert(deltas@ =~= delta_events_text(events@.take(0)));
    }
    while i < events.len()
        invariant
            i <= events@.len(),
            null == JsonValue::Null,
            fid == (|e: JsonValue| event_id(e)),
            ffin == (|e: JsonValue| event_finish(e)),
            match id {
                Some(x) => first_some(events@.take(i as int), fid) == Some(x@),
                None => first_some(events@.take(i as int), fid) is None,
            },
            match finish {
                Some(x) => first_some(events@.take(i as int), ffin) == Some(x@),
                None => first_some(events@.take(i as int), ffin) is None,
            },
            deltas@ == delta_events_text(events@.take(i as int)),
        decreases events@.len() - i,
    {
        let e = &events[i];
        let ghost t = events@.take(i + 1);
        proof {
            assert(t.drop_last() =~= events@.take(i as int));
            assert(t.last() == events@[i as int]);
            assert(fid(*e) == event_id(*e));
            assert(ffin(*e) == event_finish(*e));
        }
        if id.is_none() {
            id = member_ref(e, "id", &null).as_str();
        }
        let choice = choice_ref(e, &null);
        if finish.is_none() {
            finish = member_ref(choice, "finish_reason", &null).as_str();
        }
        match member_ref(member_ref(choice, "delta", &null), "content", &null).as_str() {
            Some(text) => {
                push_text(
                    &mut deltas,
                    "event: content_block_delta\ndata: {\"type\":\"content_block_delta\",\"index\":0,\"delta\":{\"type\":\"text_delta\",\"text\":",
                );
                push_text(&mut deltas, quote_json(text).as_str());
                push_text(&mut deltas, "}}\n\n");
            },
            None => {},
        }
        proof {
            assert(deltas@ =~= delta_events_text(t));
        }
        i = i + 1;
    }
    proof {
        assert(events@.take(events@.len() as int) =~= events@);
        assert(fid =~= (|e: JsonValue| event_id(e)));
        assert(ffin =~= (|e: JsonValue| event_finish(e)));
    }
    let message_id: &str = match id {
        Some(x) => x,
        None => "msg_aisix",
    };
    let (input, output) = match usage {
        Some(u) => (u.input_tokens, u.output_tokens),
        None => (0u64, 0u64),
    };
    let stop = map_finish_reason(finish);
    let mut out: Vec<char> = Vec::new();
    push_text(
        &mut out,
        "event: message_start\ndata: {\"type\":\"message_start\",\"message\":{\"id\":",
    );
    push_text(&mut out, quote_json(message_id).as_str());
    push_text(&mut out, ",\"type\":\"message\",\"role\":\"assistant\",\"model\":\"");
    push_text(&mut out, model);
    push_text(
        &mut out,
        "\",\"content\":[],\"stop_reason\":null,\"stop_sequence\":null,\"usage\":{\"input_tokens\":",
    );
    push_decimal(&mut out, input);
    push_text(&mut out, ",\"output_tokens\":0}}}\n\n");
    push_text(
        &mut out,
        "event: content_block_start\ndata: {\"type\":\"content_block_start\",\"index\":0,\"content_block\":{\"type\":\"text\",\"text\":\"\"}}\n\n",
    );
    let mut j: usize = 0;
    let ghost before = out@;
    while j < deltas.len()
        invariant
            j <= deltas@.len(),
            out@ == before + deltas@.subrange(0, j as int),
        decreases deltas@.len() - j,
    {
        out.push(deltas[j]);
        j = j + 1;
        proof {
            assert(out@ =~= before + deltas@.subrange(0, j as int));
        }
    }
    proof {
        assert(deltas@.subrange(0, deltas@.len() as int) =~= deltas@);
    }
    push_text(
        &mut out,
        "event: content_block_stop\ndata: {\"type\":\"content_block_stop\",\"index\":0}\n\n",
    );
    push_text(
        &mut out,
        "event: message_delta\ndata: {\"type\":\"message_delta\",\"delta\":{\"stop_reason\":",
    );
    write_json(&stop, &mut out);
    push_text(&mut out, ",\"stop_sequence\":null},\"usage\":{\"output_tokens\":");
    push_decimal(&mut out, output);
    push_text(&mut out, "}}\n\n");
    push_text(&mut out, "event: message_stop\ndata: {\"type\":\"message_stop\"}\n\n");
    proof {
        assert(out@ =~= anthropic_stream_text(events@, usage, model@));
    }
    string_from_chars(&out)
}

/// The error for a normalised chunk that is not JSON.
pub fn normalized_frame_error(error: &str) -> (e: GatewayError)
    ensures
        e.kind == ErrorKind::Internal,
        e.message@ == "failed to parse normalized openai sse frame: "@ + error@,
{
    GatewayError {
        kind: ErrorKind::Internal,
        message: concat("failed to parse normalized openai sse frame: ", error),
    }
}

} // verus!
