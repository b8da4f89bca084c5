//! Upstream chat streams turned into OpenAI chat-completion chunks, and the
//! token usage they report.
use vstd::prelude::*;
use vstd::string::StringSliceAdditionalSpecFns;
use vstd::utf8::encode_utf8;

use crate::json::{
    json_from_bytes, json_from_text, json_get, json_quoted, json_str, json_text, json_u64, outcome_view,
    outcome_views, parse_json, parse_json_text, quote_json, to_json_text, JsonValue,
};
use crate::sse::{
    frames_model, lemma_crlf_framing_is_lf_framing, sse_frames, stream_frames, with_crlf, FrameModel,
    SseFrame,
};
use crate::storage::utf8_error_text;
use vstd::utf8::{decode_utf8, valid_utf8};
use crate::strmap::str_eq;
use crate::text::{concat, decimal, string_from_chars, u64_to_decimal};
use crate::types::{ErrorKind, GatewayError, Usage};

verus! {

/// One event of a normalised stream: a chunk of JSON text, or the end.
#[derive(Debug)]
pub enum SseEvent {
    Data(Vec<u8>),
    Done,
}

/// What an event stands for.
pub enum EventModel {
    Data(Seq<u8>),
    Done,
}

/// A normalised stream and the usage it reported, if any.
#[derive(Debug)]
pub struct NormalizedSse {
    pub events: Vec<SseEvent>,
    pub usage: Option<Usage>,
}

/// What a sequence of events stands for.
pub open spec fn events_model(es: Seq<SseEvent>) -> Seq<EventModel> {
    es.map_values(
        |e: SseEvent|
            match e {
                SseEvent::Data(b) => EventModel::Data(b@),
                SseEvent::Done => EventModel::Done,
            },
    )
}

/// The bytes of a string.
fn text_bytes(s: &str) -> (res: Vec<u8>)
    ensures
        res@ == s.spec_bytes(),
{
    let b = s.as_bytes();
    let mut v: Vec<u8> = Vec::new();
    let mut i: usize = 0;
    while i < b.len()
        invariant
            i <= b@.len(),
            v@ == b@.subrange(0, i as int),
        decreases b@.len() - i,
    {
        v.push(b[i]);
        i = i + 1;
        proof {
            assert(v@ =~= b@.subrange(0, i as int));
        }
    }
    proof {
        assert(b@.subrange(0, b@.len() as int) =~= b@);
    }
    v
}

/// The decimal text of a number.
fn number_text(n: u64) -> (res: String)
    ensures
        res@ == decimal(n as nat),
{
    string_from_chars(&u64_to_decimal(n))
}

/// The usage that an OpenAI chunk reports: it needs `usage.prompt_tokens`;
/// missing completion tokens count as zero.
pub open spec fn openai_chunk_usage(chunk: JsonValue) -> Option<Usage> {
    match json_get(chunk, "usage"@) {
        None => None,
        Some(u) => match json_get(u, "prompt_tokens"@) {
            None => None,
            Some(p) => match json_u64(p) {
                None => None,
                Some(input) => Some(
                    Usage {
                        input_tokens: input,
                        output_tokens: match json_get(u, "completion_tokens"@) {
                            Some(c) => match json_u64(c) {
                                Some(o) => o,
                                None => 0,
                            },
                            None => 0,
                        },
                        cache_read: 0,
                        cache_write: 0,
                    },
                ),
            },
        },
    }
}

/// Reads the usage that an OpenAI chunk reports.
pub fn extract_usage(chunk: &JsonValue) -> (res: Option<Usage>)
    ensures
        res == openai_chunk_usage(*chunk),
{
    let usage = match chunk.get("usage") {
        Some(u) => u,
        None => {
            return None;
        },
    };
    let input = match usage.get("prompt_tokens") {
        Some(p) => match p.as_u64() {
            Some(v) => v,
            None => {
                return None;
            },
        },
        None => {
            return None;
        },
    };
    let output = match usage.get("completion_tokens") {
        Some(c) => match c.as_u64() {
            Some(v) => v,
            None => 0,
        },
        None => 0,
    };
    Some(Usage { input_tokens: input, output_tokens: output, cache_read: 0, cache_write: 0 })
}

/// What normalising the first frames of an OpenAI stream gives: the events
/// and the first usage reported, or the message of the first error.  A
/// `[DONE]` frame is the end; every other frame must hold JSON, which is
/// passed on in compact form.
pub open spec fn openai_run(frames: Seq<FrameModel>, parsed: Seq<Result<JsonValue, Seq<char>>>) -> Result<
    (Seq<EventModel>, Option<Usage>),
    Seq<char>,
>
    decreases frames.len(),
{
    if frames.len() == 0 {
        Ok((Seq::empty(), None))
    } else {
        match openai_run(frames.drop_last(), parsed) {
            Err(m) => Err(m),
            Ok((events, usage)) => {
                let n = frames.len() - 1;
                if frames.last().data == "[DONE]"@ {
                    Ok((events.push(EventModel::Done), usage))
                } else {
                    match parsed[n] {
                        Err(e) => Err("failed to parse upstream SSE frame: "@ + e),
                        Ok(chunk) => Ok(
                            (
                                events.push(EventModel::Data(encode_utf8(json_text(chunk)))),
                                if usage is Some {
                                    usage
                                } else {
                                    openai_chunk_usage(chunk)
                                },
                            ),
                        ),
                    }
                }
            },
        }
    }
}

/// Once normalising a stream fails, later frames do not change the error.
proof fn lemma_openai_error_stays(
    frames: Seq<FrameModel>,
    parsed: Seq<Result<JsonValue, Seq<char>>>,
    k: int,
)
    requires
        0 <= k <= frames.len(),
        openai_run(frames.take(k), parsed) is Err,
    ensures
        openai_run(frames, parsed) == openai_run(frames.take(k), parsed),
    decreases frames.len(),
{
    if k == frames.len() {
        assert(frames.take(k) =~= frames);
    } else {
        assert(frames.drop_last().take(k) =~= frames.take(k));
        lemma_openai_error_stays(frames.drop_last(), parsed, k);
    }
}

/// Normalises an OpenAI chat stream.  `parsed[i]` is what parsing the data
/// of `frames[i]` as JSON gave; it is not read for `[DONE]` frames.
pub fn normalize_openai_chat_sse(frames: &[SseFrame], parsed: &[Result<JsonValue, String>]) -> (res:
    Result<NormalizedSse, GatewayError>)
    requires
        parsed@.len() == frames@.len(),
    ensures
        match openai_run(frames_model(frames@), outcome_views(parsed@)) {
            Ok((events, usage)) => res matches Ok(n) && events_model(n.events@) == events
                && n.usage == usage,
            Err(m) => res matches Err(e) && e.kind == ErrorKind::Upstream && e.message@ == m,
        },
{
    let ghost all = frames_model(frames@);
    let mut events: Vec<SseEvent> = Vec::new();
    let mut usage: Option<Usage> = None;
    let mut i: usize = 0;
    proof {
        assert(all.take(0) =~= Seq::<FrameModel>::empty());
        assert(events_model(events@) =~= Seq::<EventModel>::empty());
    }
    while i < frames.len()
        invariant
            i <= frames@.len(),
            parsed@.len() == frames@.len(),
            all == frames_model(frames@),
            openai_run(all.take(i as int), outcome_views(parsed@)) == Ok::<
                (Seq<EventModel>, Option<Usage>),
                Seq<char>,
            >((events_model(events@), usage)),
        decreases frames@.len() - i,
    {
        let ghost t = all.take(i + 1);
        proof {
            assert(t.drop_last() =~= all.take(i as int));
            assert(t.last() == all[i as int]);
        }
        let ghost before = events@;
        if str_eq(frames[i].data.as_str(), "[DONE]") {
            events.push(SseEvent::Done);
            proof {
                assert(events_model(events@) =~= events_model(before).push(EventModel::Done));
            }
        } else {
            match &parsed[i] {
                Err(e) => {
                    proof {
                        lemma_openai_error_stays(all, outcome_views(parsed@), i + 1);
                    }
                    return Err(
                        GatewayError {
                            kind: ErrorKind::Upstream,
                            message: concat("failed to parse upstream SSE frame: ", e.as_str()),
                        },
                    );
                },
                Ok(chunk) => {
                    if usage.is_none() {
                        usage = extract_usage(chunk);
                    }
                    let text = to_json_text(chunk);
                    let bytes = text_bytes(text.as_str());
                    events.push(SseEvent::Data(bytes));
                    proof {
                        assert(events_model(events@) =~= events_model(before).push(
                            EventModel::Data(encode_utf8(json_text(*chunk))),
                        ));
                    }
                },
            }
        }
        i = i + 1;
    }
    proof {
        assert(all.take(frames@.len() as int) =~= all);
    }
    Ok(NormalizedSse { events, usage })
}

/// The text of an OpenAI chunk that carries one piece of assistant text.
pub open spec fn content_chunk_text(id: Seq<char>, text: Seq<char>) -> Seq<char> {
    "{\"choices\":[{\"delta\":{\"content\":"@ + json_quoted(text)
        + ",\"role\":\"assistant\"},\"finish_reason\":null,\"index\":0}],\"id\":"@ + json_quoted(id)
        + ",\"object\":\"chat.completion.chunk\"}"@
}

/// The text of the usage member of a final chunk.
pub open spec fn usage_text(usage: Option<Usage>) -> Seq<char> {
    match usage {
        None => "null"@,
        Some(u) => "{\"completion_tokens\":"@ + decimal(u.output_tokens as nat)
            + ",\"prompt_tokens\":"@ + decimal(u.input_tokens as nat) + ",\"total_tokens\":"@
            + decimal(((u.input_tokens + u.output_tokens) % 0x1_0000_0000_0000_0000) as nat) + "}"@,
    }
}

/// The text of the last OpenAI chunk of a stream: the finish reason and the
/// usage.
pub open spec fn final_chunk_text(id: Seq<char>, finish: Seq<char>, usage: Option<Usage>) -> Seq<
    char,
> {
    "{\"choices\":[{\"delta\":{},\"finish_reason\":"@ + json_quoted(finish)
        + ",\"index\":0}],\"id\":"@ + json_quoted(id)
        + ",\"object\":\"chat.completion.chunk\",\"usage\":"@ + usage_text(usage) + "}"@
}

/// Writes the chunk that carries one piece of assistant text.
fn content_chunk(id: &str, text: &str) -> (res: String)
    ensures
        res@ == content_chunk_text(id@, text@),
{
    let q = quote_json(text);
    let a = concat("{\"choices\":[{\"delta\":{\"content\":", q.as_str());
    let b = concat(a.as_str(), ",\"role\":\"assistant\"},\"finish_reason\":null,\"index\":0}],\"id\":");
    let qid = quote_json(id);
    let c = concat(b.as_str(), qid.as_str());
    concat(c.as_str(), ",\"object\":\"chat.completion.chunk\"}")
}

/// Writes the usage member of a final chunk.
fn usage_member(usage: Option<Usage>) -> (res: String)
    ensures
        res@ == usage_text(usage),
{
    match usage {
        None => crate::text::to_owned_string("null"),
        Some(u) => {
            let a = concat("{\"completion_tokens\":", number_text(u.output_tokens).as_str());
            let b = concat(a.as_str(), ",\"prompt_tokens\":");
            let c = concat(b.as_str(), number_text(u.input_tokens).as_str());
            let d = concat(c.as_str(), ",\"total_tokens\":");
            let total = u.input_tokens.wrapping_add(u.output_tokens);
            let e = concat(d.as_str(), number_text(total).as_str());
            concat(e.as_str(), "}")
        },
    }
}

/// Writes the last chunk of a stream.
fn final_chunk(id: &str, finish: &str, usage: Option<Usage>) -> (res: String)
    ensures
        res@ == final_chunk_text(id@, finish@, usage),
{
    let a = concat("{\"choices\":[{\"delta\":{},\"finish_reason\":", quote_json(finish).as_str());
    let b = concat(a.as_str(), ",\"index\":0}],\"id\":");
    let c = concat(b.as_str(), quote_json(id).as_str());
    let d = concat(c.as_str(), ",\"object\":\"chat.completion.chunk\",\"usage\":");
    let e = concat(d.as_str(), usage_member(usage).as_str());
    concat(e.as_str(), "}")
}

/// The count `name` of a usage object, else `fallback`.
pub open spec fn count_or(u: JsonValue, name: Seq<char>, fallback: u64) -> u64 {
    match json_get(u, name) {
        Some(x) => match json_u64(x) {
            Some(v) => v,
            None => fallback,
        },
        None => fallback,
    }
}

/// Usage updated from an Anthropic usage object: each count it holds
/// replaces the one known so far.
pub open spec fn merged_usage(current: Option<Usage>, u: JsonValue) -> Usage {
    let c = match current {
        Some(c) => c,
        None => Usage { input_tokens: 0, output_tokens: 0, cache_read: 0, cache_write: 0 },
    };
    Usage {
        input_tokens: count_or(u, "input_tokens"@, c.input_tokens),
        output_tokens: count_or(u, "output_tokens"@, c.output_tokens),
        cache_read: count_or(u, "cache_read_input_tokens"@, c.cache_read),
        cache_write: count_or(u, "cache_creation_input_tokens"@, c.cache_write),
    }
}

/// Reads the count `name`, else gives `fallback`.
fn count_or_exec(u: &JsonValue, name: &str, fallback: u64) -> (res: u64)
    ensures
        res == count_or(*u, name@, fallback),
{
    match u.get(name) {
        Some(x) => match x.as_u64() {
            Some(v) => v,
            None => fallback,
        },
        None => fallback,
    }
}

/// Updates usage from an Anthropic usage object.
pub fn merge_usage(current: Option<Usage>, u: &JsonValue) -> (res: Usage)
    ensures
        res == merged_usage(current, *u),
{
    let c = match current {
        Some(c) => c,
        None => Usage { input_tokens: 0, output_tokens: 0, cache_read: 0, cache_write: 0 },
    };
    Usage {
        input_tokens: count_or_exec(u, "input_tokens", c.input_tokens),
        output_tokens: count_or_exec(u, "output_tokens", c.output_tokens),
        cache_read: count_or_exec(u, "cache_read_input_tokens", c.cache_read),
        cache_write: count_or_exec(u, "cache_creation_input_tokens", c.cache_write),
    }
}

/// The OpenAI finish reason for an Anthropic stop reason.
pub open spec fn finish_reason_for(stop: Seq<char>) -> Seq<char> {
    if stop == "max_tokens"@ {
        "length"@
    } else {
        "stop"@
    }
}

/// Maps an Anthropic stop reason to an OpenAI finish reason.
fn map_finish_reason(stop: &str) -> (res: &'static str)
    ensures
        res@ == finish_reason_for(stop@),
{
    proof {
        reveal_strlit("end_turn");
        reveal_strlit("max_tokens");
    }
    if str_eq(stop, "end_turn") {
        proof {
            assert(stop@.len() == 8);
            assert("max_tokens"@.len() == 10);
        }
        "stop"
    } else if str_eq(stop, "max_tokens") {
        "length"
    } else {
        "stop"
    }
}

/// What has been gathered from an Anthropic stream so far.
pub struct AnthropicModel {
    pub events: Seq<EventModel>,
    pub usage: Option<Usage>,
    pub message_id: Option<Seq<char>>,
    pub finish_reason: Option<Seq<char>>,
    pub deltas: Seq<Seq<char>>,
}

/// The state after a `message_start` or `message_stop` event: the message id
/// and usage it carries, if any.
pub open spec fn absorb_message(s: AnthropicModel, chunk: JsonValue) -> AnthropicModel {
    match json_get(chunk, "message"@) {
        None => s,
        Some(m) => {
            let id = match json_get(m, "id"@) {
                Some(x) => match json_str(x) {
                    Some(t) => Some(t),
                    None => s.message_id,
                },
                None => s.message_id,
            };
            let usage = match json_get(m, "usage"@) {
                Some(u) => Some(merged_usage(s.usage, u)),
                None => s.usage,
            };
            AnthropicModel { message_id: id, usage, ..s }
        },
    }
}

/// The text member of a value's member, if both are there.
pub open spec fn nested_str(chunk: JsonValue, outer: Seq<char>, inner: Seq<char>) -> Option<
    Seq<char>,
> {
    match json_get(chunk, outer) {
        Some(d) => match json_get(d, inner) {
            Some(t) => json_str(t),
            None => None,
        },
        None => None,
    }
}

/// The events that close a stream: a chunk per piece of text gathered, then
/// the final chunk, then the end.
pub open spec fn closing_events(s: AnthropicModel) -> Seq<EventModel> {
    let id = match s.message_id {
        Some(i) => i,
        None => "anthropic"@,
    };
    let finish = match s.finish_reason {
        Some(f) => f,
        None => "stop"@,
    };
    s.deltas.map_values(|t: Seq<char>| EventModel::Data(encode_utf8(content_chunk_text(id, t))))
        + seq![EventModel::Data(encode_utf8(final_chunk_text(id, finish, s.usage))), EventModel::Done]
}

/// The message of the error for a tool-use stop.
pub open spec fn tool_use_message() -> Seq<char> {
    "Anthropic tool_use streaming is not supported in Phase 1 normalization"@
}

/// One frame of an Anthropic stream applied to the state.
pub open spec fn anthropic_step(
    s: AnthropicModel,
    frame: FrameModel,
    parsed: Result<JsonValue, Seq<char>>,
) -> Result<AnthropicModel, (ErrorKind, Seq<char>)> {
    match parsed {
        Err(e) => Err((ErrorKind::Upstream, "failed to parse upstream SSE frame: "@ + e)),
        Ok(chunk) => {
            let kind = match frame.event {
                Some(e) => Some(e),
                None => match json_get(chunk, "type"@) {
                    Some(t) => json_str(t),
                    None => None,
                },
            };
            if kind == Some("message_start"@) {
                Ok(absorb_message(s, chunk))
            } else if kind == Some("content_block_delta"@) {
                match nested_str(chunk, "delta"@, "text"@) {
                    Some(t) => Ok(AnthropicModel { deltas: s.deltas.push(t), ..s }),
                    None => Ok(s),
                }
            } else if kind == Some("message_delta"@) {
                let s1 = match json_get(chunk, "usage"@) {
                    Some(u) => AnthropicModel { usage: Some(merged_usage(s.usage, u)), ..s },
                    None => s,
                };
                match nested_str(chunk, "delta"@, "stop_reason"@) {
                    None => Ok(s1),
                    Some(r) => if r == "tool_use"@ {
                        Err((ErrorKind::InvalidRequest, tool_use_message()))
                    } else {
                        Ok(AnthropicModel { finish_reason: Some(finish_reason_for(r)), ..s1 })
                    },
                }
            } else if kind == Some("message_stop"@) {
                let s1 = absorb_message(s, chunk);
                Ok(AnthropicModel { events: s1.events + closing_events(s1), ..s1 })
            } else {
                Ok(s)
            }
        },
    }
}

/// The state after the first frames of an Anthropic stream, or the first
/// error.
pub open spec fn anthropic_run(frames: Seq<FrameModel>, parsed: Seq<Result<JsonValue, Seq<char>>>) -> Result<
    AnthropicModel,
    (ErrorKind, Seq<char>),
>
    decreases frames.len(),
{
    if frames.len() == 0 {
        Ok(
            AnthropicModel {
                events: Seq::empty(),
                usage: None,
                message_id: None,
                finish_reason: None,
                deltas: Seq::empty(),
            },
        )
    } else {
        match anthropic_run(frames.drop_last(), parsed) {
            Err(e) => Err(e),
            Ok(s) => anthropic_step(s, frames.last(), parsed[frames.len() - 1]),
        }
    }
}

/// The characters of an optional string.
pub open spec fn opt_chars(o: Option<String>) -> Option<Seq<char>> {
    match o {
        Some(s) => Some(s@),
        None => None,
    }
}

/// What is gathered while an Anthropic stream is read.
struct AnthropicState {
    events: Vec<SseEvent>,
    usage: Option<Usage>,
    message_id: Option<String>,
    finish_reason: Option<&'static str>,
    deltas: Vec<String>,
}

impl AnthropicState {
    /// What the state stands for.
    spec fn model(&self) -> AnthropicModel {
        AnthropicModel {
            events: events_model(self.events@),
            usage: self.usage,
            message_id: opt_chars(self.message_id),
            finish_reason: match self.finish_reason {
                Some(f) => Some(f@),
                None => None,
            },
            deltas: self.deltas@.map_values(|d: String| d@),
        }
    }

    /// Takes the message id and usage of a `message_start` or `message_stop`
    /// event.
    fn absorb(&mut self, chunk: &JsonValue)
        ensures
            final(self).model() == absorb_message(old(self).model(), *chunk),
    {
        let message = match chunk.get("message") {
            Some(m) => m,
            None => {
                return;
            },
        };
        match message.get("id") {
            Some(x) => match x.as_str() {
                Some(t) => {
                    self.message_id = Some(crate::text::to_owned_string(t));
                },
                None => {},
            },
            None => {},
        }
        match message.get("usage") {
            Some(u) => {
                self.usage = Some(merge_usage(self.usage, u));
            },
            None => {},
        }
    }

    /// Emits the chunks that close the stream.
    fn close(&mut self)
        ensures
            final(self).model() == (AnthropicModel {
                events: old(self).model().events + closing_events(old(self).model()),
                ..old(self).model()
            }),
    {
        let ghost m = self.model();
        let ghost id_spec = match m.message_id {
            Some(x) => x,
            None => "anthropic"@,
        };
        let id: &str = match &self.message_id {
            Some(x) => x.as_str(),
            None => "anthropic",
        };
        let mut i: usize = 0;
        let ghost start = events_model(self.events@);
        let ghost ds = m.deltas;
        let ghost chunks = ds.map_values(
            |t: Seq<char>| EventModel::Data(encode_utf8(content_chunk_text(id_spec, t))),
        );
        while i < self.deltas.len()
            invariant
                i <= self.deltas@.len(),
                id@ == id_spec,
                ds == self.deltas@.map_values(|d: String| d@),
                chunks == ds.map_values(
                    |t: Seq<char>| EventModel::Data(encode_utf8(content_chunk_text(id_spec, t))),
                ),
                events_model(self.events@) == start + chunks.take(i as int),
                self.usage == m.usage,
                opt_chars(self.message_id) == m.message_id,
                (match self.finish_reason {
                    Some(f) => Some(f@),
                    None => None,
                }) == m.finish_reason,
            decreases self.deltas@.len() - i,
        {
            let text = content_chunk(id, self.deltas[i].as_str());
            let bytes = text_bytes(text.as_str());
            let ghost before = self.events@;
            self.events.push(SseEvent::Data(bytes));
            proof {
                assert(chunks.take(i + 1) =~= chunks.take(i as int).push(chunks[i as int]));
                assert(events_model(self.events@) =~= events_model(before).push(
                    EventModel::Data(bytes@),
                ));
            }
            i = i + 1;
        }
        let finish: &str = match self.finish_reason {
            Some(f) => f,
            None => "stop",
        };
        let last = final_chunk(id, finish, self.usage);
        let bytes = text_bytes(last.as_str());
        let ghost before = self.events@;
        self.events.push(SseEvent::Data(bytes));
        self.events.push(SseEvent::Done);
        proof {
            assert(chunks.take(ds.len() as int) =~= chunks);
            assert(events_model(self.events@) =~= events_model(before).push(
                EventModel::Data(bytes@),
            ).push(EventModel::Done));
            assert(events_model(self.events@) =~= start + closing_events(m));
        }
    }

    /// Applies one frame.
    fn apply(&mut self, frame: &SseFrame, parsed: &Result<JsonValue, String>) -> (res: Result<
        (),
        GatewayError,
    >)
        ensures
            match anthropic_step(old(self).model(), crate::sse::frame_model(*frame), outcome_view(*parsed)) {
                Ok(s) => res is Ok && final(self).model() == s,
                Err((k, m)) => res matches Err(e) && e.kind == k && e.message@ == m,
            },
    {
        let chunk = match parsed {
            Ok(c) => c,
            Err(e) => {
                return Err(
                    GatewayError {
                        kind: ErrorKind::Upstream,
                        message: concat("failed to parse upstream SSE frame: ", e.as_str()),
                    },
                );
            },
        };
        let kind: Option<&str> = match &frame.event {
            Some(e) => Some(e.as_str()),
            None => match chunk.get("type") {
                Some(t) => t.as_str(),
                None => None,
            },
        };
        let kind = match kind {
            Some(k) => k,
            None => {
                return Ok(());
            },
        };
        if str_eq(kind, "message_start") {
            self.absorb(chunk);
        } else if str_eq(kind, "content_block_delta") {
            let text = match chunk.get("delta") {
                Some(d) => match d.get("text") {
                    Some(t) => t.as_str(),
                    None => None,
                },
                None => None,
            };
            match text {
                Some(t) => {
                    let ghost before = self.deltas@;
                    self.deltas.push(crate::text::to_owned_string(t));
                    proof {
                        assert(self.deltas@.map_values(|d: String| d@) =~= before.map_values(
                            |d: String| d@,
                        ).push(t@));
                    }
                },
                None => {},
            }
        } else if str_eq(kind, "message_delta") {
            match chunk.get("usage") {
                Some(u) => {
                    self.usage = Some(merge_usage(self.usage, u));
                },
                None => {},
            }
            let stop = match chunk.get("delta") {
                Some(d) => match d.get("stop_reason") {
                    Some(t) => t.as_str(),
                    None => None,
                },
                None => None,
            };
            match stop {
                Some(r) => {
                    if str_eq(r, "tool_use") {
                        return Err(
                            GatewayError {
                                kind: ErrorKind::InvalidRequest,
                                message: crate::text::to_owned_string(
                                    "Anthropic tool_use streaming is not supported in Phase 1 normalization",
                                ),
                            },
                        );
                    }
                    self.finish_reason = Some(map_finish_reason(r));
                },
                None => {},
            }
        } else if str_eq(kind, "message_stop") {
            self.absorb(chunk);
            self.close();
        }
        Ok(())
    }
}

/// Once normalising a stream fails, later frames do not change the error.
proof fn lemma_anthropic_error_stays(
    frames: Seq<FrameModel>,
    parsed: Seq<Result<JsonValue, Seq<char>>>,
    k: int,
)
    requires
        0 <= k <= frames.len(),
        anthropic_run(frames.take(k), parsed) is Err,
    ensures
        anthropic_run(frames, parsed) == anthropic_run(frames.take(k), parsed),
    decreases frames.len(),
{
    if k == frames.len() {
        assert(frames.take(k) =~= frames);
    } else {
        assert(frames.drop_last().take(k) =~= frames.take(k));
        lemma_anthropic_error_stays(frames.drop_last(), parsed, k);
    }
}

/// Normalises an Anthropic chat stream into OpenAI chunks: text deltas are
/// gathered, and `message_stop` emits a chunk per piece of text, a final
/// chunk with the finish reason and usage, and the end.  `parsed[i]` is what
/// parsing the data of `frames[i]` as JSON gave.
pub fn normalize_anthropic_chat_sse(
    frames: &[SseFrame],
    parsed: &[Result<JsonValue, String>],
) -> (res: Result<NormalizedSse, GatewayError>)
    requires
        parsed@.len() == frames@.len(),
    ensures
        match anthropic_run(frames_model(frames@), outcome_views(parsed@)) {
            Ok(s) => res matches Ok(n) && events_model(n.events@) == s.events && n.usage
                == s.usage,
            Err((k, m)) => res matches Err(e) && e.kind == k && e.message@ == m,
        },
{
    let ghost all = frames_model(frames@);
    let mut state = AnthropicState {
        events: Vec::new(),
        usage: None,
        message_id: None,
        finish_reason: None,
        deltas: Vec::new(),
    };
    proof {
        assert(all.take(0) =~= Seq::<FrameModel>::empty());
        assert(events_model(state.events@) =~= Seq::<EventModel>::empty());
        assert(state.deltas@.map_values(|d: String| d@) =~= Seq::<Seq<char>>::empty());
        assert(state.model() == (AnthropicModel {
            events: Seq::empty(),
            usage: None,
            message_id: None,
            finish_reason: None,
            deltas: Seq::empty(),
        }));
    }
    let mut i: usize = 0;
    while i < frames.len()
        invariant
            i <= frames@.len(),
            parsed@.len() == frames@.len(),
            all == frames_model(frames@),
            anthropic_run(all.take(i as int), outcome_views(parsed@)) == Ok::<
                AnthropicModel,
                (ErrorKind, Seq<char>),
            >(state.model()),
        decreases frames@.len() - i,
    {
        proof {
            let t = all.take(i + 1);
            assert(t.drop_last() =~= all.take(i as int));
            assert(t.last() == all[i as int]);
        }
        match state.apply(&frames[i], &parsed[i]) {
            Ok(()) => {},
            Err(e) => {
                proof {
                    lemma_anthropic_error_stays(all, outcome_views(parsed@), i + 1);
                }
                return Err(e);
            },
        }
        i = i + 1;
    }
    proof {
        assert(all.take(frames@.len() as int) =~= all);
    }
    Ok(NormalizedSse { events: state.events, usage: state.usage })
}

/// The usage that an OpenAI JSON answer reports: none when its body is not
/// JSON.
pub fn usage_of_body(body: &[u8]) -> (res: Option<Usage>)
    ensures
        res == match json_from_bytes(body@) {
            Ok(v) => openai_chunk_usage(v),
            Err(_) => None,
        },
{
    match parse_json(body) {
        Ok(v) => extract_usage(&v),
        Err(_) => None,
    }
}

/// What parsing the data of each frame as JSON gives.
pub open spec fn frame_parses(frames: Seq<FrameModel>) -> Seq<Result<JsonValue, Seq<char>>> {
    frames.map_values(|f: FrameModel| json_from_text(f.data))
}

/// Parses the data of each frame as JSON.
pub fn parse_frames(frames: &[SseFrame]) -> (parsed: Vec<Result<JsonValue, String>>)
    ensures
        parsed@.len() == frames@.len(),
        outcome_views(parsed@) == frame_parses(frames_model(frames@)),
{
    let mut parsed: Vec<Result<JsonValue, String>> = Vec::new();
    let mut i: usize = 0;
    while i < frames.len()
        invariant
            i <= frames@.len(),
            parsed@.len() == i,
            forall|j: int|
                0 <= j < i ==> outcome_view(#[trigger] parsed@[j]) == json_from_text(
                    frames@[j].data@,
                ),
        decreases frames@.len() - i,
    {
        parsed.push(parse_json_text(frames[i].data.as_str()));
        i = i + 1;
    }
    proof {
        assert(outcome_views(parsed@) =~= frame_parses(frames_model(frames@)));
    }
    parsed
}

/// What normalising an OpenAI chat stream body, taken as text, gives.
pub open spec fn openai_body_outcome(text: Seq<char>) -> Result<(Seq<EventModel>, Option<Usage>), Seq<char>> {
    openai_run(stream_frames(text), frame_parses(stream_frames(text)))
}

/// What normalising an Anthropic chat stream body, taken as text, gives.
pub open spec fn anthropic_body_outcome(text: Seq<char>) -> Result<AnthropicModel, (ErrorKind, Seq<char>)> {
    anthropic_run(stream_frames(text), frame_parses(stream_frames(text)))
}

/// Normalises an OpenAI chat stream body: its frames, each frame's data
/// parsed as JSON, then `normalize_openai_chat_sse`.
pub fn normalize_openai_chat_body(body: &[u8]) -> (res: Result<NormalizedSse, GatewayError>)
    ensures
        !valid_utf8(body@) ==> (res matches Err(e) && e.kind == ErrorKind::Upstream && e.message@
            == "upstream SSE body was not valid UTF-8: "@ + utf8_error_text(body@)),
        valid_utf8(body@) ==> match openai_body_outcome(decode_utf8(body@)) {
            Ok((events, usage)) => res matches Ok(n) && events_model(n.events@) == events
                && n.usage == usage,
            Err(m) => res matches Err(e) && e.kind == ErrorKind::Upstream && e.message@ == m,
        },
{
    let frames = match sse_frames(body) {
        Ok(f) => f,
        Err(e) => {
            return Err(e);
        },
    };
    let parsed = parse_frames(&frames);
    normalize_openai_chat_sse(&frames, &parsed)
}

/// Normalises an Anthropic chat stream body: its frames, each frame's data
/// parsed as JSON, then `normalize_anthropic_chat_sse`.
pub fn normalize_anthropic_chat_body(body: &[u8]) -> (res: Result<NormalizedSse, GatewayError>)
    ensures
        !valid_utf8(body@) ==> (res matches Err(e) && e.kind == ErrorKind::Upstream && e.message@
            == "upstream SSE body was not valid UTF-8: "@ + utf8_error_text(body@)),
        valid_utf8(body@) ==> match anthropic_body_outcome(decode_utf8(body@)) {
            Ok(s) => res matches Ok(n) && events_model(n.events@) == s.events && n.usage
                == s.usage,
            Err((k, m)) => res matches Err(e) && e.kind == k && e.message@ == m,
        },
{
    let frames = match sse_frames(body) {
        Ok(f) => f,
        Err(e) => {
            return Err(e);
        },
    };
    let parsed = parse_frames(&frames);
    normalize_anthropic_chat_sse(&frames, &parsed)
}

/// A chat stream framed with CR LF line ends normalises as the same stream
/// framed with LF: the same events and usage, or the same error.
pub proof fn lemma_crlf_stream_normalizes_alike(text: Seq<char>)
    requires
        !text.contains('\r'),
    ensures
        openai_body_outcome(with_crlf(text)) == openai_body_outcome(text),
        anthropic_body_outcome(with_crlf(text)) == anthropic_body_outcome(text),
{
    lemma_crlf_framing_is_lf_framing(text);
}

/// The bytes `data: `.
pub open spec fn data_field_bytes() -> Seq<u8> {
    seq![100u8, 97u8, 116u8, 97u8, 58u8, 32u8]
}

/// The bytes `[DONE]`.
pub open spec fn done_marker_bytes() -> Seq<u8> {
    seq![91u8, 68u8, 79u8, 78u8, 69u8, 93u8]
}

/// A normalised stream written as an event stream: each event a `data:` line
/// and a blank line, the end as `[DONE]`.
pub open spec fn rendered_events(es: Seq<EventModel>) -> Seq<u8>
    decreases es.len(),
{
    if es.len() == 0 {
        Seq::empty()
    } else {
        rendered_events(es.drop_last()) + data_field_bytes() + match es.last() {
            EventModel::Data(b) => b,
            EventModel::Done => done_marker_bytes(),
        } + seq![10u8, 10u8]
    }
}

/// Appends bytes.
fn push_bytes(out: &mut Vec<u8>, b: &Vec<u8>)
    ensures
        final(out)@ == old(out)@ + b@,
{
    let ghost start = out@;
    let mut i: usize = 0;
    while i < b.len()
        invariant
            i <= b@.len(),
            out@ == start + b@.subrange(0, i as int),
        decreases b@.len() - i,
    {
        out.push(b[i]);
        i = i + 1;
        proof {
            assert(out@ =~= start + b@.subrange(0, i as int));
        }
    }
    proof {
        assert(b@.subrange(0, b@.len() as int) =~= b@);
    }
}

/// Writes normalised events as an event stream body.
pub fn render_normalized_events(events: &[SseEvent]) -> (res: Vec<u8>)
    ensures
        res@ == rendered_events(events_model(events@)),
{
    let ghost all = events_model(events@);
    let mut out: Vec<u8> = Vec::new();
    let mut i: usize = 0;
    proof {
        assert(all.take(0) =~= Seq::<EventModel>::empty());
    }
    while i < events.len()
        invariant
            i <= events@.len(),
            all == events_model(events@),
            out@ == rendered_events(all.take(i as int)),
        decreases events@.len() - i,
    {
        let ghost before = out@;
        out.push(100u8);
        out.push(97u8);
        out.push(116u8);
        out.push(97u8);
        out.push(58u8);
        out.push(32u8);
        match &events[i] {
            SseEvent::Data(d) => push_bytes(&mut out, d),
            SseEvent::Done => {
                out.push(91u8);
                out.push(68u8);
                out.push(79u8);
                out.push(78u8);
                out.push(69u8);
                out.push(93u8);
            },
        }
        out.push(10u8);
        out.push(10u8);
        proof {
            let t = all.take(i + 1);
            assert(t.drop_last() =~= all.take(i as int));
            assert(t.last() == all[i as int]);
            assert(out@ =~= rendered_events(t));
        }
        i = i + 1;
    }
    proof {
        assert(all.take(events@.len() as int) =~= all);
    }
    out
}

} // verus!
