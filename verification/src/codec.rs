//! The bodies of upstream requests: Anthropic messages and OpenAI chat
//! completions and embeddings, written as compact JSON with members in name
//! order.  Fractional sampling settings are added by the caller.
use vstd::prelude::*;

use crate::config::clone_strings;
use crate::json::{items_text, json_quoted, json_text, push_text, quote_json, write_json, JsonValue};
use crate::text::{decimal, string_from_chars, u64_to_decimal};
use crate::types::{
    CanonicalChatRequest, CanonicalContentPart, CanonicalMessage, CanonicalRole, EmbeddingsRequest,
    ErrorKind, GatewayError,
};

verus! {

/// Texts joined with `sep` between them.
pub open spec fn join_with(ss: Seq<Seq<char>>, sep: Seq<char>) -> Seq<char>
    decreases ss.len(),
{
    if ss.len() == 0 {
        Seq::empty()
    } else if ss.len() == 1 {
        ss[0]
    } else {
        join_with(ss.drop_last(), sep) + sep + ss.last()
    }
}

/// The blank line that separates joined texts.
pub open spec fn blank_line() -> Seq<char> {
    seq!['\n', '\n']
}

/// The text of a content part.
pub open spec fn part_text(p: CanonicalContentPart) -> Seq<char> {
    match p {
        CanonicalContentPart::Text { text } => text@,
    }
}

/// The texts of a message's parts, joined by blank lines.
pub open spec fn parts_joined(parts: Seq<CanonicalContentPart>) -> Seq<char> {
    join_with(parts.map_values(|p: CanonicalContentPart| part_text(p)), blank_line())
}

/// The characters of each string.
pub open spec fn views(ss: Seq<String>) -> Seq<Seq<char>> {
    ss.map_values(|s: String| s@)
}

/// Strings as JSON string literals, separated by commas.
pub open spec fn quoted_list(ss: Seq<Seq<char>>) -> Seq<char> {
    join_with(ss.map_values(|s: Seq<char>| json_quoted(s)), seq![','])
}

/// The role name of a message.
pub open spec fn role_name(r: CanonicalRole) -> Seq<char> {
    match r {
        CanonicalRole::System => "system"@,
        CanonicalRole::User => "user"@,
        CanonicalRole::Assistant => "assistant"@,
    }
}

/// A message object: its content and its role.
pub open spec fn message_object(content: Seq<char>, role: Seq<char>) -> Seq<char> {
    "{\"content\":"@ + json_quoted(content) + ",\"role\":"@ + json_quoted(role) + "}"@
}

/// Appends `a` to a vector of characters.
fn push_seq(out: &mut Vec<char>, a: &Vec<char>)
    ensures
        final(out)@ == old(out)@ + a@,
{
    let ghost start = out@;
    let mut i: usize = 0;
    while i < a.len()
        invariant
            i <= a@.len(),
            out@ == start + a@.subrange(0, i as int),
        decreases a@.len() - i,
    {
        out.push(a[i]);
        i = i + 1;
        proof {
            assert(out@ =~= start + a@.subrange(0, i as int));
        }
    }
    proof {
        assert(a@.subrange(0, a@.len() as int) =~= a@);
    }
}

/// Joins the texts of a message's parts with blank lines.
pub fn join_text_parts(parts: &Vec<CanonicalContentPart>) -> (res: String)
    ensures
        res@ == parts_joined(parts@),
{
    let ghost texts = parts@.map_values(|p: CanonicalContentPart| part_text(p));
    let mut out: Vec<char> = Vec::new();
    let mut i: usize = 0;
    proof {
        assert(out@ =~= join_with(texts.take(0), blank_line()));
    }
    while i < parts.len()
        invariant
            i <= parts@.len(),
            texts == parts@.map_values(|p: CanonicalContentPart| part_text(p)),
            out@ == join_with(texts.take(i as int), blank_line()),
        decreases parts@.len() - i,
    {
        let ghost before = out@;
        if i > 0 {
            out.push('\n');
            out.push('\n');
        }
        match &parts[i] {
            CanonicalContentPart::Text { text } => push_text(&mut out, text.as_str()),
        }
        proof {
            let t = texts.take(i + 1);
            assert(t.drop_last() =~= texts.take(i as int));
            assert(t.last() == texts[i as int]);
            if i == 0 {
                assert(out@ =~= join_with(t, blank_line()));
            } else {
                assert(out@ =~= join_with(t, blank_line()));
            }
        }
        i = i + 1;
    }
    proof {
        assert(texts.take(parts@.len() as int) =~= texts);
    }
    string_from_chars(&out)
}

/// Appends strings as JSON string literals separated by commas.
fn push_quoted_list(out: &mut Vec<char>, ss: &Vec<String>)
    ensures
        final(out)@ == old(out)@ + quoted_list(views(ss@)),
{
    let ghost start = out@;
    let ghost qs = views(ss@).map_values(|s: Seq<char>| json_quoted(s));
    let mut i: usize = 0;
    proof {
        assert(out@ =~= start + join_with(qs.take(0), seq![',']));
    }
    while i < ss.len()
        invariant
            i <= ss@.len(),
            qs == views(ss@).map_values(|s: Seq<char>| json_quoted(s)),
            out@ == start + join_with(qs.take(i as int), seq![',']),
        decreases ss@.len() - i,
    {
        if i > 0 {
            out.push(',');
        }
        let q = quote_json(ss[i].as_str());
        push_text(out, q.as_str());
        proof {
            let t = qs.take(i + 1);
            assert(t.drop_last() =~= qs.take(i as int));
            assert(t.last() == qs[i as int]);
            assert(out@ =~= start + join_with(t, seq![',']));
        }
        i = i + 1;
    }
    proof {
        assert(qs.take(ss@.len() as int) =~= qs);
    }
}

/// Appends a message object.
fn push_message_object(out: &mut Vec<char>, content: &str, role: &str)
    ensures
        final(out)@ == old(out)@ + message_object(content@, role@),
{
    push_text(out, "{\"content\":");
    push_text(out, quote_json(content).as_str());
    push_text(out, ",\"role\":");
    push_text(out, quote_json(role).as_str());
    push_text(out, "}");
}

/// The role name of a message.
fn role_text(r: CanonicalRole) -> (res: &'static str)
    ensures
        res@ == role_name(r),
{
    match r {
        CanonicalRole::System => "system",
        CanonicalRole::User => "user",
        CanonicalRole::Assistant => "assistant",
    }
}

/// The system texts of an Anthropic request: the request's own, then each
/// system message, its parts joined.
pub open spec fn anthropic_system_parts(system: Seq<Seq<char>>, ms: Seq<CanonicalMessage>) -> Seq<
    Seq<char>,
>
    decreases ms.len(),
{
    if ms.len() == 0 {
        system
    } else {
        let before = anthropic_system_parts(system, ms.drop_last());
        if ms.last().role == CanonicalRole::System {
            before.push(parts_joined(ms.last().content@))
        } else {
            before
        }
    }
}

/// The message objects of an Anthropic request: every message that is not a
/// system message.
pub open spec fn anthropic_items(ms: Seq<CanonicalMessage>) -> Seq<Seq<char>>
    decreases ms.len(),
{
    if ms.len() == 0 {
        Seq::empty()
    } else {
        let before = anthropic_items(ms.drop_last());
        let m = ms.last();
        if m.role == CanonicalRole::System {
            before
        } else {
            before.push(message_object(parts_joined(m.content@), role_name(m.role)))
        }
    }
}

/// The body of an Anthropic messages request: at most 1024 tokens unless the
/// request says otherwise, always streamed, system texts joined by blank
/// lines, optional members only when set.
pub open spec fn anthropic_body_text(r: CanonicalChatRequest, upstream_model: Seq<char>) -> Seq<
    char,
> {
    let system = anthropic_system_parts(views(r.system@), r.messages@);
    "{\"max_tokens\":"@ + decimal(
        match r.max_tokens {
            Some(n) => n as nat,
            None => 1024,
        },
    ) + ",\"messages\":["@ + join_with(anthropic_items(r.messages@), seq![',']) + "]"@ + (
    match r.metadata {
        Some(m) => ",\"metadata\":"@ + json_text(m),
        None => Seq::empty(),
    }) + ",\"model\":"@ + json_quoted(upstream_model) + (if r.stop_sequences@.len() > 0 {
        ",\"stop_sequences\":["@ + quoted_list(views(r.stop_sequences@)) + "]"@
    } else {
        Seq::empty()
    }) + ",\"stream\":true"@ + (if system.len() > 0 {
        ",\"system\":"@ + json_quoted(join_with(system, blank_line()))
    } else {
        Seq::empty()
    }) + (match r.top_k {
        Some(k) => ",\"top_k\":"@ + decimal(k as nat),
        None => Seq::empty(),
    }) + "}"@
}

/// Appends the decimal text of a number.
fn push_number(out: &mut Vec<char>, n: u64)
    ensures
        final(out)@ == old(out)@ + decimal(n as nat),
{
    let digits = u64_to_decimal(n);
    push_seq(out, &digits);
}

/// Appends texts joined by `sep`.
fn push_joined(out: &mut Vec<char>, ss: &Vec<String>, sep: &str)
    ensures
        final(out)@ == old(out)@ + join_with(views(ss@), sep@),
{
    let ghost start = out@;
    let ghost vs = views(ss@);
    let mut i: usize = 0;
    proof {
        assert(out@ =~= start + join_with(vs.take(0), sep@));
    }
    while i < ss.len()
        invariant
            i <= ss@.len(),
            vs == views(ss@),
            out@ == start + join_with(vs.take(i as int), sep@),
        decreases ss@.len() - i,
    {
        if i > 0 {
            push_text(out, sep);
        }
        push_text(out, ss[i].as_str());
        proof {
            let t = vs.take(i + 1);
            assert(t.drop_last() =~= vs.take(i as int));
            assert(t.last() == vs[i as int]);
            assert(out@ =~= start + join_with(t, sep@));
        }
        i = i + 1;
    }
    proof {
        assert(vs.take(ss@.len() as int) =~= vs);
    }
}

/// The body of the Anthropic messages request for a chat, as JSON text.
pub fn build_anthropic_request(request: &CanonicalChatRequest, upstream_model: &str) -> (res: String)
    ensures
        res@ == anthropic_body_text(*request, upstream_model@),
{
    let mut system_parts = clone_strings(&request.system);
    let mut items: Vec<char> = Vec::new();
    let mut any_items = false;
    let ghost ms = request.messages@;
    let mut i: usize = 0;
    proof {
        assert(ms.take(0) =~= Seq::<CanonicalMessage>::empty());
        assert(items@ =~= join_with(anthropic_items(ms.take(0)), seq![',']));
    }
    while i < request.messages.len()
        invariant
            i <= ms.len(),
            ms == request.messages@,
            views(system_parts@) == anthropic_system_parts(views(request.system@), ms.take(i as int)),
            items@ == join_with(anthropic_items(ms.take(i as int)), seq![',']),
            any_items == (anthropic_items(ms.take(i as int)).len() > 0),
        decreases ms.len() - i,
    {
        let message = &request.messages[i];
        let ghost t = ms.take(i + 1);
        proof {
            assert(t.drop_last() =~= ms.take(i as int));
            assert(t.last() == ms[i as int]);
        }
        let joined = join_text_parts(&message.content);
        match message.role {
            CanonicalRole::System => {
                let ghost before = views(system_parts@);
                system_parts.push(joined);
                proof {
                    assert(views(system_parts@) =~= before.push(joined@));
                }
            },
            _ => {
                let ghost prev = anthropic_items(ms.take(i as int));
                if any_items {
                    items.push(',');
                }
                push_message_object(&mut items, joined.as_str(), role_text(message.role));
                any_items = true;
                proof {
                    let now = anthropic_items(t);
                    assert(now == prev.push(message_object(joined@, role_name(message.role))));
                    if prev.len() == 0 {
                        assert(items@ =~= join_with(now, seq![',']));
                    } else {
                        assert(now.drop_last() =~= prev);
                        assert(items@ =~= join_with(now, seq![',']));
                    }
                }
            },
        }
        i = i + 1;
    }
    proof {
        assert(ms.take(ms.len() as int) =~= ms);
    }
    let mut out: Vec<char> = Vec::new();
    push_text(&mut out, "{\"max_tokens\":");
    let max_tokens = match request.max_tokens {
        Some(n) => n,
        None => 1024,
    };
    push_number(&mut out, max_tokens);
    push_text(&mut out, ",\"messages\":[");
    push_seq(&mut out, &items);
    push_text(&mut out, "]");
    match &request.metadata {
        Some(m) => {
            push_text(&mut out, ",\"metadata\":");
            write_json(m, &mut out);
        },
        None => {},
    }
    push_text(&mut out, ",\"model\":");
    push_text(&mut out, quote_json(upstream_model).as_str());
    if request.stop_sequences.len() > 0 {
        push_text(&mut out, ",\"stop_sequences\":[");
        push_quoted_list(&mut out, &request.stop_sequences);
        push_text(&mut out, "]");
    }
    push_text(&mut out, ",\"stream\":true");
    if system_parts.len() > 0 {
        let mut joined: Vec<char> = Vec::new();
        push_joined(&mut joined, &system_parts, "\n\n");
        proof {
            reveal_strlit("\n\n");
            assert("\n\n"@ =~= blank_line());
        }
        push_text(&mut out, ",\"system\":");
        let text = string_from_chars(&joined);
        push_text(&mut out, quote_json(text.as_str()).as_str());
    }
    match request.top_k {
        Some(k) => {
            push_text(&mut out, ",\"top_k\":");
            push_number(&mut out, k);
        },
        None => {},
    }
    push_text(&mut out, "}");
    proof {
        assert(out@ =~= anthropic_body_text(*request, upstream_model@));
    }
    string_from_chars(&out)
}

/// The message objects of an OpenAI chat request: each system text, then
/// each message with its parts joined.
pub open spec fn openai_items(system: Seq<Seq<char>>, ms: Seq<CanonicalMessage>) -> Seq<Seq<char>> {
    system.map_values(|s: Seq<char>| message_object(s, "system"@)) + ms.map_values(
        |m: CanonicalMessage| message_object(parts_joined(m.content@), role_name(m.role)),
    )
}

/// The `max_tokens` member and its comma, when set.
pub open spec fn max_tokens_member(r: CanonicalChatRequest) -> Seq<char> {
    match r.max_tokens {
        Some(n) => "\"max_tokens\":"@ + decimal(n as nat) + ","@,
        None => Seq::empty(),
    }
}

/// The messages of an OpenAI chat request, without brackets.
pub open spec fn openai_messages_inner(r: CanonicalChatRequest) -> Seq<char> {
    match r.raw_messages {
        Some(raw) => items_text(raw@),
        None => join_with(openai_items(views(r.system@), r.messages@), seq![',']),
    }
}

/// The `metadata` member, when set.
pub open spec fn metadata_member(r: CanonicalChatRequest) -> Seq<char> {
    match r.metadata {
        Some(m) => ",\"metadata\":"@ + json_text(m),
        None => Seq::empty(),
    }
}

/// The `stop` member, when there are stop sequences.
pub open spec fn stop_member(r: CanonicalChatRequest) -> Seq<char> {
    if r.stop_sequences@.len() > 0 {
        ",\"stop\":["@ + quoted_list(views(r.stop_sequences@)) + "]"@
    } else {
        Seq::empty()
    }
}

/// The `stream` member.
pub open spec fn stream_member(r: CanonicalChatRequest) -> Seq<char> {
    if r.stream {
        ",\"stream\":true"@
    } else {
        ",\"stream\":false"@
    }
}

/// The `user` member, when set.
pub open spec fn user_member(r: CanonicalChatRequest) -> Seq<char> {
    match r.user {
        Some(u) => ",\"user\":"@ + json_quoted(u@),
        None => Seq::empty(),
    }
}

/// The body of an OpenAI chat completion request: messages passed through
/// when the request carries them raw, built from the canonical messages
/// otherwise; optional members only when set.
pub open spec fn openai_chat_body_text(r: CanonicalChatRequest, upstream_model: Seq<char>) -> Seq<
    char,
> {
    "{"@ + max_tokens_member(r) + "\"messages\":["@ + openai_messages_inner(r) + "]"@
        + metadata_member(r) + ",\"model\":"@ + json_quoted(upstream_model) + stop_member(r)
        + stream_member(r) + user_member(r) + "}"@
}

/// The message object at position `k` of an OpenAI chat request.
proof fn lemma_openai_items_at(system: Seq<Seq<char>>, ms: Seq<CanonicalMessage>, k: int)
    requires
        0 <= k < system.len() + ms.len(),
    ensures
        openai_items(system, ms).len() == system.len() + ms.len(),
        k < system.len() ==> openai_items(system, ms)[k] == message_object(system[k], "system"@),
        k >= system.len() ==> openai_items(system, ms)[k] == message_object(
            parts_joined(ms[k - system.len()].content@),
            role_name(ms[k - system.len()].role),
        ),
{
}

/// Appends the message objects of an OpenAI chat request.
fn push_openai_items(out: &mut Vec<char>, request: &CanonicalChatRequest)
    ensures
        final(out)@ == old(out)@ + join_with(
            openai_items(views(request.system@), request.messages@),
            seq![','],
        ),
{
    let ghost start = out@;
    let ghost all = openai_items(views(request.system@), request.messages@);
    let ns = request.system.len();
    let mut i: usize = 0;
    proof {
        assert(out@ =~= start + join_with(all.take(0), seq![',']));
    }
    while i < ns
        invariant
            i <= ns,
            ns == request.system@.len(),
            all == openai_items(views(request.system@), request.messages@),
            out@ == start + join_with(all.take(i as int), seq![',']),
        decreases ns - i,
    {
        if i > 0 {
            out.push(',');
        }
        push_message_object(out, request.system[i].as_str(), "system");
        proof {
            let t = all.take(i + 1);
            assert(t.drop_last() =~= all.take(i as int));
            assert(t.last() == all[i as int]);
            lemma_openai_items_at(views(request.system@), request.messages@, i as int);
            assert(out@ =~= start + join_with(t, seq![',']));
        }
        i = i + 1;
    }
    let mut j: usize = 0;
    while j < request.messages.len()
        invariant
            j <= request.messages@.len(),
            ns == request.system@.len(),
            all == openai_items(views(request.system@), request.messages@),
            out@ == start + join_with(all.take(ns + j), seq![',']),
        decreases request.messages@.len() - j,
    {
        if ns > 0 || j > 0 {
            out.push(',');
        }
        let message = &request.messages[j];
        let joined = join_text_parts(&message.content);
        push_message_object(out, joined.as_str(), role_text(message.role));
        proof {
            let k = ns + j;
            let t = all.take(k + 1);
            assert(t.drop_last() =~= all.take(k as int));
            assert(t.last() == all[k as int]);
            lemma_openai_items_at(views(request.system@), request.messages@, k as int);
            assert(out@ =~= start + join_with(t, seq![',']));
        }
        j = j + 1;
    }
    proof {
        if ns + request.messages@.len() > 0 {
            lemma_openai_items_at(views(request.system@), request.messages@, 0);
        }
        assert(all.len() == ns + request.messages@.len());
        assert(all.take(all.len() as int) =~= all);
    }
}

/// Appends the texts of JSON values separated by commas.
fn push_items(out: &mut Vec<char>, items: &Vec<JsonValue>)
    ensures
        final(out)@ == old(out)@ + items_text(items@),
{
    let ghost start = out@;
    let mut i: usize = 0;
    proof {
        assert(items_text(items@.subrange(0, 0)) =~= Seq::<char>::empty());
        assert(out@ =~= start + items_text(items@.subrange(0, 0)));
    }
    while i < items.len()
        invariant
            i <= items@.len(),
            out@ == start + items_text(items@.subrange(0, i as int)),
        decreases items@.len() - i,
    {
        if i > 0 {
            out.push(',');
        }
        write_json(&items[i], out);
        proof {
            let t = items@.subrange(0, i + 1);
            assert(t.subrange(0, i as int) =~= items@.subrange(0, i as int));
            assert(t[i as int] == items@[i as int]);
            assert(out@ =~= start + items_text(t));
        }
        i = i + 1;
    }
    proof {
        assert(items@.subrange(0, items@.len() as int) =~= items@);
    }
}

/// The path of OpenAI chat completions.
pub fn chat_completions_path() -> (p: &'static str)
    ensures
        p@ == "/v1/chat/completions"@,
{
    "/v1/chat/completions"
}

/// The path of OpenAI embeddings.
pub fn embeddings_path() -> (p: &'static str)
    ensures
        p@ == "/v1/embeddings"@,
{
    "/v1/embeddings"
}

/// The body of the OpenAI chat completion request for a chat, as JSON text.
pub fn build_openai_chat_request(request: &CanonicalChatRequest, upstream_model: &str) -> (res:
    String)
    ensures
        res@ == openai_chat_body_text(*request, upstream_model@),
{
    let r = request;
    let mut out: Vec<char> = Vec::new();
    push_text(&mut out, "{");
    match r.max_tokens {
        Some(n) => {
            push_text(&mut out, "\"max_tokens\":");
            push_number(&mut out, n);
            push_text(&mut out, ",");
        },
        None => {},
    }
    let ghost p1 = "{"@ + max_tokens_member(*r);
    assert(out@ =~= p1);
    push_text(&mut out, "\"messages\":[");
    match &r.raw_messages {
        Some(raw) => push_items(&mut out, raw),
        None => push_openai_items(&mut out, r),
    }
    push_text(&mut out, "]");
    let ghost p2 = p1 + "\"messages\":["@ + openai_messages_inner(*r) + "]"@;
    assert(out@ =~= p2);
    match &r.metadata {
        Some(m) => {
            push_text(&mut out, ",\"metadata\":");
            write_json(m, &mut out);
        },
        None => {},
    }
    let ghost p3 = p2 + metadata_member(*r);
    assert(out@ =~= p3);
    push_text(&mut out, ",\"model\":");
    push_text(&mut out, quote_json(upstream_model).as_str());
    if r.stop_sequences.len() > 0 {
        push_text(&mut out, ",\"stop\":[");
        push_quoted_list(&mut out, &r.stop_sequences);
        push_text(&mut out, "]");
    }
    let ghost p4 = p3 + ",\"model\":"@ + json_quoted(upstream_model@) + stop_member(*r);
    assert(out@ =~= p4);
    if r.stream {
        push_text(&mut out, ",\"stream\":true");
    } else {
        push_text(&mut out, ",\"stream\":false");
    }
    match &r.user {
        Some(u) => {
            push_text(&mut out, ",\"user\":");
            push_text(&mut out, quote_json(u.as_str()).as_str());
        },
        None => {},
    }
    push_text(&mut out, "}");
    assert(out@ =~= p4 + stream_member(*r) + user_member(*r) + "}"@);
    string_from_chars(&out)
}

/// The body of an OpenAI embeddings request: the input as given, the
/// upstream model in place of the client's.
pub open spec fn openai_embeddings_body_text(r: EmbeddingsRequest, upstream_model: Seq<char>) -> Seq<
    char,
> {
    "{\"input\":"@ + json_text(r.input) + ",\"model\":"@ + json_quoted(upstream_model) + "}"@
}

/// The body of the OpenAI embeddings request, as JSON text.
pub fn build_openai_embeddings_request(request: &EmbeddingsRequest, upstream_model: &str) -> (res:
    String)
    ensures
        res@ == openai_embeddings_body_text(*request, upstream_model@),
{
    let mut out: Vec<char> = Vec::new();
    push_text(&mut out, "{\"input\":");
    write_json(&request.input, &mut out);
    push_text(&mut out, ",\"model\":");
    push_text(&mut out, quote_json(upstream_model).as_str());
    push_text(&mut out, "}");
    string_from_chars(&out)
}

/// The environment variable that a provider's secret reference names:
/// references have the form `env:NAME`.
pub fn secret_env_name(secret_ref: &str) -> (res: Result<String, GatewayError>)
    ensures
        has_env_prefix(secret_ref@) ==> (res matches Ok(name) && name@ == secret_ref@.skip(4)),
        !has_env_prefix(secret_ref@) ==> (res matches Err(e) && e.kind == ErrorKind::Internal
            && e.message@ == "unsupported provider secret ref: "@ + secret_ref@),
{
    let chars = crate::text::str_chars(secret_ref);
    if chars.len() >= 4 && chars[0] == 'e' && chars[1] == 'n' && chars[2] == 'v' && chars[3] == ':' {
        let rest = crate::text::slice_range(&chars, 4, chars.len());
        proof {
            assert(rest@ =~= secret_ref@.skip(4));
        }
        return Ok(string_from_chars(&rest));
    }
    Err(
        GatewayError {
            kind: ErrorKind::Internal,
            message: crate::text::concat("unsupported provider secret ref: ", secret_ref),
        },
    )
}

/// Whether a secret reference names an environment variable.
pub open spec fn has_env_prefix(s: Seq<char>) -> bool {
    s.len() >= 4 && s[0] == 'e' && s[1] == 'n' && s[2] == 'v' && s[3] == ':'
}

/// The error for a secret whose environment variable is not set.
pub fn missing_secret(env_name: &str) -> (e: GatewayError)
    ensures
        e.kind == ErrorKind::Internal,
        e.message@ == "missing provider secret env var: "@ + env_name@,
{
    GatewayError {
        kind: ErrorKind::Internal,
        message: crate::text::concat("missing provider secret env var: ", env_name),
    }
}

/// How a provider expects its secret.
#[derive(Debug, Clone, PartialEq, Eq)]
pub enum AuthHeader {
    /// The `api-key` header holds the secret.
    ApiKey(String),
    /// The `Authorization` header holds `Bearer` and the secret.
    Bearer(String),
}

/// The header that carries the secret: Azure OpenAI takes an `api-key`
/// header, every other provider a bearer token.
pub fn auth_header(kind: crate::config::ProviderKind, secret: &str) -> (h: AuthHeader)
    ensures
        kind == crate::config::ProviderKind::AzureOpenAi ==> (h matches AuthHeader::ApiKey(s)
            && s@ == secret@),
        kind != crate::config::ProviderKind::AzureOpenAi ==> (h matches AuthHeader::Bearer(s)
            && s@ == secret@),
{
    match kind {
        crate::config::ProviderKind::AzureOpenAi => AuthHeader::ApiKey(
            crate::text::to_owned_string(secret),
        ),
        _ => AuthHeader::Bearer(crate::text::to_owned_string(secret)),
    }
}

/// The address of an upstream path: the base URL without trailing slashes,
/// then the path.
pub fn upstream_url(base_url: &str, path: &str) -> (url: String)
    ensures
        url@ == crate::text::trim_end_char(base_url@, '/') + path@,
{
    let chars = crate::text::str_chars(base_url);
    let mut trimmed = crate::text::trim_end_matches_char(&chars, '/');
    push_text(&mut trimmed, path);
    string_from_chars(&trimmed)
}

/// Anthropic upstreams are reached by streaming only: a chat that asks for
/// one JSON body is refused for them, and accepted for every other kind.
pub fn ensure_json_supported(kind: crate::config::ProviderKind) -> (res: Result<(), GatewayError>)
    ensures
        res is Err <==> kind == crate::config::ProviderKind::Anthropic,
        res matches Err(e) ==> e.kind == ErrorKind::InvalidRequest && e.message@
            == "anthropic does not support non-stream chat yet"@,
{
    match kind {
        crate::config::ProviderKind::Anthropic => Err(
            GatewayError {
                kind: ErrorKind::InvalidRequest,
                message: "anthropic does not support non-stream chat yet".to_string(),
            },
        ),
        _ => Ok(()),
    }
}

} // verus!
