//! The decisions a request goes through before and after its upstream call:
//! transport, model permission, route, cache key.
use vstd::prelude::*;

use crate::access::{ensure_model_allowed, model_listed};
use crate::json::{items_text, json_quoted, push_text, quote_json, write_json, JsonValue};
use crate::config::CacheMode;
use crate::snapshot::CompiledSnapshot;
use crate::text::{concat, signed_decimal, i64_to_decimal, string_from_chars, to_owned_string};
use crate::types::{CanonicalRequest, ErrorKind, GatewayError, KeyMeta, TransportMode};

verus! {

/// Where a model is served.
#[derive(Debug, Clone, PartialEq, Eq)]
pub struct RouteTarget {
    pub provider_id: String,
    pub upstream_model: String,
}

/// Finds the provider and upstream model of a configured model, and checks
/// that the provider is configured.
pub fn resolve_target(snapshot: &CompiledSnapshot, model_name: &str) -> (res: Result<
    RouteTarget,
    GatewayError,
>)
    requires
        snapshot.wf(),
    ensures
        !snapshot.models_by_name@.contains_key(model_name@) ==> (res matches Err(e) && e.kind
            == ErrorKind::NotFound && e.message@ == "model '"@ + model_name@ + "' not found"@),
        snapshot.models_by_name@.contains_key(model_name@) ==> ({
            let m = snapshot.models_by_name@[model_name@];
            if snapshot.providers_by_id@.contains_key(m.provider_id@) {
                res matches Ok(t) && t.provider_id@ == m.provider_id@ && t.upstream_model@
                    == m.upstream_model@
            } else {
                res matches Err(e) && e.kind == ErrorKind::Internal && e.message@ == "provider '"@
                    + m.provider_id@ + "' not found"@
            }
        }),
{
    let model = match snapshot.models_by_name.get(model_name) {
        Some(m) => m,
        None => {
            let a = concat("model '", model_name);
            return Err(
                GatewayError { kind: ErrorKind::NotFound, message: concat(a.as_str(), "' not found") },
            );
        },
    };
    if !snapshot.providers_by_id.contains_key(model.provider_id.as_str()) {
        let a = concat("provider '", model.provider_id.as_str());
        return Err(
            GatewayError { kind: ErrorKind::Internal, message: concat(a.as_str(), "' not found") },
        );
    }
    Ok(
        RouteTarget {
            provider_id: to_owned_string(model.provider_id.as_str()),
            upstream_model: to_owned_string(model.upstream_model.as_str()),
        },
    )
}

/// The cache key of a chat: the JSON array of the snapshot revision, the
/// provider, the upstream model, the model and the messages.
pub open spec fn chat_cache_key_text(
    revision: i64,
    provider_id: Seq<char>,
    upstream_model: Seq<char>,
    model: Seq<char>,
    messages: Seq<JsonValue>,
) -> Seq<char> {
    seq!['['] + signed_decimal(revision as int) + seq![','] + json_quoted(provider_id) + seq![',']
        + json_quoted(upstream_model) + seq![','] + json_quoted(model) + seq![','] + seq!['[']
        + items_text(messages) + seq![']'] + seq![']']
}

/// Builds the cache key of a chat.
pub fn build_chat_cache_key(
    snapshot_revision: i64,
    provider_id: &str,
    upstream_model: &str,
    model: &str,
    messages: &Vec<JsonValue>,
) -> (key: String)
    ensures
        key@ == chat_cache_key_text(
            snapshot_revision,
            provider_id@,
            upstream_model@,
            model@,
            messages@,
        ),
{
    let mut out: Vec<char> = Vec::new();
    out.push('[');
    let digits = i64_to_decimal(snapshot_revision);
    let ghost start = out@;
    let mut i: usize = 0;
    while i < digits.len()
        invariant
            i <= digits@.len(),
            out@ == start + digits@.subrange(0, i as int),
        decreases digits@.len() - i,
    {
        out.push(digits[i]);
        i = i + 1;
        proof {
            assert(out@ =~= start + digits@.subrange(0, i as int));
        }
    }
    proof {
        assert(digits@.subrange(0, digits@.len() as int) =~= digits@);
    }
    out.push(',');
    push_text(&mut out, quote_json(provider_id).as_str());
    out.push(',');
    push_text(&mut out, quote_json(upstream_model).as_str());
    out.push(',');
    push_text(&mut out, quote_json(model).as_str());
    out.push(',');
    out.push('[');
    let ghost before_items = out@;
    let mut j: usize = 0;
    proof {
        assert(items_text(messages@.subrange(0, 0)) =~= Seq::<char>::empty());
        assert(out@ =~= before_items + items_text(messages@.subrange(0, 0)));
    }
    while j < messages.len()
        invariant
            j <= messages@.len(),
            out@ == before_items + items_text(messages@.subrange(0, j as int)),
        decreases messages@.len() - j,
    {
        if j > 0 {
            out.push(',');
        }
        write_json(&messages[j], &mut out);
        proof {
            let t = messages@.subrange(0, j + 1);
            assert(t.subrange(0, j as int) =~= messages@.subrange(0, j as int));
            assert(t[j as int] == messages@[j as int]);
            assert(out@ =~= before_items + items_text(t));
        }
        j = j + 1;
    }
    proof {
        assert(messages@.subrange(0, messages@.len() as int) =~= messages@);
    }
    out.push(']');
    out.push(']');
    proof {
        assert(out@ =~= chat_cache_key_text(
            snapshot_revision,
            provider_id@,
            upstream_model@,
            model@,
            messages@,
        ));
    }
    string_from_chars(&out)
}

/// What a request needs for its upstream call.
#[derive(Debug)]
pub struct RequestPlan {
    pub target: RouteTarget,
    pub cache_key: Option<String>,
}

/// `plan` is what planning `request` on `snapshot` gives: the model's
/// provider and upstream model, and for a chat answered as one JSON body the
/// cache key built from this snapshot's revision and route.
pub open spec fn plan_for(
    snapshot: CompiledSnapshot,
    request: CanonicalRequest,
    expected: TransportMode,
    plan: RequestPlan,
) -> bool {
    let m = snapshot.models_by_name@[request.spec_model()];
    &&& snapshot.models_by_name@.contains_key(request.spec_model())
    &&& snapshot.providers_by_id@.contains_key(m.provider_id@)
    &&& plan.target.provider_id@ == m.provider_id@
    &&& plan.target.upstream_model@ == m.upstream_model@
    &&& match request {
        CanonicalRequest::Chat(chat) => expected == TransportMode::Json ==> (plan.cache_key matches Some(
            k,
        ) && k@ == chat_cache_key_text(
            snapshot.revision,
            m.provider_id@,
            m.upstream_model@,
            chat.model@,
            chat.messages@,
        )),
        CanonicalRequest::Embeddings(_) => plan.cache_key is None,
    }
    &&& expected == TransportMode::SseStream ==> plan.cache_key is None
}

/// The checks before a request goes upstream, for the transport it must
/// use: the key must allow the model, and the model must be routed to a
/// configured provider.  A chat answered as one JSON body gets a cache key.
pub fn plan_request(
    snapshot: &CompiledSnapshot,
    meta: &KeyMeta,
    request: &CanonicalRequest,
    expected: TransportMode,
) -> (res: Result<RequestPlan, GatewayError>)
    requires
        snapshot.wf(),
    ensures
        request.spec_transport_mode() != expected ==> (res matches Err(e) && e.kind
            == ErrorKind::InvalidRequest && e.message@ == (if expected == TransportMode::Json {
            "streaming is not supported yet"@
        } else {
            "expected streaming chat request"@
        })),
        request.spec_transport_mode() == expected && !model_listed(
            meta.allowed_models@,
            request.spec_model(),
        ) ==> (res matches Err(e) && e.kind == ErrorKind::Permission && e.message@ == "Model '"@
            + request.spec_model() + "' is not allowed for this key"@),
        request.spec_transport_mode() == expected && model_listed(
            meta.allowed_models@,
            request.spec_model(),
        ) && !snapshot.models_by_name@.contains_key(request.spec_model()) ==> (res matches Err(e)
            && e.kind == ErrorKind::NotFound && e.message@ == "model '"@ + request.spec_model()
            + "' not found"@),
        request.spec_transport_mode() == expected && model_listed(
            meta.allowed_models@,
            request.spec_model(),
        ) && snapshot.models_by_name@.contains_key(request.spec_model())
            && !snapshot.providers_by_id@.contains_key(
            snapshot.models_by_name@[request.spec_model()].provider_id@,
        ) ==> (res matches Err(e) && e.kind == ErrorKind::Internal && e.message@ == "provider '"@
            + snapshot.models_by_name@[request.spec_model()].provider_id@ + "' not found"@),
        res matches Ok(plan) ==> ({
            &&& request.spec_transport_mode() == expected
            &&& model_listed(meta.allowed_models@, request.spec_model())
            &&& plan_for(*snapshot, *request, expected, plan)
        }),
        request.spec_transport_mode() == expected && model_listed(
            meta.allowed_models@,
            request.spec_model(),
        ) && snapshot.models_by_name@.contains_key(request.spec_model())
            && snapshot.providers_by_id@.contains_key(
            snapshot.models_by_name@[request.spec_model()].provider_id@,
        ) ==> res is Ok,
{
    let mode = request.transport_mode();
    let same = match (mode, expected) {
        (TransportMode::Json, TransportMode::Json) => true,
        (TransportMode::SseStream, TransportMode::SseStream) => true,
        _ => false,
    };
    if !same {
        let message = match expected {
            TransportMode::Json => to_owned_string("streaming is not supported yet"),
            TransportMode::SseStream => to_owned_string("expected streaming chat request"),
        };
        return Err(GatewayError { kind: ErrorKind::InvalidRequest, message });
    }
    match ensure_model_allowed(meta, request.model_name()) {
        Ok(()) => {},
        Err(e) => {
            return Err(e);
        },
    }
    let target = match resolve_target(snapshot, request.model_name()) {
        Ok(t) => t,
        Err(e) => {
            return Err(e);
        },
    };
    let cache_key = match (request, expected) {
        (CanonicalRequest::Chat(chat), TransportMode::Json) => Some(
            build_chat_cache_key(
                snapshot.revision,
                target.provider_id.as_str(),
                target.upstream_model.as_str(),
                chat.model.as_str(),
                &chat.messages,
            ),
        ),
        _ => None,
    };
    Ok(RequestPlan { target, cache_key })
}

/// The cache setting of a name in a map of settings; a name without one
/// inherits.
pub open spec fn mode_of(modes: Map<Seq<char>, CacheMode>, name: Seq<char>) -> CacheMode {
    if modes.contains_key(name) {
        modes[name]
    } else {
        CacheMode::Inherit
    }
}

/// Whether caching is on: the model's setting wins over the provider's, and
/// the provider's over the global default.
pub open spec fn effective_cache(model: CacheMode, provider: CacheMode, default_enabled: bool) -> bool {
    match model {
        CacheMode::Enabled => true,
        CacheMode::Disabled => false,
        CacheMode::Inherit => match provider {
            CacheMode::Enabled => true,
            CacheMode::Disabled => false,
            CacheMode::Inherit => default_enabled,
        },
    }
}

/// The cache setting stored for a name.
fn lookup_mode(modes: &crate::strmap::StrMap<CacheMode>, name: &str) -> (m: CacheMode)
    requires
        modes.wf(),
    ensures
        m == mode_of(modes@, name@),
{
    match modes.get(name) {
        Some(m) => *m,
        None => CacheMode::Inherit,
    }
}

/// Whether a request's response may be cached: only chats answered as one
/// JSON body, and only when the effective setting for its model and
/// provider is on.
pub fn cache_enabled_for_chat(
    snapshot: &CompiledSnapshot,
    request: &CanonicalRequest,
    provider_id: &str,
    default_enabled: bool,
) -> (res: bool)
    requires
        snapshot.wf(),
    ensures
        res == (match request {
            CanonicalRequest::Chat(chat) => !chat.stream && effective_cache(
                mode_of(snapshot.model_cache_modes@, chat.model@),
                mode_of(snapshot.provider_cache_modes@, provider_id@),
                default_enabled,
            ),
            CanonicalRequest::Embeddings(_) => false,
        }),
{
    match request {
        CanonicalRequest::Chat(chat) => {
            if chat.stream {
                return false;
            }
            let model = lookup_mode(&snapshot.model_cache_modes, chat.model.as_str());
            let provider = lookup_mode(&snapshot.provider_cache_modes, provider_id);
            match model {
                CacheMode::Enabled => true,
                CacheMode::Disabled => false,
                CacheMode::Inherit => match provider {
                    CacheMode::Enabled => true,
                    CacheMode::Disabled => false,
                    CacheMode::Inherit => default_enabled,
                },
            }
        },
        CanonicalRequest::Embeddings(_) => false,
    }
}

/// The `x-aisix-cache-hit` header of a response: absent when caching is off,
/// `true` for a cached answer, `false` for a fresh one.
pub fn cache_hit_header(cache_enabled: bool, hit: bool) -> (h: Option<&'static str>)
    ensures
        !cache_enabled ==> h is None,
        cache_enabled && hit ==> (h matches Some(v) && v@ == "true"@),
        cache_enabled && !hit ==> (h matches Some(v) && v@ == "false"@),
{
    if !cache_enabled {
        None
    } else if hit {
        Some("true")
    } else {
        Some("false")
    }
}

/// No comma occurs in the decimal spelling of a number.
proof fn lemma_signed_decimal_has_no_comma(n: i64)
    ensures
        forall|i: int|
            0 <= i < signed_decimal(n as int).len() ==> signed_decimal(n as int)[i] != ',',
{
    if n < 0 {
        let m: nat = (-(n as int)) as nat;
        crate::text::lemma_decimal_value(m);
        assert forall|i: int| 0 <= i < signed_decimal(n as int).len() implies signed_decimal(
            n as int,
        )[i] != ',' by {
            if i > 0 {
                assert(signed_decimal(n as int)[i] == crate::text::decimal(m)[i - 1]);
                assert(crate::text::is_digit(crate::text::decimal(m)[i - 1]));
            }
        }
    } else {
        crate::text::lemma_decimal_value(n as nat);
        assert forall|i: int| 0 <= i < signed_decimal(n as int).len() implies signed_decimal(
            n as int,
        )[i] != ',' by {
            assert(crate::text::is_digit(crate::text::decimal(n as nat)[i]));
        }
    }
}

/// A cache lookup uses the request's own snapshot.  A chat planned on
/// `planned_on` carries the cache key of that snapshot's revision and of the
/// route it resolved there; whatever snapshot is live when the lookup
/// happens, the key stays that one, and it never equals a key that a chat
/// planned on a snapshot of another revision would carry.
pub proof fn lemma_lookup_uses_planned_snapshot(
    planned_on: CompiledSnapshot,
    live: CompiledSnapshot,
    request: CanonicalRequest,
    plan: RequestPlan,
    other: CanonicalRequest,
    other_plan: RequestPlan,
)
    requires
        request is Chat,
        plan_for(planned_on, request, TransportMode::Json, plan),
        other is Chat,
        plan_for(live, other, TransportMode::Json, other_plan),
        live.revision != planned_on.revision,
    ensures
        ({
            let m = planned_on.models_by_name@[request.spec_model()];
            plan.cache_key matches Some(k) && k@ == chat_cache_key_text(
                planned_on.revision,
                m.provider_id@,
                m.upstream_model@,
                request->Chat_0.model@,
                request->Chat_0.messages@,
            )
        }),
        plan.cache_key->0@ != other_plan.cache_key->0@,
{
    let m = planned_on.models_by_name@[request.spec_model()];
    let n = live.models_by_name@[other.spec_model()];
    let chat = request->Chat_0;
    let chat2 = other->Chat_0;
    lemma_cache_keys_separate_revisions(
        planned_on.revision,
        m.provider_id@,
        m.upstream_model@,
        chat.model@,
        chat.messages@,
        live.revision,
        n.provider_id@,
        n.upstream_model@,
        chat2.model@,
        chat2.messages@,
    );
}

/// A response cached under one snapshot revision is never found under
/// another: chat cache keys of different revisions differ, whatever the
/// rest of the request.
pub proof fn lemma_cache_keys_separate_revisions(
    r1: i64,
    p1: Seq<char>,
    u1: Seq<char>,
    m1: Seq<char>,
    ms1: Seq<JsonValue>,
    r2: i64,
    p2: Seq<char>,
    u2: Seq<char>,
    m2: Seq<char>,
    ms2: Seq<JsonValue>,
)
    requires
        r1 != r2,
    ensures
        chat_cache_key_text(r1, p1, u1, m1, ms1) != chat_cache_key_text(r2, p2, u2, m2, ms2),
{
    let k1 = chat_cache_key_text(r1, p1, u1, m1, ms1);
    let k2 = chat_cache_key_text(r2, p2, u2, m2, ms2);
    let d1 = signed_decimal(r1 as int);
    let d2 = signed_decimal(r2 as int);
    lemma_signed_decimal_has_no_comma(r1);
    lemma_signed_decimal_has_no_comma(r2);
    crate::text::lemma_signed_decimal_parses(r1);
    crate::text::lemma_signed_decimal_parses(r2);
    if k1 == k2 {
        assert(forall|i: int| 0 <= i < d1.len() ==> k1[1 + i] == d1[i]);
        assert(forall|i: int| 0 <= i < d2.len() ==> k2[1 + i] == d2[i]);
        assert(k1[1 + d1.len() as int] == ',');
        assert(k2[1 + d2.len() as int] == ',');
        if d1.len() < d2.len() {
            assert(k2[1 + d1.len() as int] == d2[d1.len() as int]);
        } else if d2.len() < d1.len() {
            assert(k1[1 + d2.len() as int] == d1[d2.len() as int]);
        } else {
            assert(d1 =~= d2) by {
                assert forall|i: int| 0 <= i < d1.len() implies d1[i] == d2[i] by {
                    assert(k1[1 + i] == d1[i]);
                    assert(k2[1 + i] == d2[i]);
                }
            }
        }
    }
}

} // verus!
