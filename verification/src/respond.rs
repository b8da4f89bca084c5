//! What the gateway answers once upstream, or the cache, has answered: the
//! status, the headers, and what is recorded and stored on the way out.
//!
//! Headers are kept as `(name, value)` pairs with lowercase names, in the
//! order in which they are sent.
use vstd::prelude::*;

use crate::pipeline::cache_hit_header;
use crate::protocol::is_success;
use crate::strmap::str_eq;
use crate::types::Usage;

verus! {

/// The headers as pairs of character sequences.
pub open spec fn header_views(h: Seq<(String, String)>) -> Seq<(Seq<char>, Seq<char>)> {
    h.map_values(|e: (String, String)| (e.0@, e.1@))
}

/// Headers that describe how the upstream body was framed; a rebuilt body
/// does not keep them.
pub open spec fn is_framing_header(name: Seq<char>) -> bool {
    ||| name == "content-length"@
    ||| name == "transfer-encoding"@
    ||| name == "connection"@
}

/// Whether an upstream header passes into a streamed reply.  The provider
/// header is set by the gateway; a successful stream gets its own type.
pub open spec fn stream_keeps(status: u16, name: Seq<char>) -> bool {
    &&& !is_framing_header(name)
    &&& name != "x-aisix-provider"@
    &&& !(is_success(status) && name == "content-type"@)
}

/// `stream_keeps` as a predicate on headers.
pub open spec fn stream_filter(status: u16) -> spec_fn((Seq<char>, Seq<char>)) -> bool {
    |h: (Seq<char>, Seq<char>)| stream_keeps(status, h.0)
}

/// The headers of a streamed reply: the upstream headers that it keeps, the
/// event-stream type when upstream succeeded, and the provider.
pub open spec fn stream_reply_headers(
    status: u16,
    upstream: Seq<(Seq<char>, Seq<char>)>,
    provider: Seq<char>,
) -> Seq<(Seq<char>, Seq<char>)> {
    let kept = upstream.filter(stream_filter(status));
    let typed = if is_success(status) {
        kept.push(("content-type"@, "text/event-stream"@))
    } else {
        kept
    };
    typed.push(("x-aisix-provider"@, provider))
}

/// Whether an upstream header passes into a JSON reply: the gateway sets
/// the provider header, and the cache header where it has one.
pub open spec fn json_keeps(cache_hit: Option<Seq<char>>, name: Seq<char>) -> bool {
    &&& name != "x-aisix-provider"@
    &&& !(cache_hit is Some && name == "x-aisix-cache-hit"@)
}

/// `json_keeps` as a predicate on headers.
pub open spec fn json_filter(cache_hit: Option<Seq<char>>) -> spec_fn((Seq<char>, Seq<char>)) -> bool {
    |h: (Seq<char>, Seq<char>)| json_keeps(cache_hit, h.0)
}

/// Whether some header has the given name.
pub open spec fn has_header(headers: Seq<(Seq<char>, Seq<char>)>, name: Seq<char>) -> bool {
    exists|i: int| 0 <= i < headers.len() && #[trigger] headers[i].0 == name
}

/// The headers of a JSON reply: the upstream headers that it keeps, a JSON
/// type where the cache header is set and upstream gave no type, the cache
/// header, and the provider.
pub open spec fn json_reply_headers(
    upstream: Seq<(Seq<char>, Seq<char>)>,
    cache_hit: Option<Seq<char>>,
    provider: Seq<char>,
) -> Seq<(Seq<char>, Seq<char>)> {
    let kept = upstream.filter(json_filter(cache_hit));
    let typed = if cache_hit is Some && !has_header(upstream, "content-type"@) {
        kept.push(("content-type"@, "application/json"@))
    } else {
        kept
    };
    let marked = match cache_hit {
        Some(v) => typed.push(("x-aisix-cache-hit"@, v)),
        None => typed,
    };
    marked.push(("x-aisix-provider"@, provider))
}

/// A copy of a header.
fn copy_header(h: &(String, String)) -> (c: (String, String))
    ensures
        c.0@ == h.0@,
        c.1@ == h.1@,
{
    (h.0.clone(), h.1.clone())
}

/// Appending a header appends its view.
proof fn lemma_views_push(h: Seq<(String, String)>, e: (String, String))
    ensures
        header_views(h.push(e)) == header_views(h).push((e.0@, e.1@)),
{
    assert(header_views(h.push(e)) =~= header_views(h).push((e.0@, e.1@)));
}

/// One more header of the input seen.
proof fn lemma_views_take_next(h: Seq<(String, String)>, i: int)
    requires
        0 <= i < h.len(),
    ensures
        header_views(h.take(i + 1)) == header_views(h.take(i)).push((h[i].0@, h[i].1@)),
{
    assert(h.take(i + 1) =~= h.take(i).push(h[i]));
    lemma_views_push(h.take(i), h[i]);
}

/// A pair of strings made from two literals.
fn header(name: &str, value: &str) -> (h: (String, String))
    ensures
        h.0@ == name@,
        h.1@ == value@,
{
    (name.to_string(), value.to_string())
}

/// The headers of a streamed reply, as `stream_reply_headers` states them.
pub fn build_stream_reply_headers(status: u16, upstream: &Vec<(String, String)>, provider_id: &str) -> (out: Vec<
    (String, String),
>)
    ensures
        header_views(out@) == stream_reply_headers(status, header_views(upstream@), provider_id@),
{
    let mut out: Vec<(String, String)> = Vec::new();
    let mut i: usize = 0;
    let success = 200 <= status && status <= 299;
    proof {
        assert(header_views(out@) =~= header_views(upstream@.take(0)).filter(stream_filter(status))) by {
            assert(upstream@.take(0) =~= Seq::<(String, String)>::empty());
            reveal(Seq::filter);
        }
    }
    while i < upstream.len()
        invariant
            i <= upstream@.len(),
            success == is_success(status),
            header_views(out@) == header_views(upstream@.take(i as int)).filter(stream_filter(status)),
        decreases upstream@.len() - i,
    {
        let name = upstream[i].0.as_str();
        let framing = str_eq(name, "content-length") || str_eq(name, "transfer-encoding") || str_eq(
            name,
            "connection",
        );
        let keep = !framing && !str_eq(name, "x-aisix-provider") && !(success && str_eq(
            name,
            "content-type",
        ));
        proof {
            lemma_views_take_next(upstream@, i as int);
            header_views(upstream@.take(i as int)).lemma_filter_push(
                (upstream@[i as int].0@, upstream@[i as int].1@),
                stream_filter(status),
            );
        }
        if keep {
            let h = copy_header(&upstream[i]);
            proof {
                lemma_views_push(out@, h);
            }
            out.push(h);
        }
        i = i + 1;
    }
    proof {
        lemma_views_take_next_all(upstream@);
    }
    if success {
        let h = header("content-type", "text/event-stream");
        proof {
            lemma_views_push(out@, h);
        }
        out.push(h);
    }
    let p = header("x-aisix-provider", provider_id);
    proof {
        lemma_views_push(out@, p);
    }
    out.push(p);
    out
}

/// Taking all of a sequence gives it back.
proof fn lemma_views_take_next_all(h: Seq<(String, String)>)
    ensures
        header_views(h.take(h.len() as int)) == header_views(h),
{
    assert(h.take(h.len() as int) =~= h);
}

/// The headers of a JSON reply, as `json_reply_headers` states them.
pub fn build_json_reply_headers(
    upstream: &Vec<(String, String)>,
    cache_hit: Option<&str>,
    provider_id: &str,
) -> (out: Vec<(String, String)>)
    ensures
        header_views(out@) == json_reply_headers(
            header_views(upstream@),
            match cache_hit {
                Some(v) => Some(v@),
                None => None,
            },
            provider_id@,
        ),
{
    let ghost hit: Option<Seq<char>> = match cache_hit {
        Some(v) => Some(v@),
        None => None,
    };
    let marking = cache_hit.is_some();
    let mut out: Vec<(String, String)> = Vec::new();
    let mut typed = false;
    let mut i: usize = 0;
    proof {
        assert(header_views(out@) =~= header_views(upstream@.take(0)).filter(json_filter(hit))) by {
            assert(upstream@.take(0) =~= Seq::<(String, String)>::empty());
            reveal(Seq::filter);
        }
    }
    while i < upstream.len()
        invariant
            i <= upstream@.len(),
            marking == (hit is Some),
            hit == (match cache_hit {
                Some(v) => Some(v@),
                None => None::<Seq<char>>,
            }),
            header_views(out@) == header_views(upstream@.take(i as int)).filter(json_filter(hit)),
            typed == has_header(header_views(upstream@.take(i as int)), "content-type"@),
        decreases upstream@.len() - i,
    {
        let name = upstream[i].0.as_str();
        let is_type = str_eq(name, "content-type");
        let keep = !str_eq(name, "x-aisix-provider") && !(marking && str_eq(name, "x-aisix-cache-hit"));
        let ghost before = header_views(upstream@.take(i as int));
        let ghost next = header_views(upstream@.take(i + 1));
        proof {
            lemma_views_take_next(upstream@, i as int);
            before.lemma_filter_push((upstream@[i as int].0@, upstream@[i as int].1@), json_filter(hit));
            assert(next == before.push((upstream@[i as int].0@, upstream@[i as int].1@)));
            if is_type {
                assert(next[i as int].0 == "content-type"@);
            }
            if typed {
                let j = choose|j: int| 0 <= j < before.len() && #[trigger] before[j].0 == "content-type"@;
                assert(next[j] == before[j]);
            }
            if has_header(next, "content-type"@) && !is_type {
                let j = choose|j: int| 0 <= j < next.len() && #[trigger] next[j].0 == "content-type"@;
                assert(j < before.len());
                assert(before[j] == next[j]);
            }
        }
        if is_type {
            typed = true;
        }
        if keep {
            let h = copy_header(&upstream[i]);
            proof {
                lemma_views_push(out@, h);
            }
            out.push(h);
        }
        i = i + 1;
    }
    proof {
        lemma_views_take_next_all(upstream@);
    }
    if marking && !typed {
        let h = header("content-type", "application/json");
        proof {
            lemma_views_push(out@, h);
        }
        out.push(h);
    }
    match cache_hit {
        Some(v) => {
            let h = header("x-aisix-cache-hit", v);
            proof {
                lemma_views_push(out@, h);
            }
            out.push(h);
        },
        None => {},
    }
    let p = header("x-aisix-provider", provider_id);
    proof {
        lemma_views_push(out@, p);
    }
    out.push(p);
    out
}

/// Whether a header has the given name, as a predicate.
pub open spec fn named(name: Seq<char>) -> spec_fn((Seq<char>, Seq<char>)) -> bool {
    |e: (Seq<char>, Seq<char>)| e.0 == name
}

/// The values of headers.
pub open spec fn values_of(h: Seq<(Seq<char>, Seq<char>)>) -> Seq<Seq<char>> {
    h.map_values(|e: (Seq<char>, Seq<char>)| e.1)
}

/// The values of the headers with a given name, in order.
pub open spec fn header_values(h: Seq<(Seq<char>, Seq<char>)>, name: Seq<char>) -> Seq<Seq<char>> {
    values_of(h.filter(named(name)))
}

/// Filtering keeps no header with a name that none had.
proof fn lemma_filter_keeps_absence(
    h: Seq<(Seq<char>, Seq<char>)>,
    p: spec_fn((Seq<char>, Seq<char>)) -> bool,
    name: Seq<char>,
)
    requires
        forall|i: int| 0 <= i < h.len() ==> #[trigger] h[i].0 != name,
    ensures
        forall|i: int| 0 <= i < h.filter(p).len() ==> #[trigger] h.filter(p)[i].0 != name,
    decreases h.len(),
{
    reveal(Seq::filter);
    if h.len() > 0 {
        let d = h.drop_last();
        assert forall|i: int| 0 <= i < d.len() implies #[trigger] d[i].0 != name by {
            assert(d[i] == h[i]);
        }
        lemma_filter_keeps_absence(d, p, name);
        let f = h.filter(p);
        let g = d.filter(p);
        assert(f == (if p(h.last()) { g.push(h.last()) } else { g }));
        assert(h.last().0 != name) by {
            assert(h.last() == h[h.len() - 1]);
        }
        assert forall|i: int| 0 <= i < f.len() implies #[trigger] f[i].0 != name by {
            if i < g.len() {
                assert(f[i] == g[i]);
            }
        }
    }
}

/// A sequence none of whose entries has the name has no values for it.
proof fn lemma_values_none(h: Seq<(Seq<char>, Seq<char>)>, name: Seq<char>)
    requires
        forall|i: int| 0 <= i < h.len() ==> #[trigger] h[i].0 != name,
    ensures
        header_values(h, name) == Seq::<Seq<char>>::empty(),
{
    lemma_filter_keeps_absence(h, named(name), name);
    h.filter_lemma(named(name));
    let f = h.filter(named(name));
    if f.len() > 0 {
        assert(named(name)(f[0]));
        assert(f[0].0 != name);
    }
    assert(values_of(f) =~= Seq::<Seq<char>>::empty());
}

/// Appending a header adds its value where it has the name.
proof fn lemma_values_push(h: Seq<(Seq<char>, Seq<char>)>, e: (Seq<char>, Seq<char>), name: Seq<char>)
    ensures
        header_values(h.push(e), name) == (if e.0 == name {
            header_values(h, name).push(e.1)
        } else {
            header_values(h, name)
        }),
{
    h.lemma_filter_push(e, named(name));
    let f = h.filter(named(name));
    assert(values_of(f.push(e)) =~= values_of(f).push(e.1));
}

/// The names that the gateway sets are distinct.
proof fn lemma_gateway_names_differ()
    ensures
        "content-type"@ != "x-aisix-cache-hit"@,
        "x-aisix-provider"@ != "x-aisix-cache-hit"@,
{
    reveal_strlit("content-type");
    reveal_strlit("x-aisix-cache-hit");
    reveal_strlit("x-aisix-provider");
    assert("content-type"@[0] != "x-aisix-cache-hit"@[0]);
    assert("x-aisix-provider"@[8] != "x-aisix-cache-hit"@[8]);
}

/// The cache header tells whether caching was on.  With caching off a JSON
/// reply carries none; with caching on it carries exactly one, `false` for
/// an answer from upstream and `true` for one from the cache.  (An upstream
/// that sends the header itself is left out: with caching off its header
/// passes through.)
pub proof fn lemma_cache_header_follows_caching(
    upstream: Seq<(Seq<char>, Seq<char>)>,
    caching: bool,
    provider: Seq<char>,
)
    requires
        !has_header(upstream, "x-aisix-cache-hit"@),
    ensures
        header_values(
            json_reply_headers(upstream, if caching { Some("false"@) } else { None }, provider),
            "x-aisix-cache-hit"@,
        ) == (if caching { seq!["false"@] } else { Seq::<Seq<char>>::empty() }),
        header_values(json_reply_headers(seq![], Some("true"@), provider), "x-aisix-cache-hit"@)
            == seq!["true"@],
{
    let name = "x-aisix-cache-hit"@;
    lemma_gateway_names_differ();
    let hit: Option<Seq<char>> = if caching { Some("false"@) } else { None };
    let kept = upstream.filter(json_filter(hit));
    upstream.filter_lemma(json_filter(hit));
    if !caching {
        assert forall|i: int| 0 <= i < upstream.len() implies #[trigger] upstream[i].0 != name by {
            if upstream[i].0 == name {
                assert(has_header(upstream, name));
            }
        }
        lemma_filter_keeps_absence(upstream, json_filter(hit), name);
    }
    assert forall|i: int| 0 <= i < kept.len() implies #[trigger] kept[i].0 != name by {
        if caching {
            assert(json_filter(hit)(kept[i]));
        }
    }
    lemma_values_none(kept, name);
    let typed = if hit is Some && !has_header(upstream, "content-type"@) {
        kept.push(("content-type"@, "application/json"@))
    } else {
        kept
    };
    lemma_values_push(kept, ("content-type"@, "application/json"@), name);
    let marked = match hit {
        Some(v) => typed.push((name, v)),
        None => typed,
    };
    lemma_values_push(typed, (name, "false"@), name);
    lemma_values_push(marked, ("x-aisix-provider"@, provider), name);
    assert(Seq::<Seq<char>>::empty().push("false"@) =~= seq!["false"@]);

    let empty: Seq<(Seq<char>, Seq<char>)> = seq![];
    let kept2 = empty.filter(json_filter(Some("true"@)));
    assert(kept2 =~= empty) by {
        reveal(Seq::filter);
    }
    lemma_values_none(empty, name);
    lemma_values_push(empty, ("content-type"@, "application/json"@), name);
    let typed2 = empty.push(("content-type"@, "application/json"@));
    lemma_values_push(typed2, (name, "true"@), name);
    lemma_values_push(typed2.push((name, "true"@)), ("x-aisix-provider"@, provider), name);
    assert(!has_header(empty, "content-type"@));
    assert(Seq::<Seq<char>>::empty().push("true"@) =~= seq!["true"@]);
}

/// The usage recorded for an upstream answer: what it reported, when it
/// succeeded; nothing otherwise.
pub fn usage_to_record(status: u16, usage: Option<Usage>) -> (r: Option<Usage>)
    ensures
        r == (if is_success(status) { usage } else { None }),
{
    if 200 <= status && status <= 299 {
        usage
    } else {
        None
    }
}

/// A JSON reply, with what the gateway records and stores on the way out.
pub struct JsonReply {
    pub status: u16,
    pub headers: Vec<(String, String)>,
    /// Token counts added to the key's usage.
    pub record_usage: Option<Usage>,
    /// Whether the body is stored in the chat cache.
    pub store_in_cache: bool,
}

/// The reply for a chat found in the cache: status 200, the cache header
/// `true`, the provider that first answered, and its usage counted again.
pub fn reply_from_cache(provider_id: &str, usage: Option<Usage>) -> (r: JsonReply)
    ensures
        r.status == 200,
        header_views(r.headers@) == json_reply_headers(seq![], Some("true"@), provider_id@),
        r.record_usage == usage,
        !r.store_in_cache,
{
    let none: Vec<(String, String)> = Vec::new();
    let hit = cache_hit_header(true, true);
    let headers = build_json_reply_headers(&none, hit, provider_id);
    proof {
        assert(header_views(none@) =~= Seq::<(Seq<char>, Seq<char>)>::empty());
    }
    JsonReply { status: 200, headers, record_usage: usage, store_in_cache: false }
}

/// The reply for a JSON answer from upstream.  Its status and body pass
/// through; a successful answer has its usage recorded and, where caching
/// is on for the request, is stored in the cache; the cache header says
/// `false` exactly where caching is on.
pub fn reply_from_upstream(
    status: u16,
    upstream: &Vec<(String, String)>,
    provider_id: &str,
    caching: bool,
    usage: Option<Usage>,
) -> (r: JsonReply)
    ensures
        r.status == status,
        header_views(r.headers@) == json_reply_headers(
            header_views(upstream@),
            if caching { Some("false"@) } else { None },
            provider_id@,
        ),
        r.record_usage == (if is_success(status) { usage } else { None }),
        r.store_in_cache == (caching && is_success(status)),
{
    let hit = cache_hit_header(caching, false);
    let headers = build_json_reply_headers(upstream, hit, provider_id);
    let success = 200 <= status && status <= 299;
    JsonReply {
        status,
        headers,
        record_usage: if success { usage } else { None },
        store_in_cache: caching && success,
    }
}

/// A streamed reply, with the usage that the gateway records.
pub struct StreamReply {
    pub status: u16,
    pub headers: Vec<(String, String)>,
    /// Token counts added to the key's usage.
    pub record_usage: Option<Usage>,
}

/// The reply for a streamed answer from upstream: the status passes
/// through, the headers are those of `stream_reply_headers`, and usage is
/// recorded only for a successful stream.
pub fn reply_to_stream(
    status: u16,
    upstream: &Vec<(String, String)>,
    provider_id: &str,
    usage: Option<Usage>,
) -> (r: StreamReply)
    ensures
        r.status == status,
        header_views(r.headers@) == stream_reply_headers(status, header_views(upstream@), provider_id@),
        r.record_usage == (if is_success(status) { usage } else { None }),
{
    let headers = build_stream_reply_headers(status, upstream, provider_id);
    let success = 200 <= status && status <= 299;
    StreamReply { status, headers, record_usage: if success { usage } else { None } }
}

} // verus!
