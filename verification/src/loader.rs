//! Where resources live in the key-value store, and how a set of stored
//! entries becomes a snapshot.
use vstd::prelude::*;

use crate::compile::{compile_failure, compile_snapshot, compiled_from, first_issue};
use crate::config::{ApiKeyConfig, ModelConfig, PolicyConfig, ProviderConfig};
use crate::snapshot::CompiledSnapshot;
use crate::text::{
    append_chars, concat, find_char, slice_range, starts_with, str_chars, string_from_chars,
    trim_end_char, trim_end_matches_char,
};

verus! {

/// A stored key and its raw value.
#[derive(Debug, Clone, PartialEq, Eq)]
pub struct EtcdEntry {
    pub key: String,
    pub value: Vec<u8>,
}

/// Where a write landed and at which store revision.
#[derive(Debug, Clone, PartialEq, Eq)]
pub struct AdminStoreWrite {
    pub key: String,
    pub revision: i64,
}

/// The collections that the store holds.
#[derive(Debug, Clone, Copy, PartialEq, Eq, Structural)]
pub enum Collection {
    Providers,
    Models,
    ApiKeys,
    Policies,
}

/// A stored value after it has been decoded as the type its collection holds.
#[derive(Debug)]
pub enum DecodedResource {
    Provider(ProviderConfig),
    Model(ModelConfig),
    ApiKey(ApiKeyConfig),
    Policy(PolicyConfig),
}

/// The path segment of a collection.
pub open spec fn collection_segment(c: Collection) -> Seq<char> {
    match c {
        Collection::Providers => "providers"@,
        Collection::Models => "models"@,
        Collection::ApiKeys => "apikeys"@,
        Collection::Policies => "policies"@,
    }
}

/// The word used for a collection's items in messages.
pub open spec fn collection_kind(c: Collection) -> Seq<char> {
    match c {
        Collection::Providers => "provider"@,
        Collection::Models => "model"@,
        Collection::ApiKeys => "api key"@,
        Collection::Policies => "policy"@,
    }
}

/// The collection whose path segment is `s`, if any.
pub open spec fn collection_named(s: Seq<char>) -> Option<Collection> {
    if s == "providers"@ {
        Some(Collection::Providers)
    } else if s == "models"@ {
        Some(Collection::Models)
    } else if s == "apikeys"@ {
        Some(Collection::ApiKeys)
    } else if s == "policies"@ {
        Some(Collection::Policies)
    } else {
        None
    }
}

/// The prefix without trailing slashes, then one slash.
pub open spec fn normalized_prefix(prefix: Seq<char>) -> Seq<char> {
    trim_end_char(prefix, '/').push('/')
}

/// The key under which a resource is stored.
pub open spec fn resource_key_spec(prefix: Seq<char>, collection: Seq<char>, id: Seq<char>) -> Seq<char> {
    trim_end_char(prefix, '/') + "/"@ + collection + "/"@ + id
}

/// A relative path of exactly two non-empty segments, split at its slash.
pub open spec fn path_segments(rel: Seq<char>) -> Option<(Seq<char>, Seq<char>)> {
    if exists|i: int| 0 <= i < rel.len() && rel[i] == '/' {
        let i = choose|i: int|
            0 <= i < rel.len() && rel[i] == '/' && !rel.subrange(0, i).contains('/');
        let first = rel.subrange(0, i);
        let second = rel.subrange(i + 1, rel.len() as int);
        if first.len() > 0 && second.len() > 0 && !second.contains('/') {
            Some((first, second))
        } else {
            None
        }
    } else {
        None
    }
}

/// Where a stored key points: its collection and resource id, or why it
/// cannot be read.
#[verifier::opaque]
pub open spec fn entry_location(prefix: Seq<char>, key: Seq<char>) -> Result<
    (Collection, Seq<char>),
    Seq<char>,
> {
    let np = normalized_prefix(prefix);
    if !(np.len() <= key.len() && key.subrange(0, np.len() as int) == np) {
        Err("invalid etcd key outside prefix: "@ + key)
    } else {
        match path_segments(key.subrange(np.len() as int, key.len() as int)) {
            None => Err("invalid etcd key: "@ + key),
            Some((c, id)) => match collection_named(c) {
                Some(col) => Ok((col, id)),
                None => Err("unsupported etcd collection: "@ + c),
            },
        }
    }
}

/// The collection a decoded resource belongs to.
pub open spec fn decoded_collection(d: DecodedResource) -> Collection {
    match d {
        DecodedResource::Provider(_) => Collection::Providers,
        DecodedResource::Model(_) => Collection::Models,
        DecodedResource::ApiKey(_) => Collection::ApiKeys,
        DecodedResource::Policy(_) => Collection::Policies,
    }
}

/// The identifier in a decoded resource's body.
pub open spec fn decoded_id(d: DecodedResource) -> Seq<char> {
    match d {
        DecodedResource::Provider(p) => p.id@,
        DecodedResource::Model(m) => m.id@,
        DecodedResource::ApiKey(k) => k.id@,
        DecodedResource::Policy(p) => p.id@,
    }
}

/// The decoded values agree with the collections their keys name.
pub open spec fn decoded_matches_keys(
    prefix: Seq<char>,
    entries: Seq<EtcdEntry>,
    decoded: Seq<Result<DecodedResource, String>>,
) -> bool {
    &&& decoded.len() == entries.len()
    &&& forall|i: int|
        0 <= i < entries.len() ==> (entry_location(prefix, #[trigger] entries[i].key@) matches Ok(
            (col, _),
        ) ==> (decoded[i] is Ok ==> decoded_collection(decoded[i]->Ok_0) == col))
}

/// What is wrong with one stored entry, if anything: its key, then its
/// decoding, then a body id that differs from the id in the key.
#[verifier::opaque]
pub open spec fn entry_problem(
    prefix: Seq<char>,
    key: Seq<char>,
    decoded: Result<DecodedResource, String>,
) -> Option<Seq<char>> {
    match entry_location(prefix, key) {
        Err(m) => Some(m),
        Ok((col, id)) => match decoded {
            Err(e) => Some("failed to decode "@ + collection_kind(col) + " at "@ + key + ": "@ + e@),
            Ok(d) => if decoded_id(d) != id {
                Some(
                    "etcd key/body id mismatch for "@ + collection_kind(col) + " at "@ + key
                        + ": expected "@ + id + ", got "@ + decoded_id(d),
                )
            } else {
                None
            },
        },
    }
}

/// The problems of each entry, in order.
pub open spec fn entry_problems(
    prefix: Seq<char>,
    entries: Seq<EtcdEntry>,
    decoded: Seq<Result<DecodedResource, String>>,
) -> Seq<Option<Seq<char>>> {
    Seq::new(entries.len(), |i: int| entry_problem(prefix, entries[i].key@, decoded[i]))
}

/// The providers among the decoded values, in order.
pub open spec fn providers_in(ds: Seq<Result<DecodedResource, String>>) -> Seq<ProviderConfig>
    decreases ds.len(),
{
    if ds.len() == 0 {
        Seq::empty()
    } else {
        let rest = providers_in(ds.drop_last());
        match ds.last() {
            Ok(DecodedResource::Provider(p)) => rest.push(p),
            _ => rest,
        }
    }
}

/// The models among the decoded values, in order.
pub open spec fn models_in(ds: Seq<Result<DecodedResource, String>>) -> Seq<ModelConfig>
    decreases ds.len(),
{
    if ds.len() == 0 {
        Seq::empty()
    } else {
        let rest = models_in(ds.drop_last());
        match ds.last() {
            Ok(DecodedResource::Model(m)) => rest.push(m),
            _ => rest,
        }
    }
}

/// The API keys among the decoded values, in order.
pub open spec fn apikeys_in(ds: Seq<Result<DecodedResource, String>>) -> Seq<ApiKeyConfig>
    decreases ds.len(),
{
    if ds.len() == 0 {
        Seq::empty()
    } else {
        let rest = apikeys_in(ds.drop_last());
        match ds.last() {
            Ok(DecodedResource::ApiKey(k)) => rest.push(k),
            _ => rest,
        }
    }
}

/// The policies among the decoded values, in order.
pub open spec fn policies_in(ds: Seq<Result<DecodedResource, String>>) -> Seq<PolicyConfig>
    decreases ds.len(),
{
    if ds.len() == 0 {
        Seq::empty()
    } else {
        let rest = policies_in(ds.drop_last());
        match ds.last() {
            Ok(DecodedResource::Policy(p)) => rest.push(p),
            _ => rest,
        }
    }
}

/// The prefix without trailing slashes, as characters.
fn trimmed_prefix(prefix: &str) -> (res: Vec<char>)
    ensures
        res@ == trim_end_char(prefix@, '/'),
{
    let p = str_chars(prefix);
    trim_end_matches_char(p.as_slice(), '/')
}

/// The key under which the resource `id` of `collection` is stored.
pub fn resource_key(prefix: &str, collection: &str, id: &str) -> (key: String)
    ensures
        key@ == resource_key_spec(prefix@, collection@, id@),
{
    let mut v = trimmed_prefix(prefix);
    v.push('/');
    let c = str_chars(collection);
    append_chars(&mut v, c.as_slice());
    v.push('/');
    let i = str_chars(id);
    append_chars(&mut v, i.as_slice());
    proof {
        reveal_strlit("/");
        assert(v@ =~= resource_key_spec(prefix@, collection@, id@));
    }
    string_from_chars(v.as_slice())
}

/// Splits a relative path into two non-empty segments around its only slash.
fn split_path_segments(rel: &[char]) -> (res: Option<(Vec<char>, Vec<char>)>)
    ensures
        match res {
            Some((a, b)) => path_segments(rel@) == Some((a@, b@)),
            None => path_segments(rel@) is None,
        },
{
    match find_char(rel, '/') {
        None => None,
        Some(i) => {
            proof {
                let j = choose|j: int|
                    0 <= j < rel@.len() && rel@[j] == '/' && !rel@.subrange(0, j).contains('/');
                if j < i {
                    assert(rel@.subrange(0, i as int)[j] == '/');
                } else if j > i {
                    assert(rel@.subrange(0, j)[i as int] == '/');
                }
                assert(j == i);
            }
            let first = slice_range(rel, 0, i);
            let n = rel.len();
            assert(i < n);
            let second = slice_range(rel, i + 1, n);
            if first.len() > 0 && second.len() > 0 && !crate::text::contains_char(
                second.as_slice(),
                '/',
            ) {
                Some((first, second))
            } else {
                None
            }
        },
    }
}

/// The collection whose path segment is `s`, if any.
fn collection_from_segment(s: &[char]) -> (res: Option<Collection>)
    ensures
        res == collection_named(s@),
{
    let text = string_from_chars(s);
    if text == "providers".to_string() {
        Some(Collection::Providers)
    } else if text == "models".to_string() {
        Some(Collection::Models)
    } else if text == "apikeys".to_string() {
        Some(Collection::ApiKeys)
    } else if text == "policies".to_string() {
        Some(Collection::Policies)
    } else {
        None
    }
}

/// The word used for a collection's items in messages.
pub fn collection_kind_name(c: Collection) -> (s: &'static str)
    ensures
        s@ == collection_kind(c),
{
    match c {
        Collection::Providers => "provider",
        Collection::Models => "model",
        Collection::ApiKeys => "api key",
        Collection::Policies => "policy",
    }
}

/// Reads the collection and resource id out of a stored key.
pub fn entry_location_of(prefix: &str, key: &str) -> (res: Result<(Collection, String), String>)
    ensures
        match res {
            Ok((c, id)) => entry_location(prefix@, key@) == Ok::<(Collection, Seq<char>), Seq<char>>((c, id@)),
            Err(m) => entry_location(prefix@, key@) == Err::<(Collection, Seq<char>), Seq<char>>(m@),
        },
{
    reveal(entry_location);
    let mut np = trimmed_prefix(prefix);
    np.push('/');
    let k = str_chars(key);
    if !starts_with(k.as_slice(), np.as_slice()) {
        return Err(concat("invalid etcd key outside prefix: ", key));
    }
    let rel = slice_range(k.as_slice(), np.len(), k.len());
    match split_path_segments(rel.as_slice()) {
        None => Err(concat("invalid etcd key: ", key)),
        Some((c, id)) => match collection_from_segment(c.as_slice()) {
            Some(col) => Ok((col, string_from_chars(id.as_slice()))),
            None => {
                let name = string_from_chars(c.as_slice());
                Err(concat("unsupported etcd collection: ", name.as_str()))
            },
        },
    }
}

/// The identifier in a decoded resource's body.
fn decoded_resource_id(d: &DecodedResource) -> (id: &str)
    ensures
        id@ == decoded_id(*d),
{
    match d {
        DecodedResource::Provider(p) => p.id.as_str(),
        DecodedResource::Model(m) => m.id.as_str(),
        DecodedResource::ApiKey(k) => k.id.as_str(),
        DecodedResource::Policy(p) => p.id.as_str(),
    }
}

/// The problem with one entry, if any.
fn check_entry(prefix: &str, key: &str, decoded: &Result<DecodedResource, String>) -> (res: Result<
    Collection,
    String,
>)
    requires
        entry_location(prefix@, key@) matches Ok((col, _)) ==> (decoded is Ok ==> decoded_collection(
            decoded->Ok_0,
        ) == col),
    ensures
        match res {
            Ok(c) => entry_problem(prefix@, key@, *decoded) is None && decoded is Ok
                && decoded_collection(decoded->Ok_0) == c,
            Err(m) => entry_problem(prefix@, key@, *decoded) == Some(m@),
        },
{
    reveal(entry_problem);
    let (col, id) = match entry_location_of(prefix, key) {
        Ok(loc) => loc,
        Err(m) => {
            return Err(m);
        },
    };
    let kind = collection_kind_name(col);
    match decoded {
        Err(e) => {
            let s1 = concat("failed to decode ", kind);
            let s2 = concat(s1.as_str(), " at ");
            let s3 = concat(s2.as_str(), key);
            let s4 = concat(s3.as_str(), ": ");
            let s5 = concat(s4.as_str(), e.as_str());
            proof {
                assert(s5@ =~= "failed to decode "@ + collection_kind(col) + " at "@ + key@ + ": "@
                    + e@);
            }
            Err(s5)
        },
        Ok(d) => {
            let body_id = decoded_resource_id(d);
            if !crate::strmap::str_eq(body_id, id.as_str()) {
                let s1 = concat("etcd key/body id mismatch for ", kind);
                let s2 = concat(s1.as_str(), " at ");
                let s3 = concat(s2.as_str(), key);
                let s4 = concat(s3.as_str(), ": expected ");
                let s5 = concat(s4.as_str(), id.as_str());
                let s6 = concat(s5.as_str(), ", got ");
                let s7 = concat(s6.as_str(), body_id);
                proof {
                    assert(s7@ =~= "etcd key/body id mismatch for "@ + collection_kind(col) + " at "@
                        + key@ + ": expected "@ + id@ + ", got "@ + decoded_id(*d));
                }
                Err(s7)
            } else {
                Ok(col)
            }
        },
    }
}

/// Compiles stored entries into a snapshot.
///
/// `decoded[i]` is the value of `entries[i]` decoded as the type of the
/// collection its key names.  The first entry whose key, decoding or body id
/// is wrong fails the whole load; otherwise the resources are compiled as
/// `compile_snapshot` does, in the order of the entries.
#[verifier::rlimit(50)]
pub fn compile_snapshot_from_entries(
    prefix: &str,
    entries: &[EtcdEntry],
    decoded: Vec<Result<DecodedResource, String>>,
    revision: i64,
) -> (res: Result<CompiledSnapshot, String>)
    requires
        decoded_matches_keys(prefix@, entries@, decoded@),
    ensures
        ({
            let problem = first_issue(entry_problems(prefix@, entries@, decoded@));
            let ps = providers_in(decoded@);
            let ms = models_in(decoded@);
            let ks = apikeys_in(decoded@);
            let pols = policies_in(decoded@);
            match res {
                Ok(snap) => problem is None && compile_failure(ps, ms, ks, pols) is None
                    && compiled_from(snap, ps, ms, ks, pols, revision),
                Err(e) => problem == Some(e@) || (problem is None && compile_failure(
                    ps,
                    ms,
                    ks,
                    pols,
                ) == Some(e@)),
            }
        }),
{
    let ghost all = decoded@;
    let ghost problems = entry_problems(prefix@, entries@, all);
    let mut rest = decoded;
    let mut providers: Vec<ProviderConfig> = Vec::new();
    let mut models: Vec<ModelConfig> = Vec::new();
    let mut apikeys: Vec<ApiKeyConfig> = Vec::new();
    let mut policies: Vec<PolicyConfig> = Vec::new();
    let mut i: usize = 0;
    proof {
        assert(rest@ =~= all.subrange(0, all.len() as int));
        assert(all.subrange(0, 0) =~= Seq::<Result<DecodedResource, String>>::empty());
    }
    while i < entries.len()
        invariant
            all == decoded@,
            decoded_matches_keys(prefix@, entries@, all),
            problems == entry_problems(prefix@, entries@, all),
            i <= entries@.len(),
            rest@ == all.subrange(i as int, all.len() as int),
            forall|j: int| 0 <= j < i ==> #[trigger] problems[j] is None,
            providers@ == providers_in(all.subrange(0, i as int)),
            models@ == models_in(all.subrange(0, i as int)),
            apikeys@ == apikeys_in(all.subrange(0, i as int)),
            policies@ == policies_in(all.subrange(0, i as int)),
        decreases entries@.len() - i,
    {
        proof {
            assert(rest@.len() == all.len() - i);
            assert(entries@[i as int].key@ == entries[i as int].key@);
        }
        let item = rest.remove(0);
        proof {
            assert(item == all[i as int]);
            assert(problems[i as int] == entry_problem(prefix@, entries@[i as int].key@, item));
        }
        match check_entry(prefix, entries[i].key.as_str(), &item) {
            Err(m) => {
                proof {
                    lemma_first_issue_before(problems, i as int);
                }
                return Err(m);
            },
            Ok(_) => {},
        }
        let ghost before = all.subrange(0, i as int);
        proof {
            assert(all.subrange(0, i + 1) =~= before.push(item));
            assert(before.push(item).drop_last() =~= before);
        }
        match item {
            Ok(DecodedResource::Provider(p)) => providers.push(p),
            Ok(DecodedResource::Model(m)) => models.push(m),
            Ok(DecodedResource::ApiKey(k)) => apikeys.push(k),
            Ok(DecodedResource::Policy(p)) => policies.push(p),
            Err(_) => {},
        }
        proof {
            assert(rest@ =~= all.subrange(i + 1, all.len() as int));
        }
        i = i + 1;
    }
    proof {
        assert(all.subrange(0, i as int) =~= all);
        crate::compile::lemma_first_issue_none(problems);
    }
    compile_snapshot(providers, models, apikeys, policies, revision)
}

proof fn lemma_first_issue_before(s: Seq<Option<Seq<char>>>, i: int)
    requires
        0 <= i < s.len(),
        forall|j: int| 0 <= j < i ==> #[trigger] s[j] is None,
        s[i] is Some,
    ensures
        first_issue(s) == s[i],
{
    crate::compile::lemma_first_issue_at(s, i);
}

/// A trailing `/` on the prefix changes nothing of a load: every entry is
/// located, and so checked and compiled, as under the prefix without it,
/// and resources are written under the same keys.
pub proof fn lemma_trailing_slash_ignored(
    prefix: Seq<char>,
    entries: Seq<EtcdEntry>,
    decoded: Seq<Result<DecodedResource, String>>,
)
    ensures
        normalized_prefix(prefix.push('/')) == normalized_prefix(prefix),
        forall|key: Seq<char>| entry_location(prefix.push('/'), key) == entry_location(prefix, key),
        forall|c: Seq<char>, id: Seq<char>|
            resource_key_spec(prefix.push('/'), c, id) == resource_key_spec(prefix, c, id),
        entry_problems(prefix.push('/'), entries, decoded) == entry_problems(prefix, entries, decoded),
        decoded_matches_keys(prefix.push('/'), entries, decoded) == decoded_matches_keys(
            prefix,
            entries,
            decoded,
        ),
{
    let p = prefix.push('/');
    assert(p.drop_last() =~= prefix);
    assert(trim_end_char(p, '/') == trim_end_char(prefix, '/'));
    assert(normalized_prefix(p) == normalized_prefix(prefix));
    assert forall|key: Seq<char>| entry_location(p, key) == entry_location(prefix, key) by {
        reveal(entry_location);
    }
    assert forall|i: int| 0 <= i < entries.len() implies #[trigger] entry_problems(
        p,
        entries,
        decoded,
    )[i] == entry_problems(prefix, entries, decoded)[i] by {
        reveal(entry_problem);
        assert(entry_location(p, entries[i].key@) == entry_location(prefix, entries[i].key@));
    }
    assert(entry_problems(p, entries, decoded) =~= entry_problems(prefix, entries, decoded));
}

/// A resource written under `resource_key` is read back from the same key
/// as the same collection and id: the store's key layout round-trips for
/// every identifier that is non-empty and holds no `/`.
pub proof fn lemma_resource_key_round_trip(prefix: Seq<char>, c: Collection, id: Seq<char>)
    requires
        id.len() > 0,
        !id.contains('/'),
    ensures
        entry_location(prefix, resource_key_spec(prefix, collection_segment(c), id)) == Ok::<
            (Collection, Seq<char>),
            Seq<char>,
        >((c, id)),
{
    reveal(entry_location);
    reveal_strlit("/");
    reveal_strlit("providers");
    reveal_strlit("models");
    reveal_strlit("apikeys");
    reveal_strlit("policies");
    let seg = collection_segment(c);
    let t = trim_end_char(prefix, '/');
    let key = resource_key_spec(prefix, seg, id);
    let np = normalized_prefix(prefix);
    assert(key =~= np + (seg.push('/') + id));
    assert(key.subrange(0, np.len() as int) =~= np);
    let rel = key.subrange(np.len() as int, key.len() as int);
    assert(rel =~= seg.push('/') + id);
    assert(!seg.contains('/')) by {
        assert forall|k: int| 0 <= k < seg.len() implies seg[k] != '/' by {}
    }
    let n = seg.len() as int;
    assert(rel[n] == '/');
    assert(rel.subrange(0, n) =~= seg);
    let j = choose|j: int| 0 <= j < rel.len() && rel[j] == '/' && !rel.subrange(0, j).contains('/');
    if j < n {
        assert(seg[j] == '/');
    } else if j > n {
        assert(rel.subrange(0, j)[n] == '/');
    }
    assert(rel.subrange(n + 1, rel.len() as int) =~= id);
    assert(path_segments(rel) == Some((seg, id)));
}

} // verus!
