//! Compiles the stored resources into a snapshot, checking that identifiers
//! are unique and that every reference resolves.
use vstd::prelude::*;

use crate::config::{
    clone_opt_string, clone_strings, ApiKeyConfig, CacheMode, CachePolicyConfig, HasConfigId,
    ModelConfig, PolicyConfig, ProviderConfig, RateLimitConfig,
};
use crate::snapshot::{CompiledSnapshot, ResolvedLimits};
use crate::strmap::StrMap;
use crate::text::concat;
use crate::types::KeyMeta;

verus! {

/// The identifiers of a sequence of resources, in order.
pub open spec fn ids_of<T: HasConfigId>(s: Seq<T>) -> Seq<Seq<char>> {
    Seq::new(s.len(), |i: int| s[i].spec_config_id())
}

/// The tokens of a sequence of API keys, in order.
pub open spec fn tokens_of(s: Seq<ApiKeyConfig>) -> Seq<Seq<char>> {
    Seq::new(s.len(), |i: int| s[i].key@)
}

/// The first element of `ids` that equals an earlier one (or one in `seen`).
pub open spec fn first_dup_seen(ids: Seq<Seq<char>>, seen: Set<Seq<char>>) -> Option<Seq<char>>
    decreases ids.len(),
{
    if ids.len() == 0 {
        None
    } else if seen.contains(ids[0]) {
        Some(ids[0])
    } else {
        first_dup_seen(ids.drop_first(), seen.insert(ids[0]))
    }
}

/// The first element of `ids` that repeats an earlier one.
pub open spec fn first_dup(ids: Seq<Seq<char>>) -> Option<Seq<char>> {
    first_dup_seen(ids, Set::empty())
}

/// The first name of `names` that `known` lacks.
pub open spec fn first_missing(names: Seq<Seq<char>>, known: Set<Seq<char>>) -> Option<Seq<char>>
    decreases names.len(),
{
    if names.len() == 0 {
        None
    } else if !known.contains(names[0]) {
        Some(names[0])
    } else {
        first_missing(names.drop_first(), known)
    }
}

/// The first reported problem of a sequence of checks.
pub open spec fn first_issue(issues: Seq<Option<Seq<char>>>) -> Option<Seq<char>>
    decreases issues.len(),
{
    if issues.len() == 0 {
        None
    } else if issues[0] is Some {
        issues[0]
    } else {
        first_issue(issues.drop_first())
    }
}

/// The views of a sequence of strings.
pub open spec fn views_of(s: Seq<String>) -> Seq<Seq<char>> {
    Seq::new(s.len(), |i: int| s[i]@)
}

/// The problem with a policy reference, if it names no known policy.
pub open spec fn policy_issue(policy_id: Option<String>, policies: Set<Seq<char>>) -> Option<
    Seq<char>,
> {
    match policy_id {
        Some(p) => if policies.contains(p@) {
            None
        } else {
            Some("missing policy reference: "@ + p@)
        },
        None => None,
    }
}

/// The problem with a provider, if any.
pub open spec fn provider_issue(p: ProviderConfig, policies: Set<Seq<char>>) -> Option<Seq<char>> {
    policy_issue(p.policy_id, policies)
}

/// The problem with a model, if any: its provider first, then its policy.
pub open spec fn model_issue(
    m: ModelConfig,
    providers: Set<Seq<char>>,
    policies: Set<Seq<char>>,
) -> Option<Seq<char>> {
    if !providers.contains(m.provider_id@) {
        Some("missing provider reference: "@ + m.provider_id@)
    } else {
        policy_issue(m.policy_id, policies)
    }
}

/// The problem with an API key, if any: its allowed models first, then its policy.
pub open spec fn key_issue(
    k: ApiKeyConfig,
    models: Set<Seq<char>>,
    policies: Set<Seq<char>>,
) -> Option<Seq<char>> {
    match first_missing(views_of(k.allowed_models@), models) {
        Some(name) => Some("missing model reference: "@ + name),
        None => policy_issue(k.policy_id, policies),
    }
}

/// The problems of each provider, in order.
pub open spec fn provider_issues(providers: Seq<ProviderConfig>, policies: Set<Seq<char>>) -> Seq<
    Option<Seq<char>>,
> {
    providers.map_values(|p: ProviderConfig| provider_issue(p, policies))
}

/// The problems of each model, in order.
pub open spec fn model_issues(
    models: Seq<ModelConfig>,
    providers: Set<Seq<char>>,
    policies: Set<Seq<char>>,
) -> Seq<Option<Seq<char>>> {
    models.map_values(|m: ModelConfig| model_issue(m, providers, policies))
}

/// The problems of each API key, in order.
pub open spec fn key_issues(
    apikeys: Seq<ApiKeyConfig>,
    models: Set<Seq<char>>,
    policies: Set<Seq<char>>,
) -> Seq<Option<Seq<char>>> {
    apikeys.map_values(|k: ApiKeyConfig| key_issue(k, models, policies))
}

/// Why a set of resources does not compile, or `None` when it does.
/// Duplicate identifiers are reported first (policies, providers, models,
/// keys, then key tokens), then broken references in the order providers,
/// models, keys.
pub open spec fn compile_failure(
    providers: Seq<ProviderConfig>,
    models: Seq<ModelConfig>,
    apikeys: Seq<ApiKeyConfig>,
    policies: Seq<PolicyConfig>,
) -> Option<Seq<char>> {
    let policy_ids = ids_of(policies).to_set();
    let provider_ids = ids_of(providers).to_set();
    let model_ids = ids_of(models).to_set();
    if first_dup(ids_of(policies)) is Some {
        Some("duplicate "@ + "policy"@ + " id: "@ + first_dup(ids_of(policies))->0)
    } else if first_dup(ids_of(providers)) is Some {
        Some("duplicate "@ + "provider"@ + " id: "@ + first_dup(ids_of(providers))->0)
    } else if first_dup(ids_of(models)) is Some {
        Some("duplicate "@ + "model"@ + " id: "@ + first_dup(ids_of(models))->0)
    } else if first_dup(ids_of(apikeys)) is Some {
        Some("duplicate "@ + "api key"@ + " id: "@ + first_dup(ids_of(apikeys))->0)
    } else if first_dup(tokens_of(apikeys)) is Some {
        Some("duplicate api key token"@)
    } else if first_issue(provider_issues(providers, policy_ids)) is Some {
        first_issue(provider_issues(providers, policy_ids))
    } else if first_issue(model_issues(models, provider_ids, policy_ids)) is Some {
        first_issue(model_issues(models, provider_ids, policy_ids))
    } else {
        first_issue(key_issues(apikeys, model_ids, policy_ids))
    }
}

/// An inline limit wins over the policy's.
pub open spec fn pick(inline: Option<u64>, policy: Option<u64>) -> Option<u64> {
    if inline is Some {
        inline
    } else {
        policy
    }
}

/// The limits of a resource: each inline limit that is set wins, and every
/// other limit comes from the policy, if there is one.
pub open spec fn merged_limits(
    inline: Option<RateLimitConfig>,
    policy: Option<RateLimitConfig>,
) -> ResolvedLimits {
    let base = match policy {
        Some(r) => ResolvedLimits { rpm: r.rpm, tpm: r.tpm, concurrency: r.concurrency },
        None => ResolvedLimits { rpm: None, tpm: None, concurrency: None },
    };
    match inline {
        Some(l) => ResolvedLimits {
            rpm: pick(l.rpm, base.rpm),
            tpm: pick(l.tpm, base.tpm),
            concurrency: pick(l.concurrency, base.concurrency),
        },
        None => base,
    }
}

/// The limits of the policy that `policy_id` names in `policies`.
pub open spec fn policy_limits(
    policy_id: Option<String>,
    policies: Map<Seq<char>, PolicyConfig>,
) -> Option<RateLimitConfig> {
    match policy_id {
        Some(p) => Some(policies[p@].rate_limit),
        None => None,
    }
}

/// The cache mode a resource declares; `Inherit` when it declares none.
pub open spec fn declared_cache_mode(cache: Option<CachePolicyConfig>) -> CacheMode {
    match cache {
        Some(c) => c.mode,
        None => CacheMode::Inherit,
    }
}

/// `m` indexes exactly the given resources by their identifiers.
pub open spec fn indexes<T: HasConfigId>(m: Map<Seq<char>, T>, items: Seq<T>) -> bool {
    &&& m.dom() == ids_of(items).to_set()
    &&& forall|i: int| 0 <= i < items.len() ==> m[#[trigger] items[i].spec_config_id()] == items[i]
}

proof fn lemma_first_dup_none_distinct(ids: Seq<Seq<char>>, seen: Set<Seq<char>>, i: int, j: int)
    requires
        first_dup_seen(ids, seen) is None,
        0 <= i < j < ids.len(),
    ensures
        ids[i] != ids[j],
        !seen.contains(ids[j]),
    decreases ids.len(),
{
    if i == 0 {
        lemma_first_dup_none_notin(ids.drop_first(), seen.insert(ids[0]), j - 1);
    } else {
        lemma_first_dup_none_distinct(ids.drop_first(), seen.insert(ids[0]), i - 1, j - 1);
    }
}

proof fn lemma_first_dup_none_notin(ids: Seq<Seq<char>>, seen: Set<Seq<char>>, j: int)
    requires
        first_dup_seen(ids, seen) is None,
        0 <= j < ids.len(),
    ensures
        !seen.contains(ids[j]),
    decreases ids.len(),
{
    if j > 0 {
        lemma_first_dup_none_notin(ids.drop_first(), seen.insert(ids[0]), j - 1);
    }
}

proof fn lemma_to_set_push(s: Seq<Seq<char>>, x: Seq<char>)
    ensures
        s.push(x).to_set() == s.to_set().insert(x),
{
    assert(s.push(x).to_set() =~= s.to_set().insert(x)) by {
        assert forall|y: Seq<char>| s.push(x).to_set().contains(y) implies s.to_set().insert(
            x,
        ).contains(y) by {
            let k = choose|k: int| 0 <= k < s.push(x).len() && s.push(x)[k] == y;
            if k < s.len() {
                assert(s[k] == y);
            }
        }
        assert forall|y: Seq<char>| s.to_set().insert(x).contains(y) implies s.push(
            x,
        ).to_set().contains(y) by {
            if y == x {
                assert(s.push(x)[s.len() as int] == y);
            } else {
                let k = choose|k: int| 0 <= k < s.len() && s[k] == y;
                assert(s.push(x)[k] == y);
            }
        }
    }
}

proof fn lemma_first_dup_step(ids: Seq<Seq<char>>, seen: Set<Seq<char>>, i: int)
    requires
        0 <= i < ids.len(),
        !seen.contains(ids[i]),
    ensures
        first_dup_seen(ids.subrange(i, ids.len() as int), seen) == first_dup_seen(
            ids.subrange(i + 1, ids.len() as int),
            seen.insert(ids[i]),
        ),
{
    let t = ids.subrange(i, ids.len() as int);
    assert(t.drop_first() =~= ids.subrange(i + 1, ids.len() as int));
}

/// Checks that no two resources share an identifier.
pub fn ensure_unique_ids<T: HasConfigId>(items: &[T], kind: &str) -> (res: Result<(), String>)
    ensures
        match res {
            Ok(()) => first_dup(ids_of(items@)) is None,
            Err(e) => first_dup(ids_of(items@)) is Some && e@ == "duplicate "@ + kind@ + " id: "@
                + first_dup(ids_of(items@))->0,
        },
{
    let ghost ids = ids_of(items@);
    let mut seen: StrMap<()> = StrMap::new();
    let mut i: usize = 0;
    proof {
        assert(ids.subrange(0, ids.len() as int) =~= ids);
        assert(seen@.dom() =~= Set::<Seq<char>>::empty());
    }
    while i < items.len()
        invariant
            ids == ids_of(items@),
            i <= items@.len(),
            seen.wf(),
            first_dup(ids) == first_dup_seen(ids.subrange(i as int, ids.len() as int), seen@.dom()),
        decreases items@.len() - i,
    {
        let id = items[i].config_id();
        let ghost old_dom = seen@.dom();
        let existed = seen.insert(id.to_owned(), ());
        if existed {
            proof {
                assert(ids.subrange(i as int, ids.len() as int)[0] == ids[i as int]);
            }
            let m1 = concat("duplicate ", kind);
            let m2 = concat(m1.as_str(), " id: ");
            return Err(concat(m2.as_str(), id));
        }
        proof {
            lemma_first_dup_step(ids, old_dom, i as int);
            assert(seen@.dom() =~= old_dom.insert(ids[i as int]));
        }
        i = i + 1;
    }
    Ok(())
}

/// Checks that no two API keys share a token.
pub fn ensure_unique_api_key_tokens(apikeys: &[ApiKeyConfig]) -> (res: Result<(), String>)
    ensures
        match res {
            Ok(()) => first_dup(tokens_of(apikeys@)) is None,
            Err(e) => first_dup(tokens_of(apikeys@)) is Some && e@ == "duplicate api key token"@,
        },
{
    let ghost ids = tokens_of(apikeys@);
    let mut seen: StrMap<()> = StrMap::new();
    let mut i: usize = 0;
    proof {
        assert(ids.subrange(0, ids.len() as int) =~= ids);
        assert(seen@.dom() =~= Set::<Seq<char>>::empty());
    }
    while i < apikeys.len()
        invariant
            ids == tokens_of(apikeys@),
            i <= apikeys@.len(),
            seen.wf(),
            first_dup(ids) == first_dup_seen(ids.subrange(i as int, ids.len() as int), seen@.dom()),
        decreases apikeys@.len() - i,
    {
        let ghost old_dom = seen@.dom();
        let existed = seen.insert(apikeys[i].key.clone(), ());
        if existed {
            proof {
                assert(ids.subrange(i as int, ids.len() as int)[0] == ids[i as int]);
            }
            return Err("duplicate api key token".to_string());
        }
        proof {
            lemma_first_dup_step(ids, old_dom, i as int);
            assert(seen@.dom() =~= old_dom.insert(ids[i as int]));
        }
        i = i + 1;
    }
    Ok(())
}

/// Indexes resources by identifier, failing on the first repeated one.
pub fn collect_unique_by_id<T: HasConfigId>(items: Vec<T>, kind: &str) -> (res: Result<
    StrMap<T>,
    String,
>)
    ensures
        match res {
            Ok(m) => first_dup(ids_of(items@)) is None && m.wf() && indexes(m@, items@),
            Err(e) => first_dup(ids_of(items@)) is Some && e@ == "duplicate "@ + kind@ + " id: "@
                + first_dup(ids_of(items@))->0,
        },
{
    let ghost all = items@;
    let ghost ids = ids_of(all);
    let mut rest = items;
    let mut collected: StrMap<T> = StrMap::new();
    let mut i: usize = 0;
    proof {
        assert(ids.subrange(0, ids.len() as int) =~= ids);
        assert(collected@.dom() =~= Set::<Seq<char>>::empty());
        assert(rest@ =~= all.subrange(0, all.len() as int));
        assert(all.len() == rest.len());
        assert(ids_of(all.subrange(0, 0)).to_set() =~= Set::<Seq<char>>::empty());
    }
    while rest.len() > 0
        invariant
            all == items@,
            ids == ids_of(all),
            i <= all.len(),
            all.len() <= usize::MAX,
            rest@ == all.subrange(i as int, all.len() as int),
            collected.wf(),
            collected@.dom() == ids_of(all.subrange(0, i as int)).to_set(),
            forall|j: int| 0 <= j < i ==> collected@[#[trigger] all[j].spec_config_id()] == all[j],
            forall|j: int, k: int| 0 <= j < k < i ==> ids[j] != ids[k],
            first_dup(ids) == first_dup_seen(
                ids.subrange(i as int, ids.len() as int),
                collected@.dom(),
            ),
        decreases rest@.len(),
    {
        proof {
            assert(rest@.len() == all.len() - i);
        }
        let item = rest.remove(0);
        proof {
            assert(item == all[i as int]);
        }
        let id = item.config_id().to_owned();
        let ghost old_dom = collected@.dom();
        let ghost old_map = collected@;
        if collected.contains_key(id.as_str()) {
            proof {
                assert(ids.subrange(i as int, ids.len() as int)[0] == ids[i as int]);
            }
            let m1 = concat("duplicate ", kind);
            let m2 = concat(m1.as_str(), " id: ");
            return Err(concat(m2.as_str(), id.as_str()));
        }
        collected.insert(id, item);
        proof {
            lemma_first_dup_step(ids, old_dom, i as int);
            assert(collected@.dom() =~= old_dom.insert(ids[i as int]));
            assert(ids_of(all.subrange(0, i + 1)) =~= ids_of(all.subrange(0, i as int)).push(
                ids[i as int],
            ));
            lemma_to_set_push(ids_of(all.subrange(0, i as int)), ids[i as int]);
            assert forall|j: int| 0 <= j < i implies ids[j] != ids[i as int] by {
                assert(ids_of(all.subrange(0, i as int))[j] == ids[j]);
                assert(old_dom.contains(ids[j]));
            }
            assert forall|j: int| 0 <= j < i + 1 implies collected@[#[trigger] all[j].spec_config_id()]
                == all[j] by {
                if j < i {
                    assert(ids[j] != ids[i as int]);
                    assert(old_map[all[j].spec_config_id()] == all[j]);
                }
            }
            assert(rest@ =~= all.subrange(i + 1, all.len() as int));
        }
        i = i + 1;
    }
    proof {
        assert(i == all.len());
        assert(all.subrange(0, i as int) =~= all);
        assert(ids.subrange(i as int, ids.len() as int) =~= Seq::<Seq<char>>::empty());
    }
    Ok(collected)
}

/// The reason a policy reference does not resolve, if it does not.
pub fn missing_policy_reason(policy_id: &Option<String>, policies_by_id: &StrMap<PolicyConfig>) -> (res:
    Option<String>)
    requires
        policies_by_id.wf(),
    ensures
        res matches Some(r) ==> policy_issue(*policy_id, policies_by_id@.dom()) == Some(r@),
        res is None ==> policy_issue(*policy_id, policies_by_id@.dom()) is None,
{
    if let Some(policy_id) = policy_id {
        if !policies_by_id.contains_key(policy_id.as_str()) {
            return Some(concat("missing policy reference: ", policy_id.as_str()));
        }
    }
    None
}

/// Merges inline limits over the limits of the referenced policy.
pub fn resolve_limits(
    inline_limits: &Option<RateLimitConfig>,
    policy_id: &Option<String>,
    policies_by_id: &StrMap<PolicyConfig>,
) -> (res: Result<ResolvedLimits, String>)
    requires
        policies_by_id.wf(),
    ensures
        match res {
            Ok(r) => policy_issue(*policy_id, policies_by_id@.dom()) is None && r == merged_limits(
                *inline_limits,
                policy_limits(*policy_id, policies_by_id@),
            ),
            Err(e) => policy_issue(*policy_id, policies_by_id@.dom()) == Some(e@),
        },
{
    let mut resolved = match policy_id {
        Some(policy_id) => {
            let policy = match policies_by_id.get(policy_id.as_str()) {
                Some(p) => p,
                None => {
                    return Err(concat("missing policy reference: ", policy_id.as_str()));
                },
            };
            ResolvedLimits::from_config(&policy.rate_limit)
        },
        None => ResolvedLimits { rpm: None, tpm: None, concurrency: None },
    };
    if let Some(inline_limits) = inline_limits {
        if inline_limits.rpm.is_some() {
            resolved.rpm = inline_limits.rpm;
        }
        if inline_limits.tpm.is_some() {
            resolved.tpm = inline_limits.tpm;
        }
        if inline_limits.concurrency.is_some() {
            resolved.concurrency = inline_limits.concurrency;
        }
    }
    Ok(resolved)
}

/// The cache mode a resource declares.
fn cache_mode_of(cache: &Option<CachePolicyConfig>) -> (m: CacheMode)
    ensures
        m == declared_cache_mode(*cache),
{
    match cache {
        Some(c) => c.mode,
        None => CacheMode::Inherit,
    }
}


/// `meta` is what a request learns of the key `k`.
pub open spec fn key_meta_of(meta: KeyMeta, k: ApiKeyConfig) -> bool {
    &&& meta.key_id@ == k.id@
    &&& meta.allowed_models@ == k.allowed_models@
    &&& meta.user_id is None
    &&& meta.customer_id is None
    &&& meta.alias is None
    &&& meta.expires_at is None
}

/// `snap` is the compilation of the given resources at `revision`: every
/// index holds exactly the given resources, each key token leads to its key,
/// and limits and cache modes are resolved against the policies.
pub open spec fn compiled_from(
    snap: CompiledSnapshot,
    providers: Seq<ProviderConfig>,
    models: Seq<ModelConfig>,
    apikeys: Seq<ApiKeyConfig>,
    policies: Seq<PolicyConfig>,
    revision: i64,
) -> bool {
    let pols = snap.policies_by_id@;
    &&& snap.wf()
    &&& snap.revision == revision
    &&& indexes(pols, policies)
    &&& indexes(snap.providers_by_id@, providers)
    &&& indexes(snap.models_by_name@, models)
    &&& indexes(snap.apikeys_by_id@, apikeys)
    &&& snap.keys_by_token@.dom() == tokens_of(apikeys).to_set()
    &&& forall|i: int|
        0 <= i < apikeys.len() ==> key_meta_of(
            snap.keys_by_token@[#[trigger] apikeys[i].key@],
            apikeys[i],
        )
    &&& snap.provider_limits@.dom() == ids_of(providers).to_set()
    &&& forall|i: int|
        0 <= i < providers.len() ==> snap.provider_limits@[#[trigger] providers[i].id@]
            == merged_limits(providers[i].rate_limit, policy_limits(providers[i].policy_id, pols))
    &&& snap.model_limits@.dom() == ids_of(models).to_set()
    &&& forall|i: int|
        0 <= i < models.len() ==> snap.model_limits@[#[trigger] models[i].id@] == merged_limits(
            models[i].rate_limit,
            policy_limits(models[i].policy_id, pols),
        )
    &&& snap.key_limits@.dom() == ids_of(apikeys).to_set()
    &&& forall|i: int|
        0 <= i < apikeys.len() ==> snap.key_limits@[#[trigger] apikeys[i].id@] == merged_limits(
            apikeys[i].rate_limit,
            policy_limits(apikeys[i].policy_id, pols),
        )
    &&& snap.provider_cache_modes@.dom() == ids_of(providers).to_set()
    &&& forall|i: int|
        0 <= i < providers.len() ==> snap.provider_cache_modes@[#[trigger] providers[i].id@]
            == declared_cache_mode(providers[i].cache)
    &&& snap.model_cache_modes@.dom() == ids_of(models).to_set()
    &&& forall|i: int|
        0 <= i < models.len() ==> snap.model_cache_modes@[#[trigger] models[i].id@]
            == declared_cache_mode(models[i].cache)
}

/// Whether a policy reference is absent or names a policy in `known`.
pub open spec fn policy_known(policy_id: Option<String>, known: Set<Seq<char>>) -> bool {
    match policy_id {
        Some(p) => known.contains(p@),
        None => true,
    }
}

/// With no problem reported, no check reports one.
proof fn lemma_no_issue_anywhere(s: Seq<Option<Seq<char>>>, i: int)
    requires
        first_issue(s) is None,
        0 <= i < s.len(),
    ensures
        s[i] is None,
    decreases i,
{
    if i > 0 {
        lemma_no_issue_anywhere(s.drop_first(), i - 1);
    }
}

/// With no name missing, every name is known.
proof fn lemma_none_missing(names: Seq<Seq<char>>, known: Set<Seq<char>>, j: int)
    requires
        first_missing(names, known) is None,
        0 <= j < names.len(),
    ensures
        known.contains(names[j]),
    decreases j,
{
    if j > 0 {
        lemma_none_missing(names.drop_first(), known, j - 1);
    }
}

/// An id in the index of resources is the id of one of them.
proof fn lemma_indexed<T: HasConfigId>(m: Map<Seq<char>, T>, items: Seq<T>, id: Seq<char>) -> (i: int)
    requires
        indexes(m, items),
        m.contains_key(id),
    ensures
        0 <= i < items.len(),
        items[i].spec_config_id() == id,
        m[id] == items[i],
{
    assert(ids_of(items).to_set().contains(id));
    let i = choose|i: int| 0 <= i < ids_of(items).len() && ids_of(items)[i] == id;
    i
}

/// A compiled snapshot refers only to what it holds: every model's provider
/// is configured; every token leads to the API key that holds it, and that
/// key's models are configured; every policy reference names a configured
/// policy; and the limits are indexed exactly by the resources they belong
/// to.
pub proof fn lemma_compiled_snapshot_is_closed(
    snap: CompiledSnapshot,
    providers: Seq<ProviderConfig>,
    models: Seq<ModelConfig>,
    apikeys: Seq<ApiKeyConfig>,
    policies: Seq<PolicyConfig>,
    revision: i64,
)
    requires
        compile_failure(providers, models, apikeys, policies) is None,
        compiled_from(snap, providers, models, apikeys, policies, revision),
    ensures
        forall|name: Seq<char>|
            #[trigger] snap.models_by_name@.contains_key(name) ==> snap.providers_by_id@.contains_key(
                snap.models_by_name@[name].provider_id@,
            ),
        forall|t: Seq<char>|
            #[trigger] snap.keys_by_token@.contains_key(t) ==> {
                let meta = snap.keys_by_token@[t];
                &&& snap.apikeys_by_id@.contains_key(meta.key_id@)
                &&& snap.apikeys_by_id@[meta.key_id@].key@ == t
                &&& forall|j: int|
                    0 <= j < meta.allowed_models@.len() ==> snap.models_by_name@.contains_key(
                        #[trigger] meta.allowed_models@[j]@,
                    )
            },
        forall|id: Seq<char>|
            #[trigger] snap.providers_by_id@.contains_key(id) ==> policy_known(
                snap.providers_by_id@[id].policy_id,
                snap.policies_by_id@.dom(),
            ),
        forall|name: Seq<char>|
            #[trigger] snap.models_by_name@.contains_key(name) ==> policy_known(
                snap.models_by_name@[name].policy_id,
                snap.policies_by_id@.dom(),
            ),
        forall|id: Seq<char>|
            #[trigger] snap.apikeys_by_id@.contains_key(id) ==> policy_known(
                snap.apikeys_by_id@[id].policy_id,
                snap.policies_by_id@.dom(),
            ),
        snap.provider_limits@.dom() == snap.providers_by_id@.dom(),
        snap.model_limits@.dom() == snap.models_by_name@.dom(),
        snap.key_limits@.dom() == snap.apikeys_by_id@.dom(),
{
    let policy_ids = ids_of(policies).to_set();
    let provider_ids = ids_of(providers).to_set();
    let model_ids = ids_of(models).to_set();
    assert(first_issue(provider_issues(providers, policy_ids)) is None);
    assert(first_issue(model_issues(models, provider_ids, policy_ids)) is None);
    assert(first_issue(key_issues(apikeys, model_ids, policy_ids)) is None);
    assert forall|name: Seq<char>| #[trigger] snap.models_by_name@.contains_key(name) implies {
        &&& snap.providers_by_id@.contains_key(snap.models_by_name@[name].provider_id@)
        &&& policy_known(snap.models_by_name@[name].policy_id, snap.policies_by_id@.dom())
    } by {
        let i = lemma_indexed(snap.models_by_name@, models, name);
        lemma_no_issue_anywhere(model_issues(models, provider_ids, policy_ids), i);
        assert(model_issues(models, provider_ids, policy_ids)[i] == model_issue(
            models[i],
            provider_ids,
            policy_ids,
        ));
    }
    assert forall|id: Seq<char>| #[trigger] snap.providers_by_id@.contains_key(id) implies policy_known(
        snap.providers_by_id@[id].policy_id,
        snap.policies_by_id@.dom(),
    ) by {
        let i = lemma_indexed(snap.providers_by_id@, providers, id);
        lemma_no_issue_anywhere(provider_issues(providers, policy_ids), i);
        assert(provider_issues(providers, policy_ids)[i] == provider_issue(providers[i], policy_ids));
    }
    assert forall|id: Seq<char>| #[trigger] snap.apikeys_by_id@.contains_key(id) implies {
        &&& policy_known(snap.apikeys_by_id@[id].policy_id, snap.policies_by_id@.dom())
        &&& forall|j: int|
            0 <= j < snap.apikeys_by_id@[id].allowed_models@.len() ==> snap.models_by_name@.contains_key(
                #[trigger] snap.apikeys_by_id@[id].allowed_models@[j]@,
            )
    } by {
        let i = lemma_indexed(snap.apikeys_by_id@, apikeys, id);
        let k = apikeys[i];
        lemma_no_issue_anywhere(key_issues(apikeys, model_ids, policy_ids), i);
        assert(key_issues(apikeys, model_ids, policy_ids)[i] == key_issue(k, model_ids, policy_ids));
        assert forall|j: int| 0 <= j < k.allowed_models@.len() implies snap.models_by_name@.contains_key(
            #[trigger] k.allowed_models@[j]@,
        ) by {
            lemma_none_missing(views_of(k.allowed_models@), model_ids, j);
        }
    }
    assert forall|t: Seq<char>| #[trigger] snap.keys_by_token@.contains_key(t) implies {
        let meta = snap.keys_by_token@[t];
        &&& snap.apikeys_by_id@.contains_key(meta.key_id@)
        &&& snap.apikeys_by_id@[meta.key_id@].key@ == t
        &&& forall|j: int|
            0 <= j < meta.allowed_models@.len() ==> snap.models_by_name@.contains_key(
                #[trigger] meta.allowed_models@[j]@,
            )
    } by {
        assert(tokens_of(apikeys).to_set().contains(t));
        let i = choose|i: int| 0 <= i < tokens_of(apikeys).len() && tokens_of(apikeys)[i] == t;
        assert(apikeys[i].key@ == t);
        let meta = snap.keys_by_token@[t];
        assert(key_meta_of(snap.keys_by_token@[apikeys[i].key@], apikeys[i]));
        assert(ids_of(apikeys)[i] == apikeys[i].id@);
        assert(snap.apikeys_by_id@.contains_key(apikeys[i].id@));
        assert(snap.apikeys_by_id@[apikeys[i].spec_config_id()] == apikeys[i]);
        let k = apikeys[i];
        assert forall|j: int| 0 <= j < meta.allowed_models@.len() implies snap.models_by_name@.contains_key(
            #[trigger] meta.allowed_models@[j]@,
        ) by {
            assert(meta.allowed_models@[j] == k.allowed_models@[j]);
            assert(snap.apikeys_by_id@[k.id@].allowed_models@[j] == k.allowed_models@[j]);
        }
    }
}

/// Before the first entry that reports a problem, nothing is reported.
pub(crate) proof fn lemma_first_issue_at(s: Seq<Option<Seq<char>>>, i: int)
    requires
        0 <= i < s.len(),
        forall|j: int| 0 <= j < i ==> s[j] is None,
    ensures
        first_issue(s) == (if s[i] is Some { s[i] } else { first_issue(s.subrange(i + 1, s.len() as int)) }),
    decreases i,
{
    if i > 0 {
        let t = s.drop_first();
        assert forall|j: int| 0 <= j < i - 1 implies t[j] is None by {
            assert(t[j] == s[j + 1]);
        }
        lemma_first_issue_at(t, i - 1);
        assert(t.subrange(i, t.len() as int) =~= s.subrange(i + 1, s.len() as int));
    } else {
        assert(s.drop_first() =~= s.subrange(1, s.len() as int));
    }
}

/// With no entry reporting a problem, there is none.
pub(crate) proof fn lemma_first_issue_none(s: Seq<Option<Seq<char>>>)
    requires
        forall|j: int| 0 <= j < s.len() ==> s[j] is None,
    ensures
        first_issue(s) is None,
    decreases s.len(),
{
    if s.len() > 0 {
        let t = s.drop_first();
        assert forall|j: int| 0 <= j < t.len() implies t[j] is None by {
            assert(t[j] == s[j + 1]);
        }
        lemma_first_issue_none(t);
    }
}

proof fn lemma_distinct_ids(ids: Seq<Seq<char>>)
    requires
        first_dup(ids) is None,
    ensures
        forall|a: int, b: int| 0 <= a < ids.len() && 0 <= b < ids.len() && a != b ==> ids[a] != ids[b],
{
    assert forall|a: int, b: int| 0 <= a < ids.len() && 0 <= b < ids.len() && a != b implies ids[a]
        != ids[b] by {
        if a < b {
            lemma_first_dup_none_distinct(ids, Set::empty(), a, b);
        } else {
            lemma_first_dup_none_distinct(ids, Set::empty(), b, a);
        }
    }
}

proof fn lemma_prefix_set_step(ids: Seq<Seq<char>>, i: int)
    requires
        0 <= i < ids.len(),
    ensures
        ids.subrange(0, i + 1).to_set() == ids.subrange(0, i).to_set().insert(ids[i]),
{
    assert(ids.subrange(0, i + 1) =~= ids.subrange(0, i).push(ids[i]));
    lemma_to_set_push(ids.subrange(0, i), ids[i]);
}

/// The first of `names` that `known` lacks.
fn find_missing_model(names: &Vec<String>, known: &StrMap<ModelConfig>) -> (res: Option<String>)
    requires
        known.wf(),
    ensures
        match res {
            Some(n) => first_missing(views_of(names@), known@.dom()) == Some(n@),
            None => first_missing(views_of(names@), known@.dom()) is None,
        },
{
    let ghost v = views_of(names@);
    let mut i: usize = 0;
    proof {
        assert(v.subrange(0, v.len() as int) =~= v);
    }
    while i < names.len()
        invariant
            v == views_of(names@),
            i <= names@.len(),
            known.wf(),
            first_missing(v, known@.dom()) == first_missing(
                v.subrange(i as int, v.len() as int),
                known@.dom(),
            ),
        decreases names@.len() - i,
    {
        let ghost t = v.subrange(i as int, v.len() as int);
        if !known.contains_key(names[i].as_str()) {
            proof {
                assert(t[0] == v[i as int]);
            }
            return Some(names[i].clone());
        }
        proof {
            assert(t.drop_first() =~= v.subrange(i + 1, v.len() as int));
        }
        i = i + 1;
    }
    None
}

/// Compiles providers, models, API keys and policies into a snapshot.
///
/// Fails with the first duplicate identifier (policies, providers, models,
/// keys), then a repeated key token, then the first reference that does not
/// resolve (providers, models, keys, each in order).
#[verifier::rlimit(60)]
pub fn compile_snapshot(
    providers: Vec<ProviderConfig>,
    models: Vec<ModelConfig>,
    apikeys: Vec<ApiKeyConfig>,
    policies: Vec<PolicyConfig>,
    revision: i64,
) -> (res: Result<CompiledSnapshot, String>)
    ensures
        match res {
            Ok(snap) => compile_failure(providers@, models@, apikeys@, policies@) is None
                && compiled_from(snap, providers@, models@, apikeys@, policies@, revision),
            Err(e) => compile_failure(providers@, models@, apikeys@, policies@) == Some(e@),
        },
{
    let ghost ps = providers@;
    let ghost ms = models@;
    let ghost ks = apikeys@;
    let ghost pols = policies@;
    let policies_by_id = match collect_unique_by_id(policies, "policy") {
        Ok(m) => m,
        Err(e) => {
            return Err(e);
        },
    };
    if let Err(e) = ensure_unique_ids(providers.as_slice(), "provider") {
        return Err(e);
    }
    if let Err(e) = ensure_unique_ids(models.as_slice(), "model") {
        return Err(e);
    }
    if let Err(e) = ensure_unique_ids(apikeys.as_slice(), "api key") {
        return Err(e);
    }
    if let Err(e) = ensure_unique_api_key_tokens(apikeys.as_slice()) {
        return Err(e);
    }
    let ghost pol_dom = policies_by_id@.dom();
    let ghost pol_map = policies_by_id@;
    proof {
        lemma_distinct_ids(ids_of(ps));
        lemma_distinct_ids(ids_of(ms));
        lemma_distinct_ids(ids_of(ks));
        lemma_distinct_ids(tokens_of(ks));
        assert(pol_dom == ids_of(pols).to_set());
    }
    let ghost prov_issues = provider_issues(ps, pol_dom);

    // Providers.
    let mut providers_by_id: StrMap<ProviderConfig> = StrMap::new();
    let mut provider_limits: StrMap<ResolvedLimits> = StrMap::new();
    let mut provider_cache_modes: StrMap<CacheMode> = StrMap::new();
    let mut rest = providers;
    let mut i: usize = 0;
    proof {
        assert(rest@ =~= ps.subrange(0, ps.len() as int));
        assert(ps.len() == rest.len());
        assert(ids_of(ps).subrange(0, 0).to_set() =~= Set::<Seq<char>>::empty());
        assert(providers_by_id@.dom() =~= Set::<Seq<char>>::empty());
        assert(provider_limits@.dom() =~= Set::<Seq<char>>::empty());
        assert(provider_cache_modes@.dom() =~= Set::<Seq<char>>::empty());
    }
    while rest.len() > 0
        invariant
            ps == providers@,
            ms == models@,
            ks == apikeys@,
            pols == policies@,
            policies_by_id.wf(),
            policies_by_id@ == pol_map,
            pol_dom == pol_map.dom(),
            prov_issues == provider_issues(ps, pol_dom),
            pol_dom == ids_of(pols).to_set(),
            first_dup(ids_of(pols)) is None,
            first_dup(ids_of(ps)) is None,
            first_dup(ids_of(ms)) is None,
            first_dup(ids_of(ks)) is None,
            first_dup(tokens_of(ks)) is None,
            i <= ps.len(),
            ps.len() <= usize::MAX,
            rest@ == ps.subrange(i as int, ps.len() as int),
            forall|a: int, b: int|
                0 <= a < ps.len() && 0 <= b < ps.len() && a != b ==> ids_of(ps)[a] != ids_of(
                    ps,
                )[b],
            forall|j: int| 0 <= j < i ==> #[trigger] prov_issues[j] is None,
            providers_by_id.wf(),
            provider_limits.wf(),
            provider_cache_modes.wf(),
            providers_by_id@.dom() == ids_of(ps).subrange(0, i as int).to_set(),
            provider_limits@.dom() == ids_of(ps).subrange(0, i as int).to_set(),
            provider_cache_modes@.dom() == ids_of(ps).subrange(0, i as int).to_set(),
            forall|j: int| 0 <= j < i ==> providers_by_id@[#[trigger] ps[j].id@] == ps[j],
            forall|j: int|
                0 <= j < i ==> provider_limits@[#[trigger] ps[j].id@] == merged_limits(
                    ps[j].rate_limit,
                    policy_limits(ps[j].policy_id, pol_map),
                ),
            forall|j: int|
                0 <= j < i ==> provider_cache_modes@[#[trigger] ps[j].id@] == declared_cache_mode(
                    ps[j].cache,
                ),
        decreases rest@.len(),
    {
        proof {
            assert(rest@.len() == ps.len() - i);
        }
        let provider = rest.remove(0);
        proof {
            assert(provider == ps[i as int]);
            assert(ids_of(ps)[i as int] == provider.id@);
        }
        if let Some(reason) = missing_policy_reason(&provider.policy_id, &policies_by_id) {
            proof {
                lemma_first_issue_at(prov_issues, i as int);
            }
            return Err(reason);
        }
        let limits = match resolve_limits(&provider.rate_limit, &provider.policy_id, &policies_by_id) {
            Ok(l) => l,
            Err(e) => {
                return Err(e);
            },
        };
        let mode = cache_mode_of(&provider.cache);
        let ghost m0 = providers_by_id@;
        let ghost l0 = provider_limits@;
        let ghost c0 = provider_cache_modes@;
        provider_cache_modes.insert(provider.id.clone(), mode);
        provider_limits.insert(provider.id.clone(), limits);
        let id = provider.id.clone();
        providers_by_id.insert(id, provider);
        proof {
            lemma_prefix_set_step(ids_of(ps), i as int);
            assert forall|j: int| 0 <= j < i implies ps[j].id@ != ps[i as int].id@ by {
                assert(ids_of(ps)[j] == ps[j].id@);
            }
            assert(providers_by_id@.dom() =~= m0.dom().insert(ps[i as int].id@));
            assert(provider_limits@.dom() =~= l0.dom().insert(ps[i as int].id@));
            assert(provider_cache_modes@.dom() =~= c0.dom().insert(ps[i as int].id@));
            assert(rest@ =~= ps.subrange(i + 1, ps.len() as int));
        }
        i = i + 1;
    }
    proof {
        assert(ids_of(ps).subrange(0, i as int) =~= ids_of(ps));
        lemma_first_issue_none(prov_issues);
    }

    let ghost prov_dom = providers_by_id@.dom();
    assert(prov_dom == ids_of(ps).to_set());
    let ghost model_issue_seq = model_issues(ms, prov_dom, pol_dom);

    // Models.
    let mut models_by_name: StrMap<ModelConfig> = StrMap::new();
    let mut model_limits: StrMap<ResolvedLimits> = StrMap::new();
    let mut model_cache_modes: StrMap<CacheMode> = StrMap::new();
    let mut rest = models;
    let mut i: usize = 0;
    proof {
        assert(rest@ =~= ms.subrange(0, ms.len() as int));
        assert(ms.len() == rest.len());
        assert(ids_of(ms).subrange(0, 0).to_set() =~= Set::<Seq<char>>::empty());
        assert(models_by_name@.dom() =~= Set::<Seq<char>>::empty());
        assert(model_limits@.dom() =~= Set::<Seq<char>>::empty());
        assert(model_cache_modes@.dom() =~= Set::<Seq<char>>::empty());
    }
    while rest.len() > 0
        invariant
            ps == providers@,
            ms == models@,
            ks == apikeys@,
            pols == policies@,
            policies_by_id.wf(),
            policies_by_id@ == pol_map,
            pol_dom == pol_map.dom(),
            providers_by_id.wf(),
            providers_by_id@.dom() == prov_dom,
            model_issue_seq == model_issues(ms, prov_dom, pol_dom),
            pol_dom == ids_of(pols).to_set(),
            prov_dom == ids_of(ps).to_set(),
            first_issue(prov_issues) is None,
            prov_issues == provider_issues(ps, pol_dom),
            first_dup(ids_of(pols)) is None,
            first_dup(ids_of(ps)) is None,
            first_dup(ids_of(ms)) is None,
            first_dup(ids_of(ks)) is None,
            first_dup(tokens_of(ks)) is None,
            i <= ms.len(),
            ms.len() <= usize::MAX,
            rest@ == ms.subrange(i as int, ms.len() as int),
            forall|a: int, b: int|
                0 <= a < ms.len() && 0 <= b < ms.len() && a != b ==> ids_of(ms)[a] != ids_of(
                    ms,
                )[b],
            forall|j: int| 0 <= j < i ==> #[trigger] model_issue_seq[j] is None,
            models_by_name.wf(),
            model_limits.wf(),
            model_cache_modes.wf(),
            models_by_name@.dom() == ids_of(ms).subrange(0, i as int).to_set(),
            model_limits@.dom() == ids_of(ms).subrange(0, i as int).to_set(),
            model_cache_modes@.dom() == ids_of(ms).subrange(0, i as int).to_set(),
            forall|j: int| 0 <= j < i ==> models_by_name@[#[trigger] ms[j].id@] == ms[j],
            forall|j: int|
                0 <= j < i ==> model_limits@[#[trigger] ms[j].id@] == merged_limits(
                    ms[j].rate_limit,
                    policy_limits(ms[j].policy_id, pol_map),
                ),
            forall|j: int|
                0 <= j < i ==> model_cache_modes@[#[trigger] ms[j].id@] == declared_cache_mode(
                    ms[j].cache,
                ),
        decreases rest@.len(),
    {
        proof {
            assert(rest@.len() == ms.len() - i);
        }
        let model = rest.remove(0);
        proof {
            assert(model == ms[i as int]);
            assert(ids_of(ms)[i as int] == model.id@);
        }
        if !providers_by_id.contains_key(model.provider_id.as_str()) {
            proof {
                lemma_first_issue_at(model_issue_seq, i as int);
                assert(model_issue_seq[i as int] == model_issue(ms[i as int], prov_dom, pol_dom));
            }
            return Err(concat("missing provider reference: ", model.provider_id.as_str()));
        }
        if let Some(reason) = missing_policy_reason(&model.policy_id, &policies_by_id) {
            proof {
                lemma_first_issue_at(model_issue_seq, i as int);
            }
            return Err(reason);
        }
        let limits = match resolve_limits(&model.rate_limit, &model.policy_id, &policies_by_id) {
            Ok(l) => l,
            Err(e) => {
                return Err(e);
            },
        };
        let mode = cache_mode_of(&model.cache);
        let ghost m0 = models_by_name@;
        let ghost l0 = model_limits@;
        let ghost c0 = model_cache_modes@;
        model_cache_modes.insert(model.id.clone(), mode);
        model_limits.insert(model.id.clone(), limits);
        let id = model.id.clone();
        models_by_name.insert(id, model);
        proof {
            lemma_prefix_set_step(ids_of(ms), i as int);
            assert forall|j: int| 0 <= j < i implies ms[j].id@ != ms[i as int].id@ by {
                assert(ids_of(ms)[j] == ms[j].id@);
            }
            assert(models_by_name@.dom() =~= m0.dom().insert(ms[i as int].id@));
            assert(model_limits@.dom() =~= l0.dom().insert(ms[i as int].id@));
            assert(model_cache_modes@.dom() =~= c0.dom().insert(ms[i as int].id@));
            assert(rest@ =~= ms.subrange(i + 1, ms.len() as int));
        }
        i = i + 1;
    }
    proof {
        assert(ids_of(ms).subrange(0, i as int) =~= ids_of(ms));
        lemma_first_issue_none(model_issue_seq);
    }

    let ghost model_dom = models_by_name@.dom();
    assert(model_dom == ids_of(ms).to_set());
    let ghost key_issue_seq = key_issues(ks, model_dom, pol_dom);

    // API keys.
    let mut apikeys_by_id: StrMap<ApiKeyConfig> = StrMap::new();
    let mut keys_by_token: StrMap<KeyMeta> = StrMap::new();
    let mut key_limits: StrMap<ResolvedLimits> = StrMap::new();
    let mut rest = apikeys;
    let mut i: usize = 0;
    proof {
        assert(rest@ =~= ks.subrange(0, ks.len() as int));
        assert(ks.len() == rest.len());
        assert(ids_of(ks).subrange(0, 0).to_set() =~= Set::<Seq<char>>::empty());
        assert(tokens_of(ks).subrange(0, 0).to_set() =~= Set::<Seq<char>>::empty());
        assert(apikeys_by_id@.dom() =~= Set::<Seq<char>>::empty());
        assert(keys_by_token@.dom() =~= Set::<Seq<char>>::empty());
        assert(key_limits@.dom() =~= Set::<Seq<char>>::empty());
    }
    while rest.len() > 0
        invariant
            ps == providers@,
            ms == models@,
            ks == apikeys@,
            pols == policies@,
            policies_by_id.wf(),
            policies_by_id@ == pol_map,
            pol_dom == pol_map.dom(),
            models_by_name.wf(),
            models_by_name@.dom() == model_dom,
            key_issue_seq == key_issues(ks, model_dom, pol_dom),
            pol_dom == ids_of(pols).to_set(),
            prov_dom == ids_of(ps).to_set(),
            model_dom == ids_of(ms).to_set(),
            first_issue(prov_issues) is None,
            prov_issues == provider_issues(ps, pol_dom),
            first_issue(model_issue_seq) is None,
            model_issue_seq == model_issues(ms, prov_dom, pol_dom),
            first_dup(ids_of(pols)) is None,
            first_dup(ids_of(ps)) is None,
            first_dup(ids_of(ms)) is None,
            first_dup(ids_of(ks)) is None,
            first_dup(tokens_of(ks)) is None,
            i <= ks.len(),
            ks.len() <= usize::MAX,
            rest@ == ks.subrange(i as int, ks.len() as int),
            forall|a: int, b: int|
                0 <= a < ks.len() && 0 <= b < ks.len() && a != b ==> ids_of(ks)[a] != ids_of(
                    ks,
                )[b],
            forall|a: int, b: int|
                0 <= a < ks.len() && 0 <= b < ks.len() && a != b ==> tokens_of(ks)[a]
                    != tokens_of(ks)[b],
            forall|j: int| 0 <= j < i ==> #[trigger] key_issue_seq[j] is None,
            apikeys_by_id.wf(),
            keys_by_token.wf(),
            key_limits.wf(),
            apikeys_by_id@.dom() == ids_of(ks).subrange(0, i as int).to_set(),
            key_limits@.dom() == ids_of(ks).subrange(0, i as int).to_set(),
            keys_by_token@.dom() == tokens_of(ks).subrange(0, i as int).to_set(),
            forall|j: int| 0 <= j < i ==> apikeys_by_id@[#[trigger] ks[j].id@] == ks[j],
            forall|j: int| 0 <= j < i ==> key_meta_of(keys_by_token@[#[trigger] ks[j].key@], ks[j]),
            forall|j: int|
                0 <= j < i ==> key_limits@[#[trigger] ks[j].id@] == merged_limits(
                    ks[j].rate_limit,
                    policy_limits(ks[j].policy_id, pol_map),
                ),
        decreases rest@.len(),
    {
        proof {
            assert(rest@.len() == ks.len() - i);
        }
        let api_key = rest.remove(0);
        proof {
            assert(api_key == ks[i as int]);
            assert(ids_of(ks)[i as int] == api_key.id@);
            assert(tokens_of(ks)[i as int] == api_key.key@);
        }
        if let Some(model_name) = find_missing_model(&api_key.allowed_models, &models_by_name) {
            proof {
                lemma_first_issue_at(key_issue_seq, i as int);
            }
            return Err(concat("missing model reference: ", model_name.as_str()));
        }
        if let Some(reason) = missing_policy_reason(&api_key.policy_id, &policies_by_id) {
            proof {
                lemma_first_issue_at(key_issue_seq, i as int);
            }
            return Err(reason);
        }
        let limits = match resolve_limits(&api_key.rate_limit, &api_key.policy_id, &policies_by_id) {
            Ok(l) => l,
            Err(e) => {
                return Err(e);
            },
        };
        let meta = KeyMeta {
            key_id: api_key.id.clone(),
            user_id: None,
            customer_id: None,
            alias: None,
            expires_at: None,
            allowed_models: clone_strings(&api_key.allowed_models),
        };
        let ghost a0 = apikeys_by_id@;
        let ghost t0 = keys_by_token@;
        let ghost l0 = key_limits@;
        key_limits.insert(api_key.id.clone(), limits);
        keys_by_token.insert(api_key.key.clone(), meta);
        let id = api_key.id.clone();
        apikeys_by_id.insert(id, api_key);
        proof {
            lemma_prefix_set_step(ids_of(ks), i as int);
            lemma_prefix_set_step(tokens_of(ks), i as int);
            assert forall|j: int| 0 <= j < i implies ks[j].id@ != ks[i as int].id@ by {
                assert(ids_of(ks)[j] == ks[j].id@);
            }
            assert forall|j: int| 0 <= j < i implies ks[j].key@ != ks[i as int].key@ by {
                assert(tokens_of(ks)[j] == ks[j].key@);
            }
            assert(apikeys_by_id@.dom() =~= a0.dom().insert(ks[i as int].id@));
            assert(key_limits@.dom() =~= l0.dom().insert(ks[i as int].id@));
            assert(keys_by_token@.dom() =~= t0.dom().insert(ks[i as int].key@));
            assert(rest@ =~= ks.subrange(i + 1, ks.len() as int));
        }
        i = i + 1;
    }
    proof {
        assert(ids_of(ks).subrange(0, i as int) =~= ids_of(ks));
        assert(tokens_of(ks).subrange(0, i as int) =~= tokens_of(ks));
        lemma_first_issue_none(key_issue_seq);
        assert forall|j: int| 0 <= j < ps.len() implies providers_by_id@[#[trigger] ps[j].spec_config_id()] == ps[j] by {}
        assert forall|j: int| 0 <= j < ms.len() implies models_by_name@[#[trigger] ms[j].spec_config_id()] == ms[j] by {}
        assert forall|j: int| 0 <= j < ks.len() implies apikeys_by_id@[#[trigger] ks[j].spec_config_id()] == ks[j] by {}
    }

    Ok(CompiledSnapshot {
        revision,
        keys_by_token,
        apikeys_by_id,
        providers_by_id,
        models_by_name,
        policies_by_id,
        provider_limits,
        model_limits,
        key_limits,
        provider_cache_modes,
        model_cache_modes,
    })
}

} // verus!
