//! The compiled, read-only view of the configuration that requests use.
use vstd::prelude::*;

use crate::config::{ApiKeyConfig, CacheMode, ModelConfig, PolicyConfig, ProviderConfig, RateLimitConfig};
use crate::strmap::StrMap;
use crate::types::KeyMeta;

verus! {

/// Limits after inline values and policy values have been merged.
#[derive(Debug, Clone, Copy, PartialEq, Eq, Structural)]
pub struct ResolvedLimits {
    pub rpm: Option<u64>,
    pub tpm: Option<u64>,
    pub concurrency: Option<u64>,
}

impl ResolvedLimits {
    /// The limits of a policy, taken as they stand.
    pub fn from_config(value: &RateLimitConfig) -> (r: ResolvedLimits)
        ensures
            r.rpm == value.rpm,
            r.tpm == value.tpm,
            r.concurrency == value.concurrency,
    {
        ResolvedLimits { rpm: value.rpm, tpm: value.tpm, concurrency: value.concurrency }
    }
}

/// Everything a request needs to know, indexed for lookup.
#[derive(Debug)]
pub struct CompiledSnapshot {
    pub revision: i64,
    pub keys_by_token: StrMap<KeyMeta>,
    pub apikeys_by_id: StrMap<ApiKeyConfig>,
    pub providers_by_id: StrMap<ProviderConfig>,
    pub models_by_name: StrMap<ModelConfig>,
    pub policies_by_id: StrMap<PolicyConfig>,
    pub provider_limits: StrMap<ResolvedLimits>,
    pub model_limits: StrMap<ResolvedLimits>,
    pub key_limits: StrMap<ResolvedLimits>,
    pub provider_cache_modes: StrMap<CacheMode>,
    pub model_cache_modes: StrMap<CacheMode>,
}

impl CompiledSnapshot {
    /// Every index of the snapshot is well formed.
    pub open spec fn wf(&self) -> bool {
        &&& self.keys_by_token.wf()
        &&& self.apikeys_by_id.wf()
        &&& self.providers_by_id.wf()
        &&& self.models_by_name.wf()
        &&& self.policies_by_id.wf()
        &&& self.provider_limits.wf()
        &&& self.model_limits.wf()
        &&& self.key_limits.wf()
        &&& self.provider_cache_modes.wf()
        &&& self.model_cache_modes.wf()
    }

    /// A snapshot that holds nothing.
    pub fn empty(revision: i64) -> (s: CompiledSnapshot)
        ensures
            s.wf(),
            s.revision == revision,
            s.keys_by_token@ == Map::<Seq<char>, KeyMeta>::empty(),
            s.apikeys_by_id@ == Map::<Seq<char>, ApiKeyConfig>::empty(),
            s.providers_by_id@ == Map::<Seq<char>, ProviderConfig>::empty(),
            s.models_by_name@ == Map::<Seq<char>, ModelConfig>::empty(),
            s.policies_by_id@ == Map::<Seq<char>, PolicyConfig>::empty(),
            s.provider_limits@ == Map::<Seq<char>, ResolvedLimits>::empty(),
            s.model_limits@ == Map::<Seq<char>, ResolvedLimits>::empty(),
            s.key_limits@ == Map::<Seq<char>, ResolvedLimits>::empty(),
            s.provider_cache_modes@ == Map::<Seq<char>, CacheMode>::empty(),
            s.model_cache_modes@ == Map::<Seq<char>, CacheMode>::empty(),
    {
        CompiledSnapshot {
            revision,
            keys_by_token: StrMap::new(),
            apikeys_by_id: StrMap::new(),
            providers_by_id: StrMap::new(),
            models_by_name: StrMap::new(),
            policies_by_id: StrMap::new(),
            provider_limits: StrMap::new(),
            model_limits: StrMap::new(),
            key_limits: StrMap::new(),
            provider_cache_modes: StrMap::new(),
            model_cache_modes: StrMap::new(),
        }
    }
}

} // verus!
