//! The resources that the control plane stores: policies, providers,
//! models and API keys.
use vstd::prelude::*;

verus! {

/// Optional request, token and concurrency limits.
#[derive(Debug, Clone, Copy, PartialEq, Eq, Structural)]
pub struct RateLimitConfig {
    pub rpm: Option<u64>,
    pub tpm: Option<u64>,
    pub concurrency: Option<u64>,
}

/// A named set of limits that other resources refer to.
#[derive(Debug, Clone, PartialEq, Eq)]
pub struct PolicyConfig {
    pub id: String,
    pub rate_limit: RateLimitConfig,
}

/// A virtual API key: its token, the models it may use, and its limits.
#[derive(Debug, Clone, PartialEq, Eq)]
pub struct ApiKeyConfig {
    pub id: String,
    pub key: String,
    pub allowed_models: Vec<String>,
    pub policy_id: Option<String>,
    pub rate_limit: Option<RateLimitConfig>,
}

/// Whether responses may be cached.
#[derive(Debug, Clone, Copy, PartialEq, Eq, Structural)]
pub enum CacheMode {
    Inherit,
    Enabled,
    Disabled,
}

/// The cache setting of a provider or model.
#[derive(Debug, Clone, Copy, PartialEq, Eq, Structural)]
pub struct CachePolicyConfig {
    pub mode: CacheMode,
}

/// A model name that clients use, and where it is served.
#[derive(Debug, Clone, PartialEq, Eq)]
pub struct ModelConfig {
    pub id: String,
    pub provider_id: String,
    pub upstream_model: String,
    pub policy_id: Option<String>,
    pub rate_limit: Option<RateLimitConfig>,
    pub cache: Option<CachePolicyConfig>,
}

/// An upstream provider.
#[derive(Debug, Clone, PartialEq, Eq)]
pub struct ProviderConfig {
    pub id: String,
    pub kind: ProviderKind,
    pub base_url: String,
    pub auth: ProviderAuth,
    pub policy_id: Option<String>,
    pub rate_limit: Option<RateLimitConfig>,
    pub cache: Option<CachePolicyConfig>,
}

/// Where the provider's secret is found.
#[derive(Debug, Clone, PartialEq, Eq)]
pub struct ProviderAuth {
    pub secret_ref: String,
}

/// The protocol a provider speaks.
#[derive(Debug, Clone, Copy, PartialEq, Eq, Structural)]
pub enum ProviderKind {
    OpenAi,
    AzureOpenAi,
    Anthropic,
}

/// A resource with an identifier.
pub trait HasConfigId {
    /// The identifier, as characters.
    spec fn spec_config_id(&self) -> Seq<char>;

    /// The identifier.
    fn config_id(&self) -> (id: &str)
        ensures
            id@ == self.spec_config_id(),
    ;
}

impl HasConfigId for PolicyConfig {
    open spec fn spec_config_id(&self) -> Seq<char> {
        self.id@
    }

    fn config_id(&self) -> (id: &str) {
        self.id.as_str()
    }
}

impl HasConfigId for ProviderConfig {
    open spec fn spec_config_id(&self) -> Seq<char> {
        self.id@
    }

    fn config_id(&self) -> (id: &str) {
        self.id.as_str()
    }
}

impl HasConfigId for ModelConfig {
    open spec fn spec_config_id(&self) -> Seq<char> {
        self.id@
    }

    fn config_id(&self) -> (id: &str) {
        self.id.as_str()
    }
}

impl HasConfigId for ApiKeyConfig {
    open spec fn spec_config_id(&self) -> Seq<char> {
        self.id@
    }

    fn config_id(&self) -> (id: &str) {
        self.id.as_str()
    }
}

/// A copy of an optional string.
pub fn clone_opt_string(s: &Option<String>) -> (r: Option<String>)
    ensures
        r == *s,
{
    match s {
        Some(v) => Some(v.clone()),
        None => None,
    }
}

/// A copy of a vector of strings.
pub fn clone_strings(v: &Vec<String>) -> (r: Vec<String>)
    ensures
        r@ == v@,
{
    let mut r: Vec<String> = Vec::new();
    let mut i: usize = 0;
    while i < v.len()
        invariant
            i <= v@.len(),
            r@ == v@.subrange(0, i as int),
        decreases v@.len() - i,
    {
        r.push(v[i].clone());
        i = i + 1;
        proof {
            assert(r@ =~= v@.subrange(0, i as int));
        }
    }
    proof {
        assert(v@.subrange(0, v@.len() as int) =~= v@);
    }
    r
}

} // verus!
