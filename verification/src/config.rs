//! The configuration: providers, the model catalogue, task rules, budgets, and their consistency.
use vstd::prelude::*;
use vstd::string::*;
use crate::classifier::TaskType;
use crate::float::Real;
use crate::table::Table;
use crate::{float, providers, text};

verus! {

#[derive(Debug)]
pub struct Config {
    pub server: ServerConfig,
    pub auth: AuthConfig,
    pub budgets: BudgetConfig,
    pub privacy: PrivacyConfig,
    pub providers: Table<ProviderConfig>,
    /// The catalogue of all models.
    pub models: Vec<ModelEntry>,
    /// The rule of each task type.
    pub classification: Table<TaskRule>,
    /// Logical names of models in the catalogue (`model` or `provider/model`).
    pub aliases: Table<String>,
    /// Rules for single projects.
    pub projects: Table<ProjectProfile>,
    pub retry: RetryConfig,
    pub routing: RoutingConfig,
    pub cache: CacheConfig,
    pub classifier: ClassifierConfig,
}

#[derive(Debug)]
pub struct ClassifierConfig {
    /// How many of the latest user messages the classifier reads.
    pub user_messages: usize,
    /// A model to ask for the task type.
    pub llm: Option<LlmClassifierConfig>,
}

#[derive(Debug)]
pub struct LlmClassifierConfig {
    pub enabled: bool,
    pub base_url: String,
    pub model: String,
    pub api_key_env: Option<String>,
    pub timeout_ms: u64,
}

impl Default for ClassifierConfig {
    fn default() -> (r: ClassifierConfig)
        ensures
            r.user_messages == 1,
            r.llm is None,
    {
        ClassifierConfig { user_messages: 1, llm: None }
    }
}

/// What routing prefers among the models that pass every hard filter.
#[derive(Debug, Clone, Copy, PartialEq, Eq, Structural)]
pub enum Profile {
    /// The lowest expected latency, then the lowest cost.
    Interactive,
    /// The lowest cost.
    Balanced,
    /// The lowest cost.
    Batch,
}

impl Default for Profile {
    fn default() -> (r: Profile)
        ensures
            r == Profile::Balanced,
    {
        Profile::Balanced
    }
}

impl Profile {
    /// The profile with a name in lower case.
    pub open spec fn named(s: Seq<char>) -> Option<Profile> {
        if s == "interactive"@ {
            Some(Profile::Interactive)
        } else if s == "balanced"@ {
            Some(Profile::Balanced)
        } else if s == "batch"@ {
            Some(Profile::Batch)
        } else {
            None
        }
    }

    /// The profile with a name, in any case of its ASCII letters.
    pub fn parse(s: &str) -> (r: Option<Profile>)
        ensures
            r == Profile::named(text::ascii_lower(s@)),
    {
        let lowered = text::to_ascii_lowercase(s);
        if text::same(lowered.as_str(), "interactive") {
            Some(Profile::Interactive)
        } else if text::same(lowered.as_str(), "balanced") {
            Some(Profile::Balanced)
        } else if text::same(lowered.as_str(), "batch") {
            Some(Profile::Batch)
        } else {
            None
        }
    }
}

#[derive(Debug)]
pub struct RoutingConfig {
    /// The profile of a request that names none.
    pub default_profile: Profile,
}

impl Default for RoutingConfig {
    fn default() -> (r: RoutingConfig)
        ensures
            r.default_profile == Profile::Balanced,
    {
        RoutingConfig { default_profile: Profile::Balanced }
    }
}

#[derive(Debug, Clone, Copy)]
pub struct RetryConfig {
    /// Repetitions per key after a transient failure.
    pub max_retries: u32,
    pub backoff_initial_ms: u64,
    pub backoff_max_ms: u64,
}

impl Default for RetryConfig {
    fn default() -> (r: RetryConfig)
        ensures
            r.max_retries == 2,
            r.backoff_initial_ms == 500,
            r.backoff_max_ms == 8000,
    {
        RetryConfig { max_retries: 2, backoff_initial_ms: 500, backoff_max_ms: 8000 }
    }
}

#[derive(Debug)]
pub struct CacheConfig {
    pub enabled: bool,
    pub ttl_seconds: u64,
    /// Conversations with more messages are not cached.
    pub max_conversation_messages: usize,
    /// The most entries that the cache keeps.
    pub max_entries: Option<usize>,
    pub eviction_interval_seconds: u64,
    /// The second stage, by similarity of embeddings.
    pub semantic: Option<SemanticCacheConfig>,
}

#[derive(Debug)]
pub struct SemanticCacheConfig {
    pub enabled: bool,
    pub base_url: String,
    pub model: String,
    pub api_key_env: Option<String>,
    pub timeout_ms: u64,
    /// The least similarity of a hit.
    pub threshold: Real,
}

impl Default for CacheConfig {
    fn default() -> (r: CacheConfig)
        ensures
            !r.enabled,
            r.ttl_seconds == 1800,
            r.max_conversation_messages == 3,
            r.max_entries is None,
            r.eviction_interval_seconds == 300,
            r.semantic is None,
    {
        CacheConfig {
            enabled: false,
            ttl_seconds: 1800,
            max_conversation_messages: 3,
            max_entries: None,
            eviction_interval_seconds: 300,
            semantic: None,
        }
    }
}

#[derive(Debug)]
pub struct ServerConfig {
    pub host: String,
    pub port: u16,
}

#[derive(Debug, Default)]
pub struct AuthConfig {
    /// The key that callers present; empty admits everyone.
    pub llmux_key: String,
}

#[derive(Debug, Default)]
pub struct BudgetConfig {
    pub daily_max_usd: Option<Real>,
    pub monthly_max_usd: Option<Real>,
    /// Ceilings on the tier, each from a share of the budget on.
    pub pressure_downgrade: Vec<PressureRule>,
}

#[derive(Debug, Clone, Copy)]
pub struct PressureRule {
    /// The share of the budget from which the ceiling holds.
    pub at: Real,
    pub max_tier: u8,
}

#[derive(Debug, Default)]
pub struct PrivacyConfig {
    pub local_first: bool,
    pub block_cloud_patterns: Vec<String>,
    /// Whether system and assistant messages are scanned too.
    pub scan_system: bool,
}

#[derive(Debug)]
pub struct ProviderConfig {
    pub enabled: bool,
    pub base_url: String,
    pub api_key_env: Option<String>,
    /// Several keys; where there are none, `api_key_env` counts.
    pub keys: Vec<ProviderKey>,
    /// Runs locally: nothing sent to it leaves for a cloud.
    pub local: bool,
    pub kind: ProviderKind,
    /// Fields of a request that this provider does not take.
    pub strip_params: Vec<String>,
    /// Whether the provider bills a repeated prompt prefix at a discount.
    pub prompt_caching: bool,
    /// The share of the price at which such a prefix is billed.
    pub cache_billed_fraction: Real,
}

/// One API key of a provider.
#[derive(Debug)]
pub struct ProviderKey {
    /// The environment variable that holds the key.
    pub env: String,
    /// The relative weight of the key when one is drawn.
    pub weight: Real,
    /// The models the key is for; none means all.
    pub allow: Vec<String>,
    /// The models the key is not for.
    pub deny: Vec<String>,
}

/// The weight of a key for which none is given.
pub fn default_weight() -> (r: Real)
    ensures
        r == (Real { bits: float::UNIT }),
{
    Real::one()
}

/// The billed share of a cached prefix where none is given: one tenth.
pub fn default_cache_billed_fraction() -> (r: Real)
    ensures
        r == (Real { bits: float::TENTH }),
{
    Real { bits: float::TENTH }
}

/// The ratio of output to input tokens where none is given.
pub fn default_output_ratio() -> (r: Real)
    ensures
        r == (Real { bits: float::UNIT }),
{
    Real::one()
}

/// Whether a provider is enabled where nothing is said.
pub fn default_true() -> (r: bool)
    ensures
        r,
{
    true
}

/// The protocol that a provider speaks.
#[derive(Debug, Clone, Copy, PartialEq, Eq, Structural)]
pub enum ProviderKind {
    /// `POST /chat/completions` with a bearer token.
    Openai,
    /// `POST /messages` with `x-api-key`.
    Anthropic,
}

impl Default for ProviderKind {
    fn default() -> (r: ProviderKind)
        ensures
            r == ProviderKind::Openai,
    {
        ProviderKind::Openai
    }
}

/// The names of capabilities that a configuration may use.
pub open spec fn known_capabilities() -> Seq<Seq<char>> {
    seq![
        "tools"@,
        "json_schema"@,
        "vision"@,
        "streaming"@,
        "streaming_usage"@,
        "large_context"@,
        "reasoning"@,
        "strict_tool_schema"@,
    ]
}

/// Whether a configuration may use the capability `c`.
pub fn is_known_capability(c: &str) -> (r: bool)
    ensures
        r == known_capabilities().contains(c@),
{
    let names = [
        "tools",
        "json_schema",
        "vision",
        "streaming",
        "streaming_usage",
        "large_context",
        "reasoning",
        "strict_tool_schema",
    ];
    assert(text::views(names@) =~= known_capabilities());
    let mut i: usize = 0;
    while i < 8
        invariant
            i <= 8,
            names@.len() == 8,
            text::views(names@) == known_capabilities(),
            forall|j: int| 0 <= j < i ==> (#[trigger] names@[j])@ != c@,
        decreases 8 - i,
    {
        if text::same(names[i], c) {
            assert(text::views(names@)[i as int] == c@);
            return true;
        }
        i += 1;
    }
    assert forall|j: int| 0 <= j < known_capabilities().len() implies known_capabilities()[j]
        != c@ by {
        assert(text::views(names@)[j] == names@[j]@);
    }
    false
}

#[derive(Debug)]
pub struct ModelEntry {
    pub provider: String,
    pub model: String,
    /// The level of quality, from 1 up.
    pub tier: u8,
    /// The context window, in tokens.
    pub context: u64,
    /// Stands for the capability `tools`.
    pub supports_tools: bool,
    pub capabilities: Vec<String>,
    pub input_per_mtok: Real,
    pub output_per_mtok: Real,
    /// Fields of a request that this model does not take.
    pub strip_params: Vec<String>,
}

/// The model of a catalogue entry.
#[verifier::ext_equal]
pub struct ModelView {
    pub provider: Seq<char>,
    pub model: Seq<char>,
    pub tier: u8,
    pub context: u64,
    pub supports_tools: bool,
    pub capabilities: Seq<Seq<char>>,
    pub input_per_mtok: Real,
    pub output_per_mtok: Real,
    pub strip_params: Seq<Seq<char>>,
}

impl View for ModelEntry {
    type V = ModelView;

    open spec fn view(&self) -> ModelView {
        ModelView {
            provider: self.provider@,
            model: self.model@,
            tier: self.tier,
            context: self.context,
            supports_tools: self.supports_tools,
            capabilities: text::texts(self.capabilities@),
            input_per_mtok: self.input_per_mtok,
            output_per_mtok: self.output_per_mtok,
            strip_params: text::texts(self.strip_params@),
        }
    }
}

impl ModelView {
    /// Whether the model offers a capability.
    pub open spec fn has(self, cap: Seq<char>) -> bool {
        (cap == "tools"@ && self.supports_tools) || self.capabilities.contains(cap)
    }

    /// The name with the provider in front.
    pub open spec fn full_name(self) -> Seq<char> {
        self.provider + "/"@ + self.model
    }

    /// Whether `name` denotes the model, with or without its provider.
    pub open spec fn answers_to(self, name: Seq<char>) -> bool {
        self.model == name || self.full_name() == name
    }
}

impl ModelEntry {
    /// An equal entry.
    pub fn copy(&self) -> (r: ModelEntry)
        ensures
            r@ == self@,
    {
        ModelEntry {
            provider: self.provider.clone(),
            model: self.model.clone(),
            tier: self.tier,
            context: self.context,
            supports_tools: self.supports_tools,
            capabilities: text::copy_list(&self.capabilities),
            input_per_mtok: self.input_per_mtok,
            output_per_mtok: self.output_per_mtok,
            strip_params: text::copy_list(&self.strip_params),
        }
    }

    /// Where requests to this model go.
    pub fn target(&self) -> (r: Target)
        ensures
            r.provider@ == self@.provider,
            r.model@ == self@.model,
    {
        Target { provider: self.provider.clone(), model: self.model.clone() }
    }

    /// Whether the model offers the capability `cap`.
    pub fn has_capability(&self, cap: &str) -> (r: bool)
        ensures
            r == self@.has(cap@),
    {
        if self.supports_tools && text::same(cap, "tools") {
            return true;
        }
        text::listed(&self.capabilities, cap)
    }

    /// The name with the provider in front.
    pub fn full_name(&self) -> (r: String)
        ensures
            r@ == self@.full_name(),
    {
        let mut r = self.provider.clone();
        r.append("/");
        r.append(self.model.as_str());
        r
    }

    /// Whether `name` denotes this model.
    pub fn is_called(&self, name: &str) -> (r: bool)
        ensures
            r == self@.answers_to(name@),
    {
        if text::same(self.model.as_str(), name) {
            return true;
        }
        let full = self.full_name();
        text::same(full.as_str(), name)
    }
}

#[derive(Debug)]
pub struct Target {
    pub provider: String,
    pub model: String,
}

/// Routing rules of a project. They only tighten what holds without them.
#[derive(Debug, Default)]
pub struct ProjectProfile {
    pub local_only: bool,
    /// Raises the lowest admissible tier.
    pub min_tier: Option<u8>,
    /// The only admissible providers; none means all.
    pub require_providers: Vec<String>,
    /// Providers that are not admissible.
    pub forbid_providers: Vec<String>,
}

impl ProjectProfile {
    /// Whether the project admits a provider.
    pub open spec fn allows(self, provider: Seq<char>) -> bool {
        &&& !text::texts(self.forbid_providers@).contains(provider)
        &&& (self.require_providers@.len() == 0 || text::texts(
            self.require_providers@,
        ).contains(provider))
    }

    /// Whether the project admits `provider`.
    pub fn allows_provider(&self, provider: &str) -> (r: bool)
        ensures
            r == self.allows(provider@),
    {
        if text::listed(&self.forbid_providers, provider) {
            return false;
        }
        self.require_providers.len() == 0 || text::listed(&self.require_providers, provider)
    }
}

#[derive(Debug)]
pub struct TaskRule {
    /// The lowest admissible tier.
    pub min_tier: u8,
    pub require_tools: bool,
    pub require_capabilities: Vec<String>,
    /// Admits local providers only.
    pub local_only: bool,
    /// The expected ratio of output to input tokens.
    pub expected_output_ratio: Real,
}

impl Config {
    /// Whether the provider with this name runs locally.
    pub open spec fn is_local(self, provider: Seq<char>) -> bool {
        self.providers.at(provider) matches Some(p) && p.local
    }

    /// Whether the provider is enabled and has a key that can be used for the model.
    pub open spec fn is_ready(self, provider: Seq<char>, model: Seq<char>, env: Table<String>) -> bool {
        self.providers.at(provider) matches Some(p) && p.enabled && providers::usable_keys(
            p,
            model,
            env,
        ).len() > 0
    }

    /// The protocol of the provider with this name.
    pub open spec fn kind_of(self, provider: Seq<char>) -> ProviderKind {
        match self.providers.at(provider) {
            Some(p) => p.kind,
            None => ProviderKind::Openai,
        }
    }

    /// The share of the price at which the provider bills a cached prefix.
    pub open spec fn billed_fraction(self, provider: Seq<char>) -> Real {
        match self.providers.at(provider) {
            Some(p) => if p.prompt_caching {
                p.cache_billed_fraction.in_unit()
            } else {
                Real { bits: float::UNIT }
            },
            None => Real { bits: float::UNIT },
        }
    }

    /// Whether the provider can be used for exactly this model: it is enabled and has a key
    /// that is set and admitted for the model, or needs none.
    pub fn provider_ready_for_model(
        &self,
        provider: &str,
        model: &str,
        env: &Table<String>,
    ) -> (r: bool)
        ensures
            r == self.is_ready(provider@, model@, *env),
    {
        match self.providers.get(provider) {
            Some(p) => {
                if !p.enabled {
                    return false;
                }
                let keys = providers::resolve_keys(p, model, env);
                keys.len() > 0
            },
            None => false,
        }
    }

    pub fn provider_is_local(&self, provider: &str) -> (r: bool)
        ensures
            r == self.is_local(provider@),
    {
        match self.providers.get(provider) {
            Some(p) => p.local,
            None => false,
        }
    }

    /// The rules of the project `name`.
    pub fn project_profile(&self, name: &str) -> (r: Option<&ProjectProfile>)
        ensures
            match r {
                Some(p) => self.projects.at(name@) == Some(*p),
                None => self.projects.at(name@) is None,
            },
    {
        self.projects.get(name)
    }

    pub fn provider_kind(&self, provider: &str) -> (r: ProviderKind)
        ensures
            r == self.kind_of(provider@),
    {
        match self.providers.get(provider) {
            Some(p) => p.kind,
            None => ProviderKind::Openai,
        }
    }

    /// The share of the price at which a cached prompt prefix counts when costs are estimated.
    pub fn prompt_cache_billed_fraction(&self, provider: &str) -> (r: Real)
        ensures
            r == self.billed_fraction(provider@),
    {
        match self.providers.get(provider) {
            Some(p) => {
                if p.prompt_caching {
                    p.cache_billed_fraction.clamp_unit()
                } else {
                    Real::one()
                }
            },
            None => Real::one(),
        }
    }

    /// The model that an alias stands for.
    pub fn resolve_alias(&self, name: &str) -> (r: Option<&str>)
        ensures
            match r {
                Some(t) => self.aliases.at(name@) matches Some(s) && s@ == t@,
                None => self.aliases.at(name@) is None,
            },
    {
        match self.aliases.get(name) {
            Some(s) => Some(s.as_str()),
            None => None,
        }
    }

    /// Whether a model in the catalogue answers to `name`.
    pub open spec fn in_catalogue(self, name: Seq<char>) -> bool {
        exists|i: int| 0 <= i < self.models@.len() && (#[trigger] self.models@[i])@.answers_to(name)
    }

    /// Whether a model in the catalogue answers to `name`.
    pub fn is_catalog_model(&self, name: &str) -> (r: bool)
        ensures
            r == self.in_catalogue(name@),
    {
        let mut i: usize = 0;
        while i < self.models.len()
            invariant
                i <= self.models@.len(),
                forall|j: int| 0 <= j < i ==> !(#[trigger] self.models@[j])@.answers_to(name@),
            decreases self.models.len() - i,
        {
            if self.models[i].is_called(name) {
                return true;
            }
            i += 1;
        }
        false
    }
}

proof fn lemma_profile_names()
    ensures
        "interactive"@ != "balanced"@,
        "interactive"@ != "batch"@,
        "balanced"@ != "batch"@,
{
    reveal_strlit("interactive");
    reveal_strlit("balanced");
    reveal_strlit("batch");
    assert("interactive"@.len() == 11);
    assert("balanced"@.len() == 8);
    assert("batch"@.len() == 5);
}

/// The names of the profiles; no other name stands for one.
pub proof fn law_profile_names(s: Seq<char>)
    ensures
        Profile::named("interactive"@) == Some(Profile::Interactive),
        Profile::named("balanced"@) == Some(Profile::Balanced),
        Profile::named("batch"@) == Some(Profile::Batch),
        Profile::named(s) is Some ==> s == "interactive"@ || s == "balanced"@ || s == "batch"@,
{
    lemma_profile_names();
}

/// What a model offers and what it is called: it offers what it lists, and tools also where it is
/// said to support them; it is called by its name, alone or behind its provider and a slash.
pub proof fn law_what_a_model_is(m: ModelView, s: Seq<char>)
    ensures
        m.capabilities.contains(s) ==> m.has(s),
        m.supports_tools ==> m.has("tools"@),
        m.has(s) && !m.capabilities.contains(s) ==> s == "tools"@ && m.supports_tools,
        m.full_name() == m.provider + "/"@ + m.model,
        m.answers_to(m.model),
        m.answers_to(m.provider + "/"@ + m.model),
        m.answers_to(s) ==> s == m.model || s == m.provider + "/"@ + m.model,
{
}

/// What is known of a provider by its name: whether it is local, whether it can be used for a
/// model, which protocol it speaks, and what it bills for a prompt that it has cached: a share
/// from 0 to 1 where it grants a discount, and the whole price otherwise. An unknown provider is
/// neither local nor usable, and bills the whole price.
pub proof fn law_what_a_provider_is(
    cfg: Config,
    name: Seq<char>,
    model: Seq<char>,
    env: Table<String>,
)
    ensures
        cfg.providers.at(name) is None ==> !cfg.is_local(name) && !cfg.is_ready(name, model, env)
            && cfg.kind_of(name) == ProviderKind::Openai && cfg.billed_fraction(name).bits
            == 0x3ff0_0000_0000_0000,
        cfg.providers.at(name) matches Some(p) ==> {
            let f = p.cache_billed_fraction;
            let zero = Real { bits: 0 };
            let one = Real { bits: 0x3ff0_0000_0000_0000 };
            &&& cfg.is_local(name) == p.local
            &&& cfg.kind_of(name) == p.kind
            &&& cfg.is_ready(name, model, env) <==> p.enabled && providers::usable_keys(
                p,
                model,
                env,
            ).len() > 0
            &&& !p.prompt_caching ==> cfg.billed_fraction(name) == one
            &&& p.prompt_caching && zero.le(f) && f.le(one) ==> cfg.billed_fraction(name) == f
            &&& p.prompt_caching && f.lt(zero) ==> cfg.billed_fraction(name) == zero
            &&& p.prompt_caching && one.lt(f) ==> cfg.billed_fraction(name) == one
        },
{
}

/// Which providers a project admits: none that it forbids, and, where it requires some, only these.
pub proof fn law_what_a_project_admits(p: ProjectProfile, provider: Seq<char>)
    ensures
        (exists|d: int|
            0 <= d < p.forbid_providers@.len() && (#[trigger] p.forbid_providers@[d])@ == provider)
            ==> !p.allows(provider),
        p.require_providers@.len() > 0 && (forall|a: int|
            0 <= a < p.require_providers@.len() ==> (#[trigger] p.require_providers@[a])@
                != provider) ==> !p.allows(provider),
        p.forbid_providers@.len() == 0 && p.require_providers@.len() == 0 ==> p.allows(provider),
{
    let no = text::texts(p.forbid_providers@);
    let yes = text::texts(p.require_providers@);
    if exists|d: int|
        0 <= d < p.forbid_providers@.len() && (#[trigger] p.forbid_providers@[d])@ == provider {
        let d = choose|d: int|
            0 <= d < p.forbid_providers@.len() && (#[trigger] p.forbid_providers@[d])@ == provider;
        assert(no[d] == provider);
    }
    if yes.contains(provider) {
        let a = choose|a: int| 0 <= a < yes.len() && yes[a] == provider;
        assert(p.require_providers@[a]@ == provider);
    }
}

} // verus!
