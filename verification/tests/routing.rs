//! Choosing models: configurations, selection, plans and whole requests.
use llmux::api;
use llmux::chat;
use llmux::classifier::{self, TaskType};
use llmux::config::{
    default_cache_billed_fraction, default_output_ratio, default_true, default_weight,
    is_known_capability, AuthConfig, BudgetConfig, CacheConfig, ClassifierConfig, Config,
    LlmClassifierConfig, ModelEntry, PressureRule, PrivacyConfig, Profile, ProjectProfile, ProviderConfig, ProviderKey,
    ProviderKind, RetryConfig, RoutingConfig, SemanticCacheConfig, ServerConfig, TaskRule,
};
use llmux::cost;
use llmux::float::Real;
use llmux::json::Json;
use llmux::logging::{RequestLog, Store};
use llmux::pipeline::{self, Halt, Plugin, PluginOutcome, PluginPipeline};
use llmux::plan::{build_plan, find_model, Plan, PlanError, PlanInput};
use llmux::privacy;
use llmux::providers::{self, Auth};
use llmux::retry::{Event, Run, Step};
use llmux::router::{
    current_pressure, remaining_budget, select, Estimates, SelectError, SelectInput, SessionStore,
    Spending,
};
use llmux::table::Table;
use serde_yaml::Value;

/// Noon of some day, in nanoseconds since the epoch.
const NOW: u128 = 1_700_000_000_000_000_000;
const SECOND: u128 = 1_000_000_000;

fn double(x: f64) -> Real {
    Real::from_bits(x.to_bits())
}

fn float(r: Real) -> f64 {
    f64::from_bits(r.bits)
}

fn text_of(v: &Value, key: &str) -> Option<String> {
    v.get(key).and_then(|x| x.as_str()).map(|s| s.to_string())
}

fn flag(v: &Value, key: &str) -> bool {
    v.get(key).and_then(|x| x.as_bool()).unwrap_or(false)
}

fn number(v: &Value, key: &str) -> Option<u64> {
    v.get(key).and_then(|x| x.as_u64())
}

fn fraction(v: &Value, key: &str) -> Option<Real> {
    v.get(key).and_then(|x| x.as_f64()).map(double)
}

fn list(v: &Value, key: &str) -> Vec<String> {
    match v.get(key).and_then(|x| x.as_sequence()) {
        Some(items) => items.iter().map(|i| i.as_str().unwrap().to_string()).collect(),
        None => Vec::new(),
    }
}

fn table<V>(v: &Value, key: &str, make: impl Fn(&Value) -> V) -> Table<V> {
    let mut t = Table::new();
    if let Some(m) = v.get(key).and_then(|x| x.as_mapping()) {
        for (k, item) in m {
            t.insert(k.as_str().unwrap(), make(item));
        }
    }
    t
}

fn provider_key(v: &Value) -> ProviderKey {
    ProviderKey {
        env: text_of(v, "env").unwrap(),
        weight: fraction(v, "weight").unwrap_or(default_weight()),
        allow: list(v, "allow"),
        deny: list(v, "deny"),
    }
}

fn provider(v: &Value) -> ProviderConfig {
    ProviderConfig {
        enabled: v.get("enabled").and_then(|x| x.as_bool()).unwrap_or(default_true()),
        base_url: text_of(v, "base_url").unwrap(),
        api_key_env: text_of(v, "api_key_env"),
        keys: match v.get("keys").and_then(|x| x.as_sequence()) {
            Some(ks) => ks.iter().map(provider_key).collect(),
            None => Vec::new(),
        },
        local: flag(v, "local"),
        kind: match text_of(v, "kind").as_deref() {
            Some("anthropic") => ProviderKind::Anthropic,
            _ => ProviderKind::Openai,
        },
        strip_params: list(v, "strip_params"),
        prompt_caching: flag(v, "prompt_caching"),
        cache_billed_fraction: fraction(v, "cache_billed_fraction")
            .unwrap_or(default_cache_billed_fraction()),
    }
}

fn model(v: &Value) -> ModelEntry {
    ModelEntry {
        provider: text_of(v, "provider").unwrap(),
        model: text_of(v, "model").unwrap(),
        tier: number(v, "tier").unwrap() as u8,
        context: number(v, "context").unwrap(),
        supports_tools: flag(v, "supports_tools"),
        capabilities: list(v, "capabilities"),
        input_per_mtok: fraction(v, "input_per_mtok").unwrap(),
        output_per_mtok: fraction(v, "output_per_mtok").unwrap(),
        strip_params: list(v, "strip_params"),
    }
}

fn rule(v: &Value) -> TaskRule {
    TaskRule {
        min_tier: number(v, "min_tier").unwrap() as u8,
        require_tools: flag(v, "require_tools"),
        require_capabilities: list(v, "require_capabilities"),
        local_only: flag(v, "local_only"),
        expected_output_ratio: fraction(v, "expected_output_ratio")
            .unwrap_or(default_output_ratio()),
    }
}

fn project(v: &Value) -> ProjectProfile {
    ProjectProfile {
        local_only: flag(v, "local_only"),
        min_tier: number(v, "min_tier").map(|t| t as u8),
        require_providers: list(v, "require_providers"),
        forbid_providers: list(v, "forbid_providers"),
    }
}

fn budgets(v: &Value) -> BudgetConfig {
    match v.get("budgets") {
        Some(b) => BudgetConfig {
            daily_max_usd: fraction(b, "daily_max_usd"),
            monthly_max_usd: fraction(b, "monthly_max_usd"),
            pressure_downgrade: match b.get("pressure_downgrade").and_then(|x| x.as_sequence()) {
                Some(rules) => rules
                    .iter()
                    .map(|r| PressureRule {
                        at: fraction(r, "at").unwrap(),
                        max_tier: number(r, "max_tier").unwrap() as u8,
                    })
                    .collect(),
                None => Vec::new(),
            },
        },
        None => BudgetConfig::default(),
    }
}

fn cache_config(v: &Value) -> CacheConfig {
    let d = CacheConfig::default();
    match v.get("cache") {
        Some(c) => CacheConfig {
            enabled: flag(c, "enabled"),
            ttl_seconds: number(c, "ttl_seconds").unwrap_or(d.ttl_seconds),
            max_conversation_messages: number(c, "max_conversation_messages")
                .map(|n| n as usize)
                .unwrap_or(d.max_conversation_messages),
            max_entries: number(c, "max_entries").map(|n| n as usize),
            eviction_interval_seconds: number(c, "eviction_interval_seconds")
                .unwrap_or(d.eviction_interval_seconds),
            semantic: None,
        },
        None => d,
    }
}

fn parse(yaml: &str) -> Config {
    let v: Value = serde_yaml::from_str(yaml).expect("fixture parses");
    let server = v.get("server").unwrap();
    Config {
        server: ServerConfig {
            host: text_of(server, "host").unwrap(),
            port: number(server, "port").unwrap() as u16,
        },
        auth: AuthConfig {
            llmux_key: match v.get("auth") {
                Some(a) => text_of(a, "llmux_key").unwrap_or_default(),
                None => String::new(),
            },
        },
        budgets: budgets(&v),
        privacy: match v.get("privacy") {
            Some(p) => PrivacyConfig {
                local_first: flag(p, "local_first"),
                block_cloud_patterns: list(p, "block_cloud_patterns"),
                scan_system: flag(p, "scan_system"),
            },
            None => PrivacyConfig::default(),
        },
        providers: table(&v, "providers", provider),
        models: v.get("models").unwrap().as_sequence().unwrap().iter().map(model).collect(),
        classification: table(&v, "classification", rule),
        aliases: table(&v, "aliases", |x| x.as_str().unwrap().to_string()),
        projects: table(&v, "projects", project),
        retry: match v.get("retry") {
            Some(r) => RetryConfig {
                max_retries: number(r, "max_retries").unwrap() as u32,
                backoff_initial_ms: number(r, "backoff_initial_ms").unwrap(),
                backoff_max_ms: number(r, "backoff_max_ms").unwrap(),
            },
            None => RetryConfig::default(),
        },
        routing: RoutingConfig::default(),
        cache: cache_config(&v),
        classifier: ClassifierConfig::default(),
    }
}

/// What a model costs for so many tokens.
fn est_cost(m: &ModelEntry, input: u64, output: u64) -> f64 {
    input as f64 / 1_000_000.0 * float(m.input_per_mtok)
        + output as f64 / 1_000_000.0 * float(m.output_per_mtok)
}

/// The input tokens that are billed where a provider discounts a cached prefix.
fn effective_input(input: u64, cached: u64, billed: f64) -> u64 {
    let cached = cached.min(input);
    input - cached + (cached as f64 * billed).ceil() as u64
}

fn total(costs: &[Real]) -> f64 {
    costs.iter().map(|c| float(*c)).sum()
}

fn spending(cfg: &Config, store: &Store) -> Spending {
    let day = total(&store.spent_today(NOW));
    let month = total(&store.spent_this_month(NOW));
    let day_max = cfg.budgets.daily_max_usd.map(float).unwrap_or(0.0);
    let month_max = cfg.budgets.monthly_max_usd.map(float).unwrap_or(0.0);
    Spending {
        day_share: double(day / day_max),
        month_share: double(month / month_max),
        day_rest: double(day_max - day),
        month_rest: double(month_max - month),
    }
}

fn estimates(cfg: &Config, store: &Store, task_key: &str, input: u64, cached: u64) -> Estimates {
    let ratio = cfg
        .classification
        .get(task_key)
        .map(|r| float(r.expected_output_ratio))
        .unwrap_or(1.0);
    let expected_output = (input as f64 * ratio).ceil() as u64;
    let costs = cfg
        .models
        .iter()
        .map(|m| {
            let billed = float(cfg.prompt_cache_billed_fraction(&m.provider));
            double(est_cost(m, effective_input(input, cached, billed), expected_output))
        })
        .collect();
    Estimates { spending: spending(cfg, store), expected_output, costs }
}

fn pick_in(
    cfg: &Config,
    env: &Table<String>,
    store: &Store,
    sessions: &mut SessionStore,
    input: &SelectInput,
) -> Result<llmux::router::Selection, SelectError> {
    let est = estimates(cfg, store, input.task_key, input.input_tokens, input.cached_prefix_tokens);
    select(cfg, env, store, sessions, input, &est)
}

fn pick(
    cfg: &Config,
    store: &Store,
    input: &SelectInput,
) -> Result<llmux::router::Selection, SelectError> {
    pick_in(cfg, &Table::new(), store, &mut SessionStore::default(), input)
}

const BASE: &str = r#"
server: { host: "127.0.0.1", port: 0 }
providers:
  local_p: { enabled: true, base_url: "http://localhost/v1", local: true }
  cloud_p: { enabled: true, base_url: "https://example.com/v1" }
models:
  - { provider: local_p, model: "local-small", tier: 1, context: 8000, supports_tools: false, input_per_mtok: 0.0, output_per_mtok: 0.0 }
  - { provider: cloud_p, model: "cheap",       tier: 1, context: 8000, supports_tools: true,  input_per_mtok: 0.1, output_per_mtok: 0.1 }
  - { provider: cloud_p, model: "mid",         tier: 3, context: 8000, supports_tools: true,  input_per_mtok: 1.0, output_per_mtok: 1.0 }
  - { provider: cloud_p, model: "big",         tier: 5, context: 200000, supports_tools: true, input_per_mtok: 10.0, output_per_mtok: 10.0 }
classification:
  simple_text:       { min_tier: 1, expected_output_ratio: 1.0 }
  summarize:         { min_tier: 1, expected_output_ratio: 1.0 }
  code_review:       { min_tier: 3, expected_output_ratio: 1.0 }
  architecture:      { min_tier: 4, expected_output_ratio: 1.0 }
  private_sensitive: { min_tier: 1, local_only: true, expected_output_ratio: 1.0 }
"#;

fn cfg(extra: &str) -> Config {
    parse(&format!("{extra}{BASE}"))
}

fn input(task_key: &str, requires_tools: bool, input_tokens: u64) -> SelectInput<'_> {
    SelectInput {
        task_key,
        requires_tools,
        input_tokens,
        cached_prefix_tokens: 0,
        session: None,
        project: None,
        req_capabilities: &[],
        profile: Profile::Balanced,
    }
}

fn spend(store: &mut Store, usd: f64) {
    store.insert(RequestLog { real_cost_usd: double(usd), ..Default::default() }, NOW);
}

fn spend_latency(store: &mut Store, model: &str, ms: u64) {
    store.insert(
        RequestLog {
            provider: "p".into(),
            model: model.into(),
            status: 200,
            latency_ms: ms,
            ..Default::default()
        },
        NOW,
    );
}

#[test]
fn cheapest_viable_wins() {
    let c = cfg("");
    let s = Store::new();
    let sel = pick(&c, &s, &input("simple_text", false, 100)).unwrap();
    assert_eq!(sel.chain[0].model, "local-small");
    assert!(!sel.degraded);
}

#[test]
fn tier_floor_excludes_low_tiers() {
    let c = cfg("");
    let s = Store::new();
    let sel = pick(&c, &s, &input("code_review", false, 100)).unwrap();
    assert_eq!(sel.chain[0].model, "mid");
    assert!(sel.chain.iter().all(|m| m.tier >= 3));
}

#[test]
fn tool_filter_excludes_non_tool_models() {
    let c = cfg("");
    let s = Store::new();
    let sel = pick(&c, &s, &input("simple_text", true, 100)).unwrap();
    assert_eq!(sel.chain[0].model, "cheap");
    assert!(sel.chain.iter().all(|m| m.supports_tools));
}

#[test]
fn local_only_restricts_to_local_provider() {
    let c = cfg("");
    let s = Store::new();
    let sel = pick(&c, &s, &input("private_sensitive", false, 100)).unwrap();
    assert!(sel.chain.iter().all(|m| c.provider_is_local(&m.provider)));
    assert_eq!(sel.chain[0].model, "local-small");
}

#[test]
fn context_window_must_fit() {
    let c = cfg("");
    let s = Store::new();
    let sel = pick(&c, &s, &input("simple_text", false, 100_000)).unwrap();
    assert_eq!(sel.chain[0].model, "big");
}

#[test]
fn budget_pressure_downgrades_with_degraded_flag() {
    let c = cfg("budgets:\n  daily_max_usd: 1.0\n  pressure_downgrade:\n    - { at: 0.5, max_tier: 2 }\n");
    let mut s = Store::new();
    spend(&mut s, 0.6);
    let sel = pick(&c, &s, &input("code_review", false, 100)).unwrap();
    assert!(sel.degraded, "code_review (min_tier 3) muss unter Druck degradieren");
    assert!(sel.chain.iter().all(|m| m.tier <= 2));
    assert!(float(sel.budget_pressure) >= 0.5);
}

#[test]
fn budget_exceeded_when_cheapest_too_expensive() {
    let c = cfg("budgets:\n  daily_max_usd: 0.000001\n");
    let s = Store::new();
    let err = pick(&c, &s, &input("code_review", false, 1000)).unwrap_err();
    assert!(matches!(err, SelectError::BudgetExceeded));
}

#[test]
fn unknown_task_errors() {
    let c = cfg("");
    let s = Store::new();
    let err = pick(&c, &s, &input("nope", false, 100)).unwrap_err();
    assert!(matches!(err, SelectError::UnknownTask(_)));
}

#[test]
fn prompt_cache_discount_flips_ranking() {
    let yaml = r#"
server: { host: "127.0.0.1", port: 0 }
providers:
  plain:  { enabled: true, base_url: "https://a/v1" }
  cached: { enabled: true, base_url: "https://b/v1", prompt_caching: true, cache_billed_fraction: 0.1 }
models:
  - { provider: plain,  model: "plain-m",  tier: 3, context: 200000, supports_tools: true, input_per_mtok: 1.0, output_per_mtok: 0.0 }
  - { provider: cached, model: "cached-m", tier: 3, context: 200000, supports_tools: true, input_per_mtok: 2.0, output_per_mtok: 0.0 }
classification:
  simple_text:       { min_tier: 3, expected_output_ratio: 0.0 }
  summarize:         { min_tier: 3 }
  code_review:       { min_tier: 3 }
  architecture:      { min_tier: 3 }
  private_sensitive: { min_tier: 3 }
"#;
    let c = parse(yaml);
    let s = Store::new();
    let cached_in = SelectInput {
        task_key: "simple_text",
        requires_tools: false,
        input_tokens: 10_000,
        cached_prefix_tokens: 9_000,
        session: None,
        project: None,
        req_capabilities: &[],
        profile: Profile::Balanced,
    };
    let sel = pick(&c, &s, &cached_in).unwrap();
    assert_eq!(sel.chain[0].model, "cached-m");

    let no_prefix = SelectInput { cached_prefix_tokens: 0, ..cached_in };
    let sel = pick(&c, &s, &no_prefix).unwrap();
    assert_eq!(sel.chain[0].model, "plain-m");
}

#[test]
fn model_specific_key_denylist_excludes_candidate() {
    let mut env = Table::new();
    env.insert("LLMUX_TEST_GATED_KEY", "k".to_string());
    let yaml = r#"
server: { host: "127.0.0.1", port: 0 }
providers:
  local_p: { enabled: true, base_url: "http://localhost/v1", local: true }
  gated_p:
    enabled: true
    base_url: "https://example.com/v1"
    keys:
      - { env: "LLMUX_TEST_GATED_KEY", weight: 1.0, allow: ["other"] }
models:
  - { provider: gated_p, model: "gated", tier: 1, context: 8000, supports_tools: true, input_per_mtok: 0.1, output_per_mtok: 0.1 }
  - { provider: gated_p, model: "other", tier: 1, context: 8000, supports_tools: true, input_per_mtok: 9.0, output_per_mtok: 9.0 }
classification:
  simple_text:       { min_tier: 1, expected_output_ratio: 1.0 }
  summarize:         { min_tier: 1 }
  code_review:       { min_tier: 3 }
  architecture:      { min_tier: 4 }
  private_sensitive: { min_tier: 1, local_only: true, expected_output_ratio: 1.0 }
"#;
    let c = parse(yaml);
    let s = Store::new();
    let sel = pick_in(
        &c,
        &env,
        &s,
        &mut SessionStore::default(),
        &input("simple_text", false, 100),
    )
    .unwrap();
    assert!(sel.chain.iter().all(|m| m.model == "other"));
    assert_eq!(sel.chain.len(), 1);
}

#[test]
fn project_min_tier_raises_quality_floor() {
    let c = cfg("");
    let s = Store::new();
    let proj = ProjectProfile { min_tier: Some(3), ..Default::default() };
    let inp = SelectInput { project: Some(&proj), ..input("simple_text", false, 100) };
    let sel = pick(&c, &s, &inp).unwrap();
    assert_eq!(sel.chain[0].model, "mid");
    assert!(sel.chain.iter().all(|m| m.tier >= 3));
}

#[test]
fn project_forbid_provider_excludes_candidates() {
    let c = cfg("");
    let s = Store::new();
    let proj = ProjectProfile { forbid_providers: vec!["cloud_p".into()], ..Default::default() };
    let inp = SelectInput { project: Some(&proj), ..input("code_review", false, 100) };
    let err = pick(&c, &s, &inp).unwrap_err();
    assert!(matches!(err, SelectError::NoCandidate(_)));
}

#[test]
fn required_capability_filters_models() {
    let yaml = r#"
server: { host: "127.0.0.1", port: 0 }
providers:
  p: { enabled: true, base_url: "https://x/v1" }
models:
  - { provider: p, model: "plain", tier: 1, context: 8000, supports_tools: true, input_per_mtok: 0.1, output_per_mtok: 0.1 }
  - { provider: p, model: "rich",  tier: 1, context: 8000, supports_tools: true, capabilities: ["json_schema"], input_per_mtok: 9.0, output_per_mtok: 9.0 }
classification:
  simple_text:       { min_tier: 1 }
  summarize:         { min_tier: 1 }
  code_review:       { min_tier: 1 }
  architecture:      { min_tier: 1 }
  private_sensitive: { min_tier: 1 }
"#;
    let c = parse(yaml);
    let s = Store::new();
    let caps = vec!["json_schema".to_string()];
    let inp = SelectInput { req_capabilities: &caps, ..input("simple_text", false, 100) };
    let sel = pick(&c, &s, &inp).unwrap();
    assert_eq!(sel.chain[0].model, "rich");
    assert!(sel.chain.iter().all(|m| m.has_capability("json_schema")));

    let sel2 = pick(&c, &s, &input("simple_text", false, 100)).unwrap();
    assert_eq!(sel2.chain[0].model, "plain");
}

#[test]
fn interactive_profile_prefers_latency_but_respects_hard_filters() {
    let yaml = r#"
server: { host: "127.0.0.1", port: 0 }
providers:
  p: { enabled: true, base_url: "https://x/v1" }
models:
  - { provider: p, model: "slow-cheap",  tier: 1, context: 8000, supports_tools: true, capabilities: ["json_schema"], input_per_mtok: 0.1, output_per_mtok: 0.1 }
  - { provider: p, model: "fast-pricey", tier: 1, context: 8000, supports_tools: true, input_per_mtok: 5.0, output_per_mtok: 5.0 }
classification:
  simple_text:       { min_tier: 1 }
  summarize:         { min_tier: 1 }
  code_review:       { min_tier: 1 }
  architecture:      { min_tier: 1 }
  private_sensitive: { min_tier: 1 }
"#;
    let c = parse(yaml);
    let mut s = Store::new();
    for _ in 0..3 {
        spend_latency(&mut s, "slow-cheap", 2000);
        spend_latency(&mut s, "fast-pricey", 200);
    }

    let bal = pick(&c, &s, &input("simple_text", false, 100)).unwrap();
    assert_eq!(bal.chain[0].model, "slow-cheap");

    let quick = SelectInput { profile: Profile::Interactive, ..input("simple_text", false, 100) };
    let inter = pick(&c, &s, &quick).unwrap();
    assert_eq!(inter.chain[0].model, "fast-pricey");

    let caps = vec!["json_schema".to_string()];
    let inter_caps = SelectInput {
        req_capabilities: &caps,
        profile: Profile::Interactive,
        ..input("simple_text", false, 100)
    };
    let sel = pick(&c, &s, &inter_caps).unwrap();
    assert_eq!(sel.chain[0].model, "slow-cheap");
}

#[test]
fn session_stickiness_prefers_prior_choice() {
    let c = cfg("");
    let s = Store::new();
    let mut sessions = SessionStore::default();
    sessions.set("s1", "cloud_p", "mid", 3);
    let inp = SelectInput { session: Some("s1"), ..input("simple_text", false, 100) };
    let sel = pick_in(&c, &Table::new(), &s, &mut sessions, &inp).unwrap();
    assert_eq!(sel.chain[0].model, "mid");
}

#[test]
fn a_session_remembers_what_was_chosen() {
    let c = cfg("");
    let s = Store::new();
    let mut sessions = SessionStore::default();
    assert_eq!(sessions.get("s1"), None);
    let inp = SelectInput { session: Some("s1"), ..input("code_review", false, 100) };
    pick_in(&c, &Table::new(), &s, &mut sessions, &inp).unwrap();
    assert_eq!(sessions.get("s1"), Some(("cloud_p".to_string(), "mid".to_string(), 3)));
    assert_eq!(sessions.get("s2"), None);
    sessions.set("s1", "local_p", "local-small", 1);
    assert_eq!(sessions.get("s1"), Some(("local_p".to_string(), "local-small".to_string(), 1)));
}

#[test]
fn sessions_and_profiles_only_reorder() {
    let c = cfg("");
    let s = Store::new();
    let mut sessions = SessionStore::default();
    sessions.set("s1", "cloud_p", "mid", 3);
    let sticky = SelectInput {
        session: Some("s1"),
        profile: Profile::Interactive,
        ..input("simple_text", false, 100)
    };
    let sel = pick_in(&c, &Table::new(), &s, &mut sessions, &sticky).unwrap();
    assert_eq!(sel.positions, vec![2, 0, 1, 3]);
}

#[test]
fn a_chain_lists_every_viable_model_in_order_of_cost() {
    let c = cfg("");
    let s = Store::new();
    let sel = pick(&c, &s, &input("simple_text", false, 100)).unwrap();
    let names: Vec<&str> = sel.chain.iter().map(|m| m.model.as_str()).collect();
    assert_eq!(names, vec!["local-small", "cheap", "mid", "big"]);
    assert_eq!(sel.positions, vec![0, 1, 2, 3]);
    assert_eq!(sel.tier, 1);
    assert_eq!(sel.expected_output_tokens, 100);
}

#[test]
fn equal_costs_prefer_the_higher_tier_and_local_first() {
    let yaml = r#"
server: { host: "127.0.0.1", port: 0 }
privacy: { local_first: true }
providers:
  a: { enabled: true, base_url: "https://a/v1" }
  b: { enabled: true, base_url: "http://b/v1", local: true }
models:
  - { provider: a, model: "low",  tier: 1, context: 8000, input_per_mtok: 1.0, output_per_mtok: 1.0 }
  - { provider: a, model: "high", tier: 2, context: 8000, input_per_mtok: 1.0, output_per_mtok: 1.0 }
  - { provider: b, model: "near", tier: 1, context: 8000, input_per_mtok: 1.0, output_per_mtok: 1.0 }
classification:
  simple_text:       { min_tier: 1 }
  summarize:         { min_tier: 1 }
  code_review:       { min_tier: 1 }
  architecture:      { min_tier: 1 }
  private_sensitive: { min_tier: 1 }
"#;
    let c = parse(yaml);
    let s = Store::new();
    let sel = pick(&c, &s, &input("simple_text", false, 100)).unwrap();
    let names: Vec<&str> = sel.chain.iter().map(|m| m.model.as_str()).collect();
    assert_eq!(names, vec!["near", "high", "low"]);
}

#[test]
fn missing_candidates_are_described() {
    let c = cfg("");
    let s = Store::new();
    match pick(&c, &s, &input("code_review", true, 500_000)) {
        Err(SelectError::NoCandidate(d)) => assert_eq!(
            d,
            "task=code_review caps=[\"tools\"] local_only=false ctx>=1000000 tier∈[3..=255]"
        ),
        other => panic!("unexpected: {other:?}"),
    }
}

#[test]
fn pressure_and_rest_follow_the_tighter_budget() {
    let c = cfg("budgets:\n  daily_max_usd: 1.0\n  monthly_max_usd: 4.0\n");
    let mut s = Store::new();
    spend(&mut s, 0.5);
    let spent = spending(&c, &s);
    assert_eq!(float(current_pressure(&c, &spent)), 0.5);
    assert_eq!(float(remaining_budget(&c, &spent)), 0.5);
    let free = cfg("");
    let nothing = spending(&free, &s);
    assert_eq!(float(current_pressure(&free, &nothing)), 0.0);
    assert_eq!(float(remaining_budget(&free, &nothing)), f64::INFINITY);
}

#[test]
fn a_project_rejects_what_it_does_not_name() {
    let only = ProjectProfile { require_providers: vec!["a".into()], ..Default::default() };
    assert!(only.allows_provider("a"));
    assert!(!only.allows_provider("b"));
    let not = ProjectProfile { forbid_providers: vec!["a".into()], ..Default::default() };
    assert!(!not.allows_provider("a"));
    assert!(not.allows_provider("b"));
}

const FORCE: &str = r#"
server: { host: "127.0.0.1", port: 0 }
providers:
  local_p: { enabled: true, base_url: "http://localhost/v1", local: true }
  cloud_p: { enabled: true, base_url: "https://example.com/v1" }
models:
  - { provider: local_p, model: "local-small", tier: 1, context: 8000, supports_tools: false, input_per_mtok: 0.0, output_per_mtok: 0.0 }
  - { provider: cloud_p, model: "no-tools",     tier: 2, context: 8000, supports_tools: false, input_per_mtok: 0.1, output_per_mtok: 0.1 }
  - { provider: cloud_p, model: "cloud-big",    tier: 5, context: 8000, supports_tools: true,  input_per_mtok: 1.0, output_per_mtok: 1.0 }
  - { provider: cloud_p, model: "small-ctx",    tier: 1, context: 1000, supports_tools: true,  input_per_mtok: 0.1, output_per_mtok: 0.1 }
classification:
  simple_text:       { min_tier: 1, expected_output_ratio: 1.0 }
  summarize:         { min_tier: 1 }
  code_review:       { min_tier: 3 }
  architecture:      { min_tier: 4 }
  private_sensitive: { min_tier: 1, local_only: true, expected_output_ratio: 1.0 }
projects:
  secure: { local_only: true }
"#;

fn plan_for(
    c: &Config,
    force_model: Option<&str>,
    task_key: &str,
    requires_tools: bool,
    input_tokens: u64,
    project: Option<&str>,
) -> Result<Plan, PlanError> {
    let s = Store::new();
    let est = estimates(c, &s, task_key, input_tokens, 0);
    let input = PlanInput {
        force_model,
        task_key,
        requires_tools,
        req_capabilities: &[],
        input_tokens,
        cached_prefix_tokens: 0,
        session: None,
        project,
        profile: Profile::Balanced,
    };
    build_plan(c, &Table::new(), &s, &mut SessionStore::default(), &input, &est)
}

#[test]
fn forced_cloud_model_rejected_for_private_sensitive() {
    let c = parse(FORCE);
    let err = plan_for(&c, Some("cloud-big"), "private_sensitive", false, 100, None).unwrap_err();
    assert_eq!(err.status(), 403, "got: {err:?}");
}

#[test]
fn forced_model_without_tool_support_rejected_when_tools_required() {
    let c = parse(FORCE);
    let err = plan_for(&c, Some("no-tools"), "simple_text", true, 100, None).unwrap_err();
    assert_eq!(err.status(), 400, "got: {err:?}");
}

#[test]
fn forced_model_with_insufficient_context_rejected() {
    let c = parse(FORCE);
    let err = plan_for(&c, Some("small-ctx"), "simple_text", false, 100_000, None).unwrap_err();
    assert_eq!(err.status(), 400, "got: {err:?}");
}

#[test]
fn forced_valid_model_passes_constraints() {
    let c = parse(FORCE);
    let plan = plan_for(&c, Some("cloud-big"), "simple_text", false, 100, None)
        .expect("gültiges erzwungenes Modell wird akzeptiert");
    assert_eq!(plan.chain.len(), 1);
    assert_eq!(plan.chain[0].model, "cloud-big");
    assert_eq!(plan.project, None);
}

#[test]
fn project_local_only_routes_dynamic_selection_to_local() {
    let c = parse(FORCE);
    let plan = plan_for(&c, None, "simple_text", false, 100, Some("secure"))
        .expect("local_only-Projekt hat einen gültigen lokalen Kandidaten");
    assert!(c.provider_is_local(&plan.chain[0].provider));
    assert_eq!(plan.chain[0].model, "local-small");
    assert_eq!(plan.project.as_deref(), Some("secure"));
}

#[test]
fn forced_cloud_model_rejected_by_project_local_only() {
    let c = parse(FORCE);
    let err = plan_for(&c, Some("cloud-big"), "simple_text", false, 100, Some("secure"))
        .unwrap_err();
    assert_eq!(err.status(), 403, "got: {err:?}");
}

#[test]
fn every_refusal_of_a_forced_model_has_its_text() {
    let c = parse(FORCE);
    let unknown = plan_for(&c, Some("ghost"), "simple_text", false, 100, None).unwrap_err();
    assert_eq!(unknown.status(), 400);
    assert_eq!(unknown.message("", ""), "erzwungenes Modell 'ghost' nicht im Katalog");

    let tools = plan_for(&c, Some("no-tools"), "simple_text", true, 100, None).unwrap_err();
    assert_eq!(
        tools.message("", ""),
        "erzwungenes Modell 'no-tools' bietet die geforderte Capability 'tools' nicht"
    );

    let local = plan_for(&c, Some("cloud-big"), "private_sensitive", false, 100, None).unwrap_err();
    assert_eq!(
        local.message("", ""),
        "erzwungenes Modell 'cloud-big' ist kein lokaler Provider — 'private_sensitive' (local_only) abgelehnt"
    );

    let context = plan_for(&c, Some("small-ctx"), "simple_text", false, 600, None).unwrap_err();
    assert_eq!(
        context.message("", ""),
        "erzwungenes Modell 'small-ctx': Kontextfenster 1000 < benötigt 1200"
    );

    let mut off = parse(FORCE);
    off.providers.insert(
        "cloud_p",
        ProviderConfig {
            enabled: false,
            base_url: "https://example.com/v1".into(),
            api_key_env: None,
            keys: Vec::new(),
            local: false,
            kind: ProviderKind::Openai,
            strip_params: Vec::new(),
            prompt_caching: false,
            cache_billed_fraction: default_cache_billed_fraction(),
        },
    );
    let ready = plan_for(&off, Some("cloud-big"), "simple_text", false, 100, None).unwrap_err();
    assert_eq!(
        ready.message("", ""),
        "erzwungenes Modell 'cloud-big': Provider 'cloud_p' nicht bereit oder kein nutzbarer Key"
    );

    let mut scoped = parse(FORCE);
    scoped.projects.insert(
        "open",
        ProjectProfile { forbid_providers: vec!["cloud_p".into()], ..Default::default() },
    );
    let scope = plan_for(&scoped, Some("cloud_p/cloud-big"), "simple_text", false, 100, Some("open"))
        .unwrap_err();
    assert_eq!(scope.status(), 403);
    assert_eq!(
        scope.message("", ""),
        "erzwungenes Modell 'cloud_p/cloud-big': Provider 'cloud_p' durch Projekt-Scope gesperrt"
    );

    let poor = parse(&format!("budgets:\n  daily_max_usd: 0.000001\n{FORCE}"));
    let over = plan_for(&poor, Some("cloud-big"), "simple_text", false, 100, None).unwrap_err();
    assert_eq!(over.status(), 402);
    assert!(matches!(over, PlanError::OverBudget { position: 2, .. }));
    assert_eq!(
        over.message("0.00020", "0.00000"),
        "erzwungenes Modell 'cloud-big': Schätzkosten 0.00020 USD über Restbudget 0.00000"
    );
}

#[test]
fn every_failure_to_choose_has_its_text() {
    let c = parse(FORCE);
    let task = plan_for(&c, None, "nope", false, 100, None).unwrap_err();
    assert_eq!(task.status(), 500);
    assert_eq!(task.message("", ""), "keine Regel für task_type 'nope'");

    let none = plan_for(&c, None, "simple_text", false, 100_000, None).unwrap_err();
    assert_eq!(none.status(), 502);
    assert_eq!(
        none.message("", ""),
        "kein passendes Modell verfügbar (task=simple_text caps=[] local_only=false ctx>=200000 tier∈[1..=255])"
    );

    let poor = parse(&format!("budgets:\n  daily_max_usd: 0.000001\n{FORCE}"));
    let budget = plan_for(&poor, None, "code_review", false, 100, None).unwrap_err();
    assert_eq!(budget.status(), 402);
    assert_eq!(budget.message("", ""), "Budgetlimit erreicht — kein Modell im Restbudget");
}

#[test]
fn models_answer_to_both_their_names() {
    let c = parse(FORCE);
    assert_eq!(find_model(&c, "cloud-big"), Some(2));
    assert_eq!(find_model(&c, "cloud_p/cloud-big"), Some(2));
    assert_eq!(find_model(&c, "local_p/cloud-big"), None);
}

const VALID: &str = r#"
server: { host: "127.0.0.1", port: 0 }
providers:
  local_p: { enabled: true, base_url: "http://localhost/v1", local: true }
  cloud_p: { enabled: true, base_url: "https://example.com/v1" }
models:
  - { provider: local_p, model: "local-small", tier: 1, context: 8000, supports_tools: true, input_per_mtok: 0.0, output_per_mtok: 0.0 }
  - { provider: cloud_p, model: "big",         tier: 5, context: 8000, supports_tools: true, input_per_mtok: 1.0, output_per_mtok: 1.0 }
classification:
  simple_text:       { min_tier: 1 }
  summarize:         { min_tier: 1 }
  code_review:       { min_tier: 3 }
  architecture:      { min_tier: 4 }
  private_sensitive: { min_tier: 1, local_only: true }
"#;

#[test]
fn valid_config_passes() {
    assert!(parse(VALID).validate().is_ok());
}

#[test]
fn rejects_unknown_provider_reference() {
    let yaml = VALID.replace("provider: cloud_p, model: \"big\"", "provider: ghost, model: \"big\"");
    let err = parse(&yaml).validate().unwrap_err();
    assert!(err.contains("unbekannten Provider 'ghost'"), "got: {err}");
}

#[test]
fn rejects_unknown_classification_key() {
    let yaml = VALID.replace("simple_text:       { min_tier: 1 }", "made_up:           { min_tier: 1 }");
    let err = parse(&yaml).validate().unwrap_err();
    assert!(err.contains("made_up"), "got: {err}");
    assert!(err.contains("simple_text"), "got: {err}");
}

#[test]
fn rejects_unsatisfiable_tier_floor() {
    let yaml = VALID.replace("tier: 5", "tier: 3");
    let err = parse(&yaml).validate().unwrap_err();
    assert!(err.contains("architecture") && err.contains("nicht erfüllbar"), "got: {err}");
}

#[test]
fn resolves_and_validates_aliases() {
    let yaml = format!("{VALID}aliases:\n  best: \"big\"\n  cheap: \"local-small\"\n");
    let cfg = parse(&yaml);
    assert!(cfg.validate().is_ok());
    assert_eq!(cfg.resolve_alias("best"), Some("big"));
    assert_eq!(cfg.resolve_alias("nope"), None);
}

#[test]
fn accepted_configurations_lead_everywhere() {
    let yaml = format!("{VALID}aliases:\n  best: \"cloud_p/big\"\n");
    let cfg = parse(&yaml);
    assert!(cfg.validate().is_ok());
    assert_eq!(find_model(&cfg, cfg.resolve_alias("best").unwrap()), Some(1));
    for key in TaskType::all_keys() {
        assert!(plan_for(&cfg, None, key.as_str(), false, 100, None).is_ok(), "{key}");
    }
}

#[test]
fn rejects_unknown_capability_name() {
    let yaml = VALID.replace(
        r#"supports_tools: true, input_per_mtok: 0.0, output_per_mtok: 0.0 }"#,
        r#"supports_tools: true, capabilities: ["telepathy"], input_per_mtok: 0.0, output_per_mtok: 0.0 }"#,
    );
    let err = parse(&yaml).validate().unwrap_err();
    assert!(err.contains("telepathy") && err.contains("unbekannte Capability"), "got: {err}");
}

#[test]
fn task_require_capability_satisfiable_and_unsatisfiable() {
    let ok = VALID
        .replace(
            r#"supports_tools: true, input_per_mtok: 1.0, output_per_mtok: 1.0 }"#,
            r#"supports_tools: true, capabilities: ["vision"], input_per_mtok: 1.0, output_per_mtok: 1.0 }"#,
        )
        .replace(
            "code_review:       { min_tier: 3 }",
            r#"code_review:       { min_tier: 3, require_capabilities: ["vision"] }"#,
        );
    assert!(parse(&ok).validate().is_ok());

    let bad = VALID.replace(
        "simple_text:       { min_tier: 1 }",
        r#"simple_text:       { min_tier: 1, require_capabilities: ["vision"] }"#,
    );
    let err = parse(&bad).validate().unwrap_err();
    assert!(err.contains("simple_text") && err.contains("nicht erfüllbar"), "got: {err}");
}

#[test]
fn rejects_alias_to_unknown_model() {
    let yaml = format!("{VALID}aliases:\n  best: \"ghost-model\"\n");
    let err = parse(&yaml).validate().unwrap_err();
    assert!(err.contains("Alias 'best'") && err.contains("ghost-model"), "got: {err}");
}

#[test]
fn rejects_a_project_with_an_unknown_provider() {
    let yaml = format!("{VALID}projects:\n  x: {{ require_providers: [\"ghost\"] }}\n");
    let err = parse(&yaml).validate().unwrap_err();
    assert_eq!(
        err,
        "Konfiguration ungültig:\n  - Projekt 'x' referenziert unbekannten Provider 'ghost'"
    );
}

#[test]
fn known_capabilities_are_known() {
    assert!(is_known_capability("tools"));
    assert!(is_known_capability("strict_tool_schema"));
    assert!(!is_known_capability("telepathy"));
    assert!(!is_known_capability("Tools"));
}

#[test]
fn profiles_are_parsed_in_any_case() {
    assert_eq!(Profile::parse("Interactive"), Some(Profile::Interactive));
    assert_eq!(Profile::parse("BALANCED"), Some(Profile::Balanced));
    assert_eq!(Profile::parse("batch"), Some(Profile::Batch));
    assert_eq!(Profile::parse("fast"), None);
}

const EVAL: &str = r#"
server: { host: "127.0.0.1", port: 0 }
privacy:
  block_cloud_patterns: ["sk-", "private_key"]
providers:
  local_p: { enabled: true, base_url: "http://localhost/v1", local: true }
  cloud_p: { enabled: true, base_url: "https://example.com/v1" }
models:
  - { provider: local_p, model: "local-small", tier: 1, context: 8000,    supports_tools: false, input_per_mtok: 0.0,  output_per_mtok: 0.0 }
  - { provider: cloud_p, model: "cheap",       tier: 1, context: 32000,   supports_tools: true,  input_per_mtok: 0.1,  output_per_mtok: 0.1 }
  - { provider: cloud_p, model: "mid",         tier: 3, context: 128000,  supports_tools: true,  input_per_mtok: 1.0,  output_per_mtok: 1.0 }
  - { provider: cloud_p, model: "big",         tier: 5, context: 200000,  supports_tools: true,  input_per_mtok: 10.0, output_per_mtok: 10.0 }
  - { provider: cloud_p, model: "long",        tier: 3, context: 2000000, supports_tools: true,  input_per_mtok: 2.0,  output_per_mtok: 2.0 }
classification:
  simple_text:       { min_tier: 1, expected_output_ratio: 1.0 }
  summarize:         { min_tier: 1, expected_output_ratio: 1.0 }
  code_review:       { min_tier: 3, expected_output_ratio: 1.0 }
  architecture:      { min_tier: 4, expected_output_ratio: 1.0 }
  private_sensitive: { min_tier: 1, local_only: true, expected_output_ratio: 1.0 }
"#;

fn said(content: &str) -> Json {
    let mut message = Json::object();
    message.set("role", Json::string("user"));
    message.set("content", Json::string(content));
    let mut body = Json::object();
    body.set("messages", Json::array(vec![message]));
    body
}

fn classify_body(cfg: &Config, body: &Json) -> TaskType {
    if privacy::request_is_sensitive(
        body,
        &cfg.privacy.block_cloud_patterns,
        cfg.privacy.scan_system,
    ) {
        TaskType::PrivateSensitive
    } else {
        classifier::classify(&api::extract_user_text(body, cfg.classifier.user_messages))
    }
}

#[test]
fn routing_fixtures_classify_and_select_as_expected() {
    let cfg = parse(EVAL);
    cfg.validate().expect("eval config must validate");
    let mut agent = said("Erledige die nächste Aufgabe.");
    agent.set(
        "tools",
        Json::parse(
            r#"[{ "type": "function", "function": { "name": "search", "description": "find things", "parameters": { "type": "object" } } }]"#,
        )
        .unwrap(),
    );
    let fixtures: Vec<(&str, Json, TaskType, bool, u8, &str)> = vec![
        ("simple short chat", said("Wie ist das Wetter heute?"), TaskType::SimpleText, false, 1, "local-small"),
        ("summarization", said("Fasse zusammen, worum es in diesem Text geht."), TaskType::Summarize, false, 1, "local-small"),
        ("code review", said("Bitte review this function und fixe den bug."), TaskType::CodeReview, false, 3, "mid"),
        ("architecture/design", said("Erkläre die Architektur und die Trade-offs dieses Systems."), TaskType::Architecture, false, 4, "big"),
        ("private/sensitive", said("Hier ist mein Token sk-abc123, bitte hilf mir."), TaskType::PrivateSensitive, false, 1, "local-small"),
        ("tool-using agent", agent, TaskType::SimpleText, true, 1, "cheap"),
        ("long-context", said(&"lorem ipsum dolor ".repeat(40_000)), TaskType::SimpleText, false, 1, "long"),
    ];
    for (name, body, task_type, tools, min_tier, model) in fixtures {
        let store = Store::new();
        let task = classify_body(&cfg, &body);
        let requires_tools = classifier::requires_tools(&body);
        assert_eq!(task, task_type, "[{name}] task_type");
        assert_eq!(requires_tools, tools, "[{name}] requires_tools");
        let rule = cfg.classification.get(task.as_key()).expect("rule");
        assert_eq!(rule.min_tier, min_tier, "[{name}] min_tier");
        let sel = pick(
            &cfg,
            &store,
            &SelectInput {
                cached_prefix_tokens: cost::estimate_cached_prefix_tokens(&body),
                ..input(task.as_key(), requires_tools, cost::estimate_request_tokens(&body))
            },
        )
        .unwrap_or_else(|e| panic!("[{name}] select fehlgeschlagen: {e:?}"));
        assert_eq!(sel.chain[0].model, model, "[{name}] gewähltes Modell");
        assert!(!sel.degraded, "[{name}] unerwartetes Budget-Downgrade");
    }
}

const EVAL_PRESSURE: &str = r#"
server: { host: "127.0.0.1", port: 0 }
budgets:
  daily_max_usd: 1.0
  pressure_downgrade:
    - { at: 0.5, max_tier: 2 }
providers:
  local_p: { enabled: true, base_url: "http://localhost/v1", local: true }
  cloud_p: { enabled: true, base_url: "https://example.com/v1" }
models:
  - { provider: local_p, model: "local-small", tier: 1, context: 8000,   supports_tools: false, input_per_mtok: 0.0, output_per_mtok: 0.0 }
  - { provider: cloud_p, model: "cheap",       tier: 1, context: 32000,  supports_tools: true,  input_per_mtok: 0.1, output_per_mtok: 0.1 }
  - { provider: cloud_p, model: "mid",         tier: 3, context: 128000, supports_tools: true,  input_per_mtok: 1.0, output_per_mtok: 1.0 }
  - { provider: cloud_p, model: "big",         tier: 5, context: 200000, supports_tools: true,  input_per_mtok: 10.0, output_per_mtok: 10.0 }
classification:
  simple_text:       { min_tier: 1, expected_output_ratio: 1.0 }
  summarize:         { min_tier: 1, expected_output_ratio: 1.0 }
  code_review:       { min_tier: 3, expected_output_ratio: 1.0 }
  architecture:      { min_tier: 4, expected_output_ratio: 1.0 }
  private_sensitive: { min_tier: 1, local_only: true, expected_output_ratio: 1.0 }
"#;

#[test]
fn budget_pressure_downgrades_selection() {
    let cfg = parse(EVAL_PRESSURE);
    let mut store = Store::new();
    spend(&mut store, 0.8);
    let body = said("review this function, fix the bug");
    let task = classify_body(&cfg, &body);
    assert_eq!(task, TaskType::CodeReview, "Vorbedingung: code_review");
    let sel = pick(
        &cfg,
        &store,
        &input(task.as_key(), false, cost::estimate_request_tokens(&body)),
    )
    .expect("unter Druck bleibt ein gültiges Tier-<=2-Modell");
    assert!(sel.degraded, "code_review muss unter Budgetdruck degradieren");
    assert!(sel.chain.iter().all(|m| m.tier <= 2), "Tier-Cap 2 verletzt");
}

/// A plugin that notes what it is asked to do.
struct Recorder {
    tag: char,
    halts: bool,
}

impl Plugin<Vec<String>, u16> for Recorder {
    // Only proofs speak of the two effects.
    fn pre_effect(&self, _: Vec<String>, _: Vec<String>, _: Option<u16>) -> bool {
        unreachable!()
    }

    fn post_effect(&self, _: Vec<String>, _: Vec<String>) -> bool {
        unreachable!()
    }

    fn pre(&self, state: &mut Vec<String>) -> Option<u16> {
        state.push(format!("pre:{}", self.tag));
        if self.halts {
            Some(200)
        } else {
            None
        }
    }

    fn post(&self, state: &mut Vec<String>) {
        state.push(format!("post:{}", self.tag));
    }
}

#[test]
fn plugin_pipeline_runs_pre_forward_post_reverse_and_halts() {
    let pipeline = PluginPipeline {
        plugins: vec![
            Recorder { tag: 'a', halts: false },
            Recorder { tag: 'b', halts: true },
            Recorder { tag: 'c', halts: false },
        ],
    };
    let mut log: Vec<String> = Vec::new();
    assert!(pipeline.run_pre(&mut log).is_some());
    pipeline.run_post::<Vec<String>, u16>(&mut log);
    assert_eq!(log, vec!["pre:a", "pre:b", "post:c", "post:b", "post:a"]);
}

const SERVING: &str = r#"
server: { host: "127.0.0.1", port: 0 }
auth: { llmux_key: "secret" }
cache: { enabled: true, ttl_seconds: 600, max_conversation_messages: 5, eviction_interval_seconds: 300 }
privacy:
  block_cloud_patterns: ["sk-"]
providers:
  mock:  { enabled: true, base_url: "http://mock", local: true }
  cloud: { enabled: true, base_url: "http://cloud/" }
  ant:   { enabled: false, base_url: "http://ant", kind: anthropic }
models:
  - { provider: mock,  model: "m1", tier: 1, context: 8000, supports_tools: true, input_per_mtok: 1.0, output_per_mtok: 1.0 }
  - { provider: cloud, model: "m2", tier: 1, context: 8000, supports_tools: true, input_per_mtok: 9.0, output_per_mtok: 9.0 }
  - { provider: ant,   model: "m3", tier: 1, context: 8000, supports_tools: true, input_per_mtok: 9.0, output_per_mtok: 9.0 }
aliases:
  best: "m2"
classification:
  simple_text:       { min_tier: 1 }
  summarize:         { min_tier: 1 }
  code_review:       { min_tier: 1 }
  architecture:      { min_tier: 1 }
  private_sensitive: { min_tier: 1, local_only: true }
"#;

fn headers(pairs: &[(&str, &str)]) -> Table<String> {
    let mut t = Table::new();
    t.insert("authorization", "Bearer secret".to_string());
    for (k, v) in pairs {
        t.insert(k, v.to_string());
    }
    t
}

fn planned(
    c: &Config,
    store: &mut Store,
    intake: &chat::Intake,
    task: TaskType,
) -> Result<Plan, chat::Refusal> {
    let est = estimates(c, store, task.as_key(), intake.input_tokens, intake.cached_prefix_tokens);
    let texts = est.costs.iter().map(|x| format!("{:.5}", float(*x))).collect();
    let rest = format!("{:.5}", float(remaining_budget(c, &est.spending)));
    chat::plan_request(
        c,
        &Table::new(),
        store,
        &mut SessionStore::default(),
        intake,
        task,
        &est,
        &texts,
        &rest,
        NOW,
    )
}

#[test]
fn a_caller_without_the_key_is_refused() {
    let c = parse(SERVING);
    let refusal = chat::read_request(&c, &Table::new(), said("hi")).unwrap_err();
    assert_eq!(refusal.status, 401);
    assert_eq!(refusal.message, "ungültiger oder fehlender API-Key");
    let mut wrong = Table::new();
    wrong.insert("authorization", "Bearer secreT".to_string());
    assert!(chat::read_request(&c, &wrong, said("hi")).is_err());
    assert!(chat::read_request(&c, &headers(&[]), said("hi")).is_ok());
}

#[test]
fn a_request_is_read_with_its_headers() {
    let c = parse(SERVING);
    let given = headers(&[
        ("x-llmux-tool", "aider"),
        ("x-llmux-session", "s"),
        ("x-llmux-project", "p"),
        ("x-llmux-profile", "Interactive"),
        ("x-llmux-no-cache", "yes"),
        ("x-llmux-no-fallback", "1"),
        ("x-llmux-max-cost", "0.05"),
        ("x-llmux-model", "best"),
    ]);
    let intake = chat::read_request(&c, &given, said("abcdefgh")).unwrap();
    assert_eq!(intake.tool, "aider");
    assert_eq!(intake.session.as_deref(), Some("s"));
    assert_eq!(intake.project.as_deref(), Some("p"));
    assert_eq!(intake.profile, Profile::Interactive);
    assert!(intake.no_cache && intake.no_fallback && !intake.is_stream && !intake.sensitive);
    assert_eq!(intake.max_cost.as_deref(), Some("0.05"));
    assert_eq!(intake.force_model.as_deref(), Some("m2"));
    assert_eq!(intake.input_tokens, 2);
    assert_eq!(intake.user_text, "abcdefgh\n");

    let plain = chat::read_request(&c, &headers(&[]), said("sk-1")).unwrap();
    assert_eq!(plain.tool, "unknown");
    assert_eq!(plain.profile, Profile::Balanced);
    assert_eq!(plain.force_model, None);
    assert!(plain.sensitive);
}

#[test]
fn model_alias_routes_to_configured_target() {
    let yaml = r#"
server: { host: "127.0.0.1", port: 0 }
providers:
  p: { enabled: true, base_url: "http://mock/" }
models:
  - { provider: p, model: "basic",   tier: 1, context: 8000, supports_tools: true, input_per_mtok: 0.1, output_per_mtok: 0.1 }
  - { provider: p, model: "premium", tier: 1, context: 8000, supports_tools: true, input_per_mtok: 9.0, output_per_mtok: 9.0 }
aliases:
  best: "premium"
classification:
  simple_text:       { min_tier: 1 }
  summarize:         { min_tier: 1 }
  code_review:       { min_tier: 1 }
  architecture:      { min_tier: 1 }
  private_sensitive: { min_tier: 1 }
"#;
    let c = parse(yaml);
    let mut body = said("hi");
    body.set("model", Json::string("best"));
    let intake = chat::read_request(&c, &Table::new(), body).unwrap();
    let mut store = Store::new();
    let plan = planned(&c, &mut store, &intake, TaskType::SimpleText).unwrap();
    let out = providers::prepare_request(&c, &plan.chain[0].target(), &intake.body, None).unwrap();
    assert_eq!(out.body.text_at("model"), Some("premium"), "Alias 'best' muss zu 'premium' routen");
    assert_eq!(out.url, "http://mock/chat/completions");

    let mut other = said("hi");
    other.set("model", Json::string("premium"));
    let free = chat::read_request(&c, &Table::new(), other).unwrap();
    assert_eq!(free.force_model, None);
}

#[test]
fn a_stream_is_asked_for_its_usage() {
    let c = parse(SERVING);
    let mut body = said("hi");
    body.set("stream", Json::Bool(true));
    let intake = chat::read_request(&c, &headers(&[]), body).unwrap();
    assert!(intake.is_stream);
    assert_eq!(
        intake.body.get("stream_options").unwrap().get("include_usage").unwrap().as_bool(),
        Some(true)
    );
}

#[test]
fn privacy_comes_before_classification_and_forcing() {
    let c = parse(SERVING);
    let answer = Json::parse(r#"{"choices":[{"message":{"content":"architecture"}}]}"#).unwrap();
    let given = headers(&[("x-llmux-model", "m2")]);
    let intake = chat::read_request(&c, &given, said("my key is sk-123")).unwrap();
    let task = chat::decide_task(&c, &intake, Some(&answer));
    assert_eq!(task, TaskType::PrivateSensitive);
    let mut store = Store::new();
    let refusal = planned(&c, &mut store, &intake, task).unwrap_err();
    assert_eq!(refusal.status, 403);
    assert_eq!(store.rows.len(), 1);
    let row = &store.rows[0];
    assert_eq!(row.log.status, 403);
    assert_eq!(row.log.error.as_deref(), Some(refusal.message.as_str()));
    assert!(row.log.forced);
    assert_eq!(row.policy_result.as_deref(), Some("rejected"));

    let free = chat::read_request(&c, &headers(&[]), said("my key is sk-123")).unwrap();
    let plan = planned(&c, &mut store, &free, TaskType::PrivateSensitive).unwrap();
    assert!(plan.chain.iter().all(|m| c.provider_is_local(&m.provider)));
    assert_eq!(store.rows.len(), 1);
}

#[test]
fn without_fallback_one_model_is_tried() {
    let c = parse(SERVING);
    let mut store = Store::new();
    let all = chat::read_request(&c, &headers(&[]), said("hi")).unwrap();
    assert_eq!(planned(&c, &mut store, &all, TaskType::SimpleText).unwrap().chain.len(), 2);
    let one = chat::read_request(&c, &headers(&[("x-llmux-no-fallback", "true")]), said("hi")).unwrap();
    let plan = planned(&c, &mut store, &one, TaskType::SimpleText).unwrap();
    assert_eq!(plan.chain.len(), 1);
    assert_eq!(plan.chain[0].model, "m1");
}

#[test]
fn a_stream_from_a_native_anthropic_provider_is_refused() {
    let mut c = parse(SERVING);
    c.providers.insert(
        "ant",
        ProviderConfig {
            enabled: true,
            base_url: "http://ant".into(),
            api_key_env: None,
            keys: Vec::new(),
            local: false,
            kind: ProviderKind::Anthropic,
            strip_params: Vec::new(),
            prompt_caching: false,
            cache_billed_fraction: default_cache_billed_fraction(),
        },
    );
    let mut body = said("hi");
    body.set("stream", Json::Bool(true));
    let intake = chat::read_request(&c, &headers(&[("x-llmux-model", "m3")]), body).unwrap();
    let mut store = Store::new();
    let refusal = planned(&c, &mut store, &intake, TaskType::SimpleText).unwrap_err();
    assert_eq!(refusal.status, 400);
    assert_eq!(
        refusal.message,
        "Streaming wird für native Anthropic-Provider noch nicht unterstützt"
    );
    assert_eq!(store.rows.len(), 1);
}

#[test]
fn over_budget_refusals_name_the_estimate() {
    let c = parse(&format!("budgets:\n  daily_max_usd: 0.000001\n{SERVING}"));
    let intake = chat::read_request(&c, &headers(&[("x-llmux-model", "m2")]), said("abcdefgh")).unwrap();
    let mut store = Store::new();
    let refusal = planned(&c, &mut store, &intake, TaskType::SimpleText).unwrap_err();
    assert_eq!(refusal.status, 402);
    assert_eq!(
        refusal.message,
        "erzwungenes Modell 'm2': Schätzkosten 0.00004 USD über Restbudget 0.00000"
    );
}

fn context(
    c: &Config,
    intake: &chat::Intake,
    plan: &Plan,
    max_cost: Option<pipeline::CostCap>,
    now: u128,
) -> pipeline::PluginCtx {
    let key = chat::cache_key_for(c, intake, &plan.chain[0]);
    chat::context_for(
        c,
        intake,
        TaskType::SimpleText,
        plan,
        &plan.chain[0],
        &key,
        None,
        max_cost,
        7,
        now,
    )
}

#[test]
fn a_request_over_its_cost_limit_is_refused_before_the_cache() {
    let c = parse(SERVING);
    let mut store = Store::new();
    let intake = chat::read_request(&c, &headers(&[]), said("hi")).unwrap();
    let plan = planned(&c, &mut store, &intake, TaskType::SimpleText).unwrap();
    let cap = pipeline::CostCap {
        cap: double(0.00001),
        estimate: double(0.5),
        cap_text: "0.00001".into(),
        estimate_text: "0.50000".into(),
    };
    let ctx = context(&c, &intake, &plan, Some(cap), NOW);
    match pipeline::before_forwarding(&ctx, &mut store) {
        Some(Halt::OverCost { message }) => {
            assert_eq!(message, "Schätzkosten 0.50000 USD über max-cost 0.00001")
        }
        other => panic!("unexpected: {other:?}"),
    }
    let row = store.rows.last().unwrap();
    assert_eq!(row.log.status, 402);
    assert_eq!(row.log.estimated_tokens, intake.input_tokens);
    let fine = pipeline::CostCap {
        cap: double(0.5),
        estimate: double(0.5),
        cap_text: String::new(),
        estimate_text: String::new(),
    };
    let ctx = context(&c, &intake, &plan, Some(fine), NOW);
    assert!(pipeline::before_forwarding(&ctx, &mut store).is_none());
}

fn started(plan: &Plan) -> Run {
    let (mut run, _) = Run::begin(&plan.chain, 0);
    run.advance(&plan.chain, Event::Keys(1));
    run.advance(
        &plan.chain,
        Event::Answer { status: 200, reason: "200 OK".into(), detail: String::new() },
    );
    run
}

#[test]
fn streaming_logs_real_usage_and_serves_from_cache() {
    let c = parse(SERVING);
    let sse = "data: {\"choices\":[{\"delta\":{\"content\":\"hi\"}}]}\n\n\
        data: {\"choices\":[{\"delta\":{},\"finish_reason\":\"stop\"}]}\n\n\
        data: {\"choices\":[],\"usage\":{\"prompt_tokens\":11,\"completion_tokens\":5}}\n\n\
        data: [DONE]\n\n";
    let mut store = Store::new();
    let mut body = said("hello");
    body.set("stream", Json::Bool(true));
    let intake = chat::read_request(&c, &headers(&[]), body).unwrap();
    let plan = planned(&c, &mut store, &intake, TaskType::SimpleText).unwrap();
    let ctx = context(&c, &intake, &plan, None, NOW);
    assert!(ctx.cache_key.as_deref().unwrap().ends_with("#stream"));
    assert!(pipeline::before_forwarding(&ctx, &mut store).is_none());

    let run = started(&plan);
    let reply = chat::read_stream(&sse.as_bytes().to_vec(), intake.input_tokens, None);
    let entry = &plan.chain[0];
    let billed = est_cost(entry, reply.prompt_tokens, reply.completion_tokens);
    let out = chat::outcome_for(&reply, &intake, &plan, entry, &run, double(0.0), double(billed));
    pipeline::after_forwarding(&ctx, &out, &mut store);

    let (status, pt, ct, cost, cache_hit) = store.last_request().unwrap();
    assert_eq!((status, pt, ct, cache_hit), (200, 11, 5, false));
    assert!(float(cost) > 0.0, "real_cost_usd muss > 0 sein");

    let again = context(&c, &intake, &plan, None, NOW + 599 * SECOND);
    match pipeline::before_forwarding(&again, &mut store) {
        Some(Halt::CachedStream { body }) => assert_eq!(body, sse),
        other => panic!("unexpected: {other:?}"),
    }
    let (status, pt, ct, cost, cache_hit) = store.last_request().unwrap();
    assert_eq!((status, pt, ct, cache_hit), (200, 11, 5, true));
    assert_eq!(float(cost), 0.0);

    let late = context(&c, &intake, &plan, None, NOW + 600 * SECOND);
    assert!(pipeline::before_forwarding(&late, &mut store).is_none());
}

#[test]
fn an_answer_is_kept_and_replayed() {
    let c = parse(SERVING);
    let mut store = Store::new();
    let intake = chat::read_request(&c, &headers(&[]), said("hello")).unwrap();
    let plan = planned(&c, &mut store, &intake, TaskType::SimpleText).unwrap();
    let ctx = context(&c, &intake, &plan, None, NOW);
    let answer = r#"{"choices":[{"finish_reason":"stop","index":0,"message":{"content":"ok","role":"assistant"}}],"id":"x","usage":{"completion_tokens":2,"prompt_tokens":3}}"#;
    let (payload, reply) = chat::read_reply(
        ProviderKind::Openai,
        Json::parse(answer).unwrap(),
        0,
        200,
        intake.input_tokens,
    );
    assert_eq!(payload.text(), answer);
    assert_eq!((reply.prompt_tokens, reply.completion_tokens), (3, 2));
    assert_eq!(reply.stop_reason.as_deref(), Some("stop"));
    assert!(!reply.tool_call_present);
    let run = started(&plan);
    let out = chat::outcome_for(&reply, &intake, &plan, &plan.chain[0], &run, double(0.1), double(0.2));
    assert_eq!(out.attempts, 1);
    assert_eq!(
        out.attempt_trail.as_deref(),
        Some(r#"[{"key":0,"model":"m1","provider":"mock","status":200}]"#)
    );
    assert!(!out.used_fallback);
    pipeline::after_forwarding(&ctx, &out, &mut store);
    let row = store.rows.last().unwrap();
    assert_eq!(row.log.latency_ms, 7);
    assert_eq!(float(row.log.estimated_cost_usd), 0.1);
    assert_eq!(float(row.log.real_cost_usd), 0.2);
    assert_eq!(store.cache.len(), 1);
    let halt = pipeline::before_forwarding(&ctx, &mut store).unwrap();
    assert_eq!(halt.status(), 200);
    assert_eq!(halt.headers(), vec![("x-llmux-cache", "hit")]);
    match halt {
        Halt::Cached { payload } => assert_eq!(payload.text(), answer),
        other => panic!("unexpected: {other:?}"),
    }
    assert_eq!(store.cache[0].hits, 1);
    let row = store.rows.last().unwrap();
    assert!(row.log.cache_hit);
    assert_eq!(float(row.log.real_cost_usd), 0.0);
    assert_eq!((row.log.prompt_tokens, row.log.completion_tokens), (3, 2));
    assert_eq!(row.policy_result.as_deref(), Some("cached"));
}

#[test]
fn a_broken_stream_is_recorded_but_not_kept() {
    let c = parse(SERVING);
    let mut store = Store::new();
    let mut body = said("hello");
    body.set("stream", Json::Bool(true));
    let intake = chat::read_request(&c, &headers(&[]), body).unwrap();
    let plan = planned(&c, &mut store, &intake, TaskType::SimpleText).unwrap();
    let ctx = context(&c, &intake, &plan, None, NOW);
    let reply = chat::read_stream(&b"data: {".to_vec(), 5, Some("reset".into()));
    assert_eq!(reply.status, 502);
    assert_eq!((reply.prompt_tokens, reply.completion_tokens), (5, 0));
    let run = started(&plan);
    let out = chat::outcome_for(&reply, &intake, &plan, &plan.chain[0], &run, double(0.0), double(0.0));
    pipeline::after_forwarding(&ctx, &out, &mut store);
    assert!(store.cache.is_empty());
    assert_eq!(store.rows.last().unwrap().log.error.as_deref(), Some("reset"));
}

#[test]
fn kept_answers_go_to_the_semantic_cache_too() {
    let c = parse(SERVING);
    let mut store = Store::new();
    let intake = chat::read_request(&c, &headers(&[]), said("hello")).unwrap();
    let plan = planned(&c, &mut store, &intake, TaskType::SimpleText).unwrap();
    let key = chat::cache_key_for(&c, &intake, &plan.chain[0]);
    let entry = pipeline::SemanticEntry {
        scope: "mock/m1".into(),
        embedding: vec![1.0f32.to_bits(), 0.0f32.to_bits()],
    };
    let ctx = chat::context_for(
        &c,
        &intake,
        TaskType::SimpleText,
        &plan,
        &plan.chain[0],
        &key,
        Some(entry),
        None,
        1,
        NOW,
    );
    let out = PluginOutcome {
        status: 200,
        used_fallback: false,
        degraded: false,
        estimated_tokens: 0,
        prompt_tokens: 0,
        completion_tokens: 0,
        estimated_cost_usd: double(0.0),
        real_cost_usd: double(0.0),
        attempts: 1,
        attempt_trail: None,
        stop_reason: None,
        error: None,
        tool_call_present: false,
        body: Some("{}".into()),
    };
    pipeline::after_forwarding(&ctx, &out, &mut store);
    assert_eq!(store.semantic.len(), 1);
    assert_eq!(store.semantic[0].scope, "mock/m1");
    assert_eq!(store.semantic[0].embedding, vec![1.0f32.to_bits(), 0.0f32.to_bits()]);
}

#[test]
fn unreadable_cached_answers_become_empty_objects() {
    let c = parse(SERVING);
    let mut store = Store::new();
    let intake = chat::read_request(&c, &headers(&[]), said("hello")).unwrap();
    let plan = planned(&c, &mut store, &intake, TaskType::SimpleText).unwrap();
    let ctx = context(&c, &intake, &plan, None, NOW);
    let payload = pipeline::cache_hit_response(&ctx, "not json", &mut store);
    assert_eq!(payload.text(), "{}");
    assert_eq!(store.rows.last().unwrap().log.prompt_tokens, 0);
}

#[test]
fn caching_can_be_declined() {
    let c = parse(SERVING);
    let mut store = Store::new();
    let intake = chat::read_request(&c, &headers(&[("x-llmux-no-cache", "1")]), said("hi")).unwrap();
    let plan = planned(&c, &mut store, &intake, TaskType::SimpleText).unwrap();
    assert_eq!(chat::cache_key_for(&c, &intake, &plan.chain[0]), None);
    let mut off = parse(SERVING);
    off.cache.enabled = false;
    let plain = chat::read_request(&off, &headers(&[]), said("hi")).unwrap();
    assert_eq!(chat::cache_key_for(&off, &plain, &plan.chain[0]), None);
    let mut short = parse(SERVING);
    short.cache.max_conversation_messages = 0;
    assert_eq!(chat::cache_key_for(&short, &plain, &plan.chain[0]), None);
    assert!(chat::cache_key_for(&c, &plain, &plan.chain[0]).is_some());
}

#[test]
fn similarity_is_looked_up_only_where_it_is_configured() {
    let mut c = parse(SERVING);
    let intake = chat::read_request(&c, &headers(&[]), said("hello")).unwrap();
    assert!(chat::semantic_lookup(&c, &intake).is_none());
    c.cache.semantic = Some(SemanticCacheConfig {
        enabled: true,
        base_url: "http://e".into(),
        model: "e".into(),
        api_key_env: None,
        timeout_ms: 2000,
        threshold: double(0.85),
    });
    let (s, t) = chat::semantic_lookup(&c, &intake).unwrap();
    assert_eq!(s.model, "e");
    assert_eq!(t, "hello\n");
    let mut body = said("hello");
    body.set("stream", Json::Bool(true));
    let streamed = chat::read_request(&c, &headers(&[]), body).unwrap();
    assert!(chat::semantic_lookup(&c, &streamed).is_none());
    c.cache.semantic.as_mut().unwrap().enabled = false;
    assert!(chat::semantic_lookup(&c, &intake).is_none());
}

#[test]
fn refusals_of_a_model_are_passed_on_and_recorded() {
    let c = parse(SERVING);
    let mut store = Store::new();
    let intake = chat::read_request(&c, &headers(&[]), said("hi")).unwrap();
    let plan = planned(&c, &mut store, &intake, TaskType::SimpleText).unwrap();
    let (mut run, first) = Run::begin(&plan.chain, 2);
    assert_eq!(first, Step::FindKeys { model: 0 });
    assert_eq!(run.advance(&plan.chain, Event::Keys(1)), Step::Send { model: 0, key: 0 });
    let step = run.advance(
        &plan.chain,
        Event::Answer { status: 422, reason: "422 Unprocessable Entity".into(), detail: "no".into() },
    );
    assert_eq!(step, Step::Refused { model: 0, status: 422 });
    let refusal = chat::pass_on_refusal(
        &intake,
        TaskType::SimpleText,
        &plan,
        &run,
        &plan.chain[0],
        422,
        &mut store,
        NOW,
    );
    assert_eq!(refusal.status, 422);
    assert_eq!(refusal.message, "422 Unprocessable Entity: no");
    let log = &store.rows.last().unwrap().log;
    assert_eq!((log.model.as_str(), log.provider.as_str()), ("m1", "mock"));
    assert_eq!(log.attempts, 1);
    assert_eq!(
        log.attempt_trail.as_deref(),
        Some(r#"[{"error":"no","key":0,"model":"m1","provider":"mock","status":422}]"#)
    );
}

#[test]
fn exhausted_chains_are_answered_and_recorded() {
    let c = parse(SERVING);
    let mut store = Store::new();
    let intake = chat::read_request(&c, &headers(&[]), said("hi")).unwrap();
    let plan = planned(&c, &mut store, &intake, TaskType::SimpleText).unwrap();
    let (mut run, _) = Run::begin(&plan.chain, 0);
    assert_eq!(run.advance(&plan.chain, Event::Keys(0)), Step::FindKeys { model: 1 });
    assert_eq!(run.advance(&plan.chain, Event::Keys(1)), Step::Send { model: 1, key: 0 });
    assert_eq!(run.advance(&plan.chain, Event::Silence("timeout".into())), Step::Exhausted);
    let refusal = chat::give_up(&intake, TaskType::SimpleText, &plan, &run, &mut store, NOW);
    assert_eq!(refusal.status, 502);
    assert_eq!(refusal.message, "alle Modelle fehlgeschlagen: timeout");
    let log = &store.rows.last().unwrap().log;
    assert_eq!(log.status, 502);
    assert_eq!(log.model, "");
    assert_eq!(log.error.as_deref(), Some("timeout"));
    assert_eq!(
        log.attempt_trail.as_deref(),
        Some(
            r#"[{"error":"kein nutzbarer API-Key für Provider 'mock'","model":"m1","provider":"mock"},{"error":"timeout","key":0,"model":"m2","provider":"cloud"}]"#
        )
    );
}

#[test]
fn unreadable_answers_are_recorded() {
    let c = parse(SERVING);
    let mut store = Store::new();
    let intake = chat::read_request(&c, &headers(&[]), said("hi")).unwrap();
    let plan = planned(&c, &mut store, &intake, TaskType::SimpleText).unwrap();
    let run = started(&plan);
    let refusal = chat::unreadable_reply(
        &intake,
        TaskType::SimpleText,
        &plan,
        &run,
        &plan.chain[1],
        "eof",
        &mut store,
        NOW,
    );
    assert_eq!(refusal.status, 502);
    assert_eq!(refusal.message, "Antwort des Providers nicht lesbar: eof");
    assert_eq!(store.rows.len(), 1);
    let row = &store.rows[0];
    assert_eq!(row.log.status, 502);
    assert_eq!(row.log.model, plan.chain[1].model);
    assert!(row.log.used_fallback);
    assert_eq!(row.log.error.as_deref(), Some("Antwort des Providers nicht lesbar: eof"));
    assert_eq!(row.policy_result.as_deref(), Some("rejected"));
}

#[test]
fn sensitive_texts_are_shown_to_no_helper() {
    let mut c = parse(SERVING);
    c.cache.semantic = Some(SemanticCacheConfig {
        enabled: true,
        base_url: "http://e".into(),
        model: "e".into(),
        api_key_env: None,
        timeout_ms: 2000,
        threshold: double(0.85),
    });
    c.classifier.llm = Some(LlmClassifierConfig {
        enabled: true,
        base_url: "http://c/".into(),
        model: "small".into(),
        api_key_env: None,
        timeout_ms: 1000,
    });
    let plain = chat::read_request(&c, &headers(&[]), said("hello")).unwrap();
    let (url, question) = chat::classifier_request(&c, &plain).unwrap();
    assert_eq!(url, "http://c/chat/completions");
    assert_eq!(question.text_at("model"), Some("small"));
    assert!(chat::semantic_lookup(&c, &plain).is_some());

    let private = chat::read_request(&c, &headers(&[]), said("my key is sk-123")).unwrap();
    assert!(chat::classifier_request(&c, &private).is_none());
    assert!(chat::semantic_lookup(&c, &private).is_none());

    c.classifier.llm.as_mut().unwrap().enabled = false;
    assert!(chat::classifier_request(&c, &plain).is_none());
}

#[test]
fn private_requests_stay_local_whatever_the_rule_says() {
    let c = parse(&FORCE.replace(
        "private_sensitive: { min_tier: 1, local_only: true, expected_output_ratio: 1.0 }",
        "private_sensitive: { min_tier: 1, expected_output_ratio: 1.0 }",
    ));
    let plan = plan_for(&c, None, "private_sensitive", false, 100, None).unwrap();
    assert!(plan.chain.iter().all(|m| c.provider_is_local(&m.provider)));
    let forced = plan_for(&c, Some("cloud-big"), "private_sensitive", false, 100, None);
    assert_eq!(forced.unwrap_err().status(), 403);
}

#[test]
fn a_forced_model_below_the_tier_of_the_project_is_refused() {
    let mut c = parse(FORCE);
    c.projects.insert("q", ProjectProfile { min_tier: Some(3), ..Default::default() });
    let low = plan_for(&c, Some("local-small"), "simple_text", false, 100, Some("q")).unwrap_err();
    assert_eq!(low.status(), 403);
    assert_eq!(
        low.message("", ""),
        "erzwungenes Modell 'local-small': Tier 1 < min_tier 3 des Projekts"
    );
    assert!(plan_for(&c, Some("cloud-big"), "simple_text", false, 100, Some("q")).is_ok());
}

#[test]
fn dead_key_rotates_instead_of_failing() {
    let yaml = r#"
server: { host: "127.0.0.1", port: 0 }
retry: { max_retries: 0, backoff_initial_ms: 1, backoff_max_ms: 1 }
providers:
  p:
    enabled: true
    base_url: "http://mock"
    keys:
      - { env: "LLMUX_TEST_KEY_A", weight: 1.0 }
      - { env: "LLMUX_TEST_KEY_B", weight: 1.0 }
models:
  - { provider: p, model: "m1", tier: 1, context: 8000, supports_tools: true, input_per_mtok: 0.0, output_per_mtok: 0.0 }
classification:
  simple_text:       { min_tier: 1 }
  summarize:         { min_tier: 1 }
  code_review:       { min_tier: 1 }
  architecture:      { min_tier: 1 }
  private_sensitive: { min_tier: 1 }
"#;
    let c = parse(yaml);
    let mut env = Table::new();
    env.insert("LLMUX_TEST_KEY_A", "dead".to_string());
    env.insert("LLMUX_TEST_KEY_B", "good".to_string());
    let keys = providers::resolve_keys(c.providers.get("p").unwrap(), "m1", &env);
    assert_eq!(keys.len(), 2);
    let store = Store::new();
    let sel = pick_in(
        &c,
        &env,
        &store,
        &mut SessionStore::default(),
        &input("simple_text", false, 1),
    )
    .unwrap();
    let (mut run, _) = Run::begin(&sel.chain, c.retry.max_retries);
    assert_eq!(run.advance(&sel.chain, Event::Keys(keys.len())), Step::Send { model: 0, key: 0 });
    let dead = Event::Answer {
        status: 401,
        reason: "401 Unauthorized".into(),
        detail: "dead key".into(),
    };
    assert_eq!(run.advance(&sel.chain, dead), Step::Send { model: 0, key: 1 });
    let good = Event::Answer { status: 200, reason: "200 OK".into(), detail: String::new() };
    assert_eq!(run.advance(&sel.chain, good), Step::Succeeded { model: 0 });
    assert_eq!(run.attempts, 2, "erst 401, dann rotierter 200");
}

#[test]
fn unsupported_params_are_stripped() {
    let yaml = r#"
server: { host: "127.0.0.1", port: 0 }
providers:
  p: { enabled: true, base_url: "http://mock", strip_params: ["logit_bias"] }
models:
  - { provider: p, model: "m1", tier: 1, context: 8000, supports_tools: true, input_per_mtok: 0.0, output_per_mtok: 0.0, strip_params: ["frequency_penalty"] }
classification:
  simple_text:       { min_tier: 1 }
  summarize:         { min_tier: 1 }
  code_review:       { min_tier: 1 }
  architecture:      { min_tier: 1 }
  private_sensitive: { min_tier: 1 }
"#;
    let c = parse(yaml);
    let body = Json::parse(
        r#"{
            "messages": [{ "role": "user", "content": "hi" }],
            "frequency_penalty": 0.5,
            "logit_bias": { "50256": -100 },
            "temperature": 0.2
        }"#,
    )
    .unwrap();
    let out = providers::prepare_request(&c, &c.models[0].target(), &body, Some("k")).unwrap();
    assert!(out.body.get("frequency_penalty").is_none(), "frequency_penalty muss entfernt sein");
    assert!(out.body.get("logit_bias").is_none(), "logit_bias muss entfernt sein");
    assert_eq!(out.body.get("temperature").unwrap().text(), "0.2");
    assert!(matches!(out.auth, Auth::Bearer(k) if k == "k"));
    assert_eq!(out.url, "http://mock/chat/completions");
}

#[test]
fn tools_are_passed_through_unchanged() {
    let c = cfg("");
    let tools = r#"[{"function":{"name":"search","parameters":{"type":"object"}},"type":"function"}]"#;
    let body = Json::parse(&format!("{{\"model\":\"any\",\"tools\":{tools}}}")).unwrap();
    let out = providers::prepare_request(&c, &c.models[1].target(), &body, None).unwrap();
    assert_eq!(out.body.get("tools").unwrap().text(), tools);
    assert_eq!(out.body.text_at("model"), Some("cheap"));
}

#[test]
fn anthropic_provider_translates_request_and_response() {
    let yaml = r#"
server: { host: "127.0.0.1", port: 0 }
providers:
  anthropic: { enabled: true, kind: anthropic, base_url: "http://mock", api_key_env: "LLMUX_TEST_ANTHROPIC_KEY" }
models:
  - { provider: anthropic, model: "model-mock", tier: 1, context: 200000, supports_tools: true, input_per_mtok: 3.0, output_per_mtok: 15.0 }
classification:
  simple_text:       { min_tier: 1 }
  summarize:         { min_tier: 1 }
  code_review:       { min_tier: 1 }
  architecture:      { min_tier: 1 }
  private_sensitive: { min_tier: 1 }
"#;
    let c = parse(yaml);
    let body = Json::parse(
        r#"{
            "messages": [
                { "role": "system", "content": "Du bist hilfreich." },
                { "role": "user", "content": "Hallo" }
            ]
        }"#,
    )
    .unwrap();
    let sent = providers::prepare_request(&c, &c.models[0].target(), &body, Some("sk-test")).unwrap();
    assert_eq!(sent.url, "http://mock/messages");
    assert!(matches!(sent.auth, Auth::ApiKey(k) if k == "sk-test"));
    assert_eq!(sent.body.text_at("system"), Some("Du bist hilfreich."));
    assert!(sent.body.uint_at("max_tokens").unwrap() > 0);
    assert_eq!(sent.body.array_at("messages").unwrap()[0].text_at("role"), Some("user"));

    let answer = Json::parse(
        r#"{
            "id": "msg_abc",
            "type": "message",
            "role": "assistant",
            "model": "model-mock",
            "stop_reason": "end_turn",
            "content": [{ "type": "text", "text": "Hallo!" }],
            "usage": { "input_tokens": 9, "output_tokens": 4 }
        }"#,
    )
    .unwrap();
    let (out, reply) = chat::read_reply(ProviderKind::Anthropic, answer, 0, 200, 1);
    assert_eq!(out.text_at("object"), Some("chat.completion"));
    let choice = &out.array_at("choices").unwrap()[0];
    assert_eq!(choice.get("message").unwrap().text_at("content"), Some("Hallo!"));
    assert_eq!(choice.text_at("finish_reason"), Some("stop"));
    assert_eq!(out.get("usage").unwrap().uint_at("prompt_tokens"), Some(9));
    assert_eq!(out.get("usage").unwrap().uint_at("completion_tokens"), Some(4));
    assert_eq!((reply.prompt_tokens, reply.completion_tokens), (9, 4));

    let missing = providers::prepare_request(&c, &c.models[0].target(), &body, None).unwrap_err();
    assert_eq!(missing.message(), "API-Key env 'anthropic api_key' nicht gesetzt");
    let ghost = llmux::config::Target { provider: "ghost".into(), model: "m".into() };
    let gone = providers::prepare_request(&c, &ghost, &body, None).unwrap_err();
    assert_eq!(gone.message(), "provider 'ghost' nicht konfiguriert oder deaktiviert");
}
