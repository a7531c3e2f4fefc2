//! Serving a chat request: what it asks for, its plan, and how its end is answered and recorded.
use vstd::prelude::*;
use vstd::string::*;
use crate::classifier::TaskType;
use crate::config::{Config, ModelEntry, ModelView, Profile, ProviderKind, SemanticCacheConfig};
use crate::float::Real;
use crate::json::{JVal, Json};
use crate::logging::{LogView, RequestLog, Store};
use crate::pipeline::{CostCap, PluginCtx, PluginOutcome, SemanticEntry};
use crate::plan::{Plan, PlanError, PlanInput};
use crate::retry::Run;
use crate::router::{Estimates, SessionStore};
use crate::table::Table;
use crate::{api, cache, classifier, cost, json, logging, pipeline, plan, privacy, providers, retry, router, stream, text};

verus! {

/// What a request asks for.
#[derive(Debug)]
pub struct Intake {
    /// The tool that sends the request.
    pub tool: String,
    pub session: Option<String>,
    pub project: Option<String>,
    pub profile: Profile,
    pub is_stream: bool,
    /// The model that the caller forces.
    pub force_model: Option<String>,
    pub no_cache: bool,
    pub no_fallback: bool,
    /// The limit on the cost, as the caller wrote it.
    pub max_cost: Option<String>,
    /// The request as it is sent on.
    pub body: Json,
    pub input_tokens: u64,
    pub cached_prefix_tokens: u64,
    pub requires_tools: bool,
    pub req_capabilities: Vec<String>,
    /// The request holds something that must not leave for a cloud.
    pub sensitive: bool,
    /// The text that decides the task type.
    pub user_text: String,
}

/// How a request is answered that is not served.
#[derive(Debug)]
pub struct Refusal {
    pub status: u16,
    pub message: String,
}

/// Whether an answer is wanted as a stream.
pub open spec fn wants_stream(body: JVal) -> bool {
    body.at("stream"@).truth() == Some(true)
}

/// The request as it is sent on: a stream is asked for its usage.
pub open spec fn sent_body(body: JVal) -> JVal {
    if wants_stream(body) {
        body.with(
            "stream_options"@,
            JVal::empty_object().with("include_usage"@, JVal::Bool(true)),
        )
    } else {
        body
    }
}

/// The model that an alias stands for.
pub open spec fn alias(cfg: Config, name: Seq<char>) -> Option<Seq<char>> {
    text::optional(cfg.aliases.at(name))
}

/// The model that a caller forces: the one in the header, which may be an alias, or else an
/// alias in the request. A model in the request that is no alias forces nothing.
pub open spec fn forced_name(cfg: Config, headers: Table<String>, body: JVal) -> Option<Seq<char>> {
    match headers.at("x-llmux-model"@) {
        Some(m) => match alias(cfg, m@) {
            Some(a) => Some(a),
            None => Some(m@),
        },
        None => match body.text_at("model"@) {
            Some(m) => alias(cfg, m),
            None => None,
        },
    }
}

/// The profile of a request: the one that it names, or else the configured one.
pub open spec fn profile_of(cfg: Config, headers: Table<String>) -> Profile {
    match headers.at("x-llmux-profile"@) {
        Some(p) => match Profile::named(text::ascii_lower(p@)) {
            Some(x) => x,
            None => cfg.routing.default_profile,
        },
        None => cfg.routing.default_profile,
    }
}

/// Whether a request holds something that must not leave for a cloud.
pub open spec fn is_sensitive(cfg: Config, body: JVal) -> bool {
    text::mentions(
        text::lowercase(privacy::surface(body, cfg.privacy.scan_system)),
        privacy::lowered(cfg.privacy.block_cloud_patterns@),
    )
}

/// What a request asks for.
pub open spec fn asks(cfg: Config, headers: Table<String>, body: JVal, r: Intake) -> bool {
    let sent = sent_body(body);
    &&& r.tool@ == (match headers.at("x-llmux-tool"@) {
        Some(t) => t@,
        None => "unknown"@,
    })
    &&& text::optional(r.session) == text::optional(headers.at("x-llmux-session"@))
    &&& text::optional(r.project) == text::optional(headers.at("x-llmux-project"@))
    &&& r.profile == profile_of(cfg, headers)
    &&& r.is_stream == wants_stream(body)
    &&& text::optional(r.force_model) == forced_name(cfg, headers, sent)
    &&& r.no_cache == api::says_yes(headers, "x-llmux-no-cache"@)
    &&& r.no_fallback == api::says_yes(headers, "x-llmux-no-fallback"@)
    &&& text::optional(r.max_cost) == text::optional(headers.at("x-llmux-max-cost"@))
    &&& r.body@ == sent
    &&& r.input_tokens == cost::tokens(cost::request_bytes(sent))
    &&& r.cached_prefix_tokens == cost::tokens(cost::prefix_bytes(sent))
    &&& r.requires_tools == classifier::needs_tools(sent)
    &&& text::texts(r.req_capabilities@) == classifier::needed_capabilities(sent)
    &&& r.sensitive == is_sensitive(cfg, sent)
    &&& r.user_text@ == api::user_text(sent, cfg.classifier.user_messages as nat)
}

/// Reads a request. A caller without the key is refused.
pub fn read_request(cfg: &Config, headers: &Table<String>, body: Json) -> (r: Result<
    Intake,
    Refusal,
>)
    ensures
        match r {
            Ok(intake) => api::admitted(*cfg, *headers) && asks(*cfg, *headers, body@, intake),
            Err(e) => !api::admitted(*cfg, *headers) && e.status == 401 && e.message@
                == "ungültiger oder fehlender API-Key"@,
        },
{
    if !api::check_auth(cfg, headers) {
        return Err(
            Refusal { status: 401, message: "ungültiger oder fehlender API-Key".to_owned() },
        );
    }
    let ghost asked = body@;
    let tool = match api::header(headers, "x-llmux-tool") {
        Some(t) => t,
        None => "unknown".to_owned(),
    };
    let session = api::header(headers, "x-llmux-session");
    let project = api::header(headers, "x-llmux-project");
    let profile = match headers.get("x-llmux-profile") {
        Some(p) => match Profile::parse(p.as_str()) {
            Some(x) => x,
            None => cfg.routing.default_profile,
        },
        None => cfg.routing.default_profile,
    };
    let is_stream = match body.get("stream") {
        Some(v) => match v.as_bool() {
            Some(b) => b,
            None => false,
        },
        None => false,
    };
    let mut body = body;
    if is_stream {
        let mut options = Json::object();
        options.set("include_usage", Json::Bool(true));
        body.set("stream_options", options);
    }
    assert(body@ == sent_body(asked));
    let force_model = match headers.get("x-llmux-model") {
        Some(m) => match cfg.resolve_alias(m.as_str()) {
            Some(a) => Some(a.to_owned()),
            None => Some(m.clone()),
        },
        None => match body.text_at("model") {
            Some(m) => match cfg.resolve_alias(m) {
                Some(a) => Some(a.to_owned()),
                None => None,
            },
            None => None,
        },
    };
    let input_tokens: u64 = cost::estimate_request_tokens(&body);
    let cached_prefix_tokens: u64 = cost::estimate_cached_prefix_tokens(&body);
    let requires_tools = classifier::requires_tools(&body);
    let req_capabilities = classifier::request_capabilities(&body);
    let sensitive = privacy::request_is_sensitive(
        &body,
        cfg.privacy.block_cloud_patterns.as_slice(),
        cfg.privacy.scan_system,
    );
    let user_text = api::extract_user_text(&body, cfg.classifier.user_messages);
    Ok(
        Intake {
            tool,
            session,
            project,
            profile,
            is_stream,
            force_model,
            no_cache: api::header_bool(headers, "x-llmux-no-cache"),
            no_fallback: api::header_bool(headers, "x-llmux-no-fallback"),
            max_cost: api::header(headers, "x-llmux-max-cost"),
            body,
            input_tokens,
            cached_prefix_tokens,
            requires_tools,
            req_capabilities,
            sensitive,
            user_text,
        },
    )
}

/// The task type of a request: privacy comes first, then what a model answers that is asked for
/// it, then the words of the text.
pub open spec fn task_for(cfg: Config, intake: Intake, reply: Option<&Json>) -> TaskType {
    if intake.sensitive {
        TaskType::PrivateSensitive
    } else {
        classifier::answered_task(
            match cfg.classifier.llm {
                Some(l) => Some(&l),
                None => None,
            },
            reply,
            intake.user_text@,
        )
    }
}

/// The task type of a request. `reply` is what the model answered that is asked for it.
pub fn decide_task(cfg: &Config, intake: &Intake, reply: Option<&Json>) -> (r: TaskType)
    ensures
        r == task_for(*cfg, *intake, reply),
{
    if intake.sensitive {
        return TaskType::PrivateSensitive;
    }
    match &cfg.classifier.llm {
        Some(l) => classifier::classify_with_llm(Some(l), reply, intake.user_text.as_str()),
        None => classifier::classify_with_llm(None, reply, intake.user_text.as_str()),
    }
}

/// Whether a model is asked for the task type of a request. What must not leave for a cloud is
/// shown to none.
pub open spec fn asks_classifier(cfg: Config, intake: Intake) -> bool {
    !intake.sensitive && (cfg.classifier.llm matches Some(l) && l.enabled)
}

/// Where a model is asked for the task type of a request: where the question goes, and the
/// question.
pub fn classifier_request(cfg: &Config, intake: &Intake) -> (r: Option<(String, Json)>)
    ensures
        match r {
            Some((url, question)) => {
                let llm = cfg.classifier.llm.unwrap();
                &&& asks_classifier(*cfg, *intake)
                &&& url@ == providers::trim_slashes(llm.base_url@) + "/chat/completions"@
                &&& question@ == classifier::classify_question(llm.model@, intake.user_text@)
            },
            None => !asks_classifier(*cfg, *intake),
        },
{
    if intake.sensitive {
        return None;
    }
    match &cfg.classifier.llm {
        Some(l) => if l.enabled {
            Some(classifier::classify_request(l, intake.user_text.as_str()))
        } else {
            None
        },
        None => None,
    }
}

/// Whether a plan is asked for on behalf of a request.
pub open spec fn describes(input: PlanInput, intake: Intake, task: TaskType) -> bool {
    &&& plan::optional_str(input.force_model) == text::optional(intake.force_model)
    &&& input.task_key@ == task.key()
    &&& input.requires_tools == intake.requires_tools
    &&& input.req_capabilities@ == intake.req_capabilities@
    &&& input.input_tokens == intake.input_tokens
    &&& input.cached_prefix_tokens == intake.cached_prefix_tokens
    &&& plan::optional_str(input.session) == text::optional(intake.session)
    &&& plan::optional_str(input.project) == text::optional(intake.project)
    &&& input.profile == intake.profile
}

/// How many models of a chain are tried: one where the caller wants no fallback.
pub open spec fn tried(intake: Intake, chain: nat) -> nat {
    if intake.no_fallback && chain > 1 {
        1
    } else {
        chain
    }
}

/// Whether `p` is `whole` with the models that are tried.
pub open spec fn narrowed(intake: Intake, whole: Plan, p: Plan) -> bool {
    let n = tried(intake, whole.chain@.len()) as int;
    &&& p.chain@ == whole.chain@.subrange(0, n)
    &&& p.positions@ == whole.positions@.subrange(0, n)
    &&& p.tier == whole.tier
    &&& p.degraded == whole.degraded
    &&& p.pressure == whole.pressure
    &&& p.expected_output == whole.expected_output
    &&& p.forced == whole.forced
    &&& p.project == whole.project
    &&& p.tools_expected == whole.tools_expected
}

/// The record of a request that was refused before it was forwarded.
pub open spec fn refused_record(intake: Intake, task: TaskType, e: Refusal) -> LogView {
    pipeline::failure_record(
        intake.tool@,
        text::optional(intake.session),
        text::optional(intake.project),
        task.key(),
        intake.input_tokens,
        e.status,
        e.message@,
        intake.force_model is Some,
    )
}

/// The text of the estimate that an error speaks of.
pub open spec fn estimate_text(e: PlanError, cost_texts: Seq<String>) -> Seq<char> {
    match e {
        PlanError::OverBudget { position, .. } => cost_texts[position as int]@,
        _ => Seq::empty(),
    }
}

/// Whether the answer would have to be streamed by a provider that cannot do so here.
pub open spec fn cannot_stream(cfg: Config, intake: Intake, provider: Seq<char>) -> bool {
    intake.is_stream && cfg.kind_of(provider) == ProviderKind::Anthropic
}

/// What follows from a plan: an error is answered and recorded, and so is a stream that cannot
/// be had; any other plan is carried out.
pub open spec fn settled(
    cfg: Config,
    intake: Intake,
    task: TaskType,
    made: Result<Plan, PlanError>,
    cost_texts: Seq<String>,
    remaining_text: Seq<char>,
    before: Store,
    after: Store,
    now: u128,
    r: Result<Plan, Refusal>,
) -> bool {
    match made {
        Err(e) => r matches Err(refusal) && {
            &&& refusal.status == e.code()
            &&& refusal.message@ == e.text(estimate_text(e, cost_texts), remaining_text)
            &&& logging::appended(before, after, refused_record(intake, task, refusal), now)
        },
        Ok(whole) => if cannot_stream(cfg, intake, whole.chain@[0]@.provider) {
            r matches Err(refusal) && {
                &&& refusal.status == 400
                &&& refusal.message@
                    == "Streaming wird für native Anthropic-Provider noch nicht unterstützt"@
                &&& logging::appended(before, after, refused_record(intake, task, refusal), now)
            }
        } else {
            r matches Ok(p) && narrowed(intake, whole, p) && before == after
        },
    }
}

fn opt_str(s: &Option<String>) -> (r: Option<&str>)
    ensures
        plan::optional_str(r) == text::optional(*s),
{
    match s {
        Some(x) => Some(x.as_str()),
        None => None,
    }
}

fn record_refusal(intake: &Intake, task: TaskType, e: &Refusal, store: &mut Store, now: u128)
    ensures
        logging::appended(*old(store), *final(store), refused_record(*intake, task, *e), now),
{
    let log = pipeline::failure_log(
        intake.tool.as_str(),
        &intake.session,
        &intake.project,
        task.as_key(),
        intake.input_tokens,
        e.status,
        e.message.as_str(),
        intake.force_model.is_some(),
    );
    store.insert(log, now);
}

/// The plan for a request, or how it is refused; a refusal is recorded. `cost_texts` are the
/// texts of the estimated costs of the models, `remaining_text` that of the rest of the budget.
pub fn plan_request(
    cfg: &Config,
    env: &Table<String>,
    store: &mut Store,
    sessions: &mut SessionStore,
    intake: &Intake,
    task: TaskType,
    est: &Estimates,
    cost_texts: &Vec<String>,
    remaining_text: &str,
    now: u128,
) -> (r: Result<Plan, Refusal>)
    requires
        est.costs@.len() == cfg.models@.len(),
        cost_texts@.len() == cfg.models@.len(),
        intake.input_tokens + est.expected_output <= u64::MAX,
        cfg.classification.at(task.key()) is None ==> intake.input_tokens + intake.input_tokens
            <= u64::MAX,
    ensures
        exists|input: PlanInput, made: Result<Plan, PlanError>| #[trigger]
            plan::plan_result(
                *cfg,
                *env,
                *old(store),
                *old(sessions),
                *final(sessions),
                input,
                *est,
                made,
            ) && describes(input, *intake, task) && settled(
                *cfg,
                *intake,
                task,
                made,
                cost_texts@,
                remaining_text@,
                *old(store),
                *final(store),
                now,
                r,
            ),
{
    let input = PlanInput {
        force_model: opt_str(&intake.force_model),
        task_key: task.as_key(),
        requires_tools: intake.requires_tools,
        req_capabilities: intake.req_capabilities.as_slice(),
        input_tokens: intake.input_tokens,
        cached_prefix_tokens: intake.cached_prefix_tokens,
        session: opt_str(&intake.session),
        project: opt_str(&intake.project),
        profile: intake.profile,
    };
    assert(describes(input, *intake, task));
    let made = plan::build_plan(cfg, env, store, sessions, &input, est);
    let ghost said = made;
    assert(plan::plan_result(
        *cfg,
        *env,
        *old(store),
        *old(sessions),
        *sessions,
        input,
        *est,
        said,
    ));
    match made {
        Err(e) => {
            let estimate: &str = match &e {
                PlanError::OverBudget { position, .. } => {
                    proof {
                        plan::lemma_called_exists(
                            *cfg,
                            input.force_model.unwrap()@,
                            cfg.models@.len(),
                        );
                    }
                    cost_texts[*position].as_str()
                },
                _ => {
                    proof {
                        reveal_strlit("");
                        assert(""@ =~= Seq::empty());
                    }
                    ""
                },
            };
            let refusal = Refusal { status: e.status(), message: e.message(estimate, remaining_text) };
            record_refusal(intake, task, &refusal, store, now);
            Err(refusal)
        },
        Ok(whole) => {
            if intake.is_stream && cfg.provider_kind(whole.chain[0].provider.as_str())
                == ProviderKind::Anthropic {
                let refusal = Refusal {
                    status: 400,
                    message:
                        "Streaming wird für native Anthropic-Provider noch nicht unterstützt".to_owned(),
                };
                record_refusal(intake, task, &refusal, store, now);
                return Err(refusal);
            }
            let mut p = whole;
            if intake.no_fallback {
                p.chain.truncate(1);
                p.positions.truncate(1);
            }
            assert(p.chain@ =~= whole.chain@.subrange(
                0,
                tried(*intake, whole.chain@.len()) as int,
            ));
            assert(p.positions@ =~= whole.positions@.subrange(
                0,
                tried(*intake, whole.chain@.len()) as int,
            ));
            Ok(p)
        },
    }
}

/// Whether the answer to a request may come from the cache and be kept there.
pub open spec fn cacheable(cfg: Config, intake: Intake) -> bool {
    cfg.cache.enabled && !intake.no_cache && intake.body@.items_at("messages"@).len()
        <= cfg.cache.max_conversation_messages
}

/// The key of the answer to a request in the cache. Streams have keys of their own.
pub open spec fn answer_key(cfg: Config, intake: Intake, m: ModelView) -> Option<Seq<char>> {
    if !cacheable(cfg, intake) {
        None
    } else if intake.is_stream {
        Some(cache::key_of(m, intake.body@) + "#stream"@)
    } else {
        Some(cache::key_of(m, intake.body@))
    }
}

/// The key of the answer to a request in the cache.
pub fn cache_key_for(cfg: &Config, intake: &Intake, primary: &ModelEntry) -> (r: Option<String>)
    ensures
        text::optional(r) == answer_key(*cfg, *intake, primary@),
{
    if !cfg.cache.enabled || intake.no_cache || cache::conversation_len(&intake.body)
        > cfg.cache.max_conversation_messages {
        return None;
    }
    let mut key = cache::cache_key(primary, &intake.body);
    if intake.is_stream {
        key.append("#stream");
    }
    Some(key)
}

/// Whether the answer is looked up by similarity too. That takes asking an embedding model, so it
/// is not done for what must not leave for a cloud.
pub open spec fn looks_similar(cfg: Config, intake: Intake) -> bool {
    !intake.sensitive && cacheable(cfg, intake) && !intake.is_stream && (cfg.cache.semantic matches Some(s)
        && s.enabled)
}

/// Where the answer is looked up by similarity too: how the embedding is had, and of which text,
/// that of all messages of users.
pub fn semantic_lookup<'a>(cfg: &'a Config, intake: &Intake) -> (r: Option<
    (&'a SemanticCacheConfig, String),
>)
    ensures
        match r {
            Some((s, t)) => looks_similar(*cfg, *intake) && cfg.cache.semantic == Some(*s) && t@
                == api::user_text(intake.body@, usize::MAX as nat),
            None => !looks_similar(*cfg, *intake),
        },
{
    if intake.sensitive || intake.is_stream {
        return None;
    }
    if !cfg.cache.enabled || intake.no_cache || cache::conversation_len(&intake.body)
        > cfg.cache.max_conversation_messages {
        return None;
    }
    match &cfg.cache.semantic {
        Some(s) => if s.enabled {
            Some((s, api::extract_user_text(&intake.body, usize::MAX)))
        } else {
            None
        },
        None => None,
    }
}

/// What the plugins know of a request.
pub open spec fn is_context(
    ctx: PluginCtx,
    cfg: Config,
    intake: Intake,
    task: TaskType,
    p: Plan,
    entry: ModelView,
) -> bool {
    &&& ctx.entry@ == entry
    &&& ctx.task_key@ == task.key()
    &&& ctx.tool@ == intake.tool@
    &&& text::optional(ctx.session) == text::optional(intake.session)
    &&& text::optional(ctx.project) == text::optional(p.project)
    &&& ctx.tier == p.tier
    &&& ctx.pressure == p.pressure
    &&& ctx.forced == p.forced
    &&& ctx.tools_expected == p.tools_expected
    &&& ctx.input_tokens == intake.input_tokens
    &&& ctx.is_stream == intake.is_stream
    &&& ctx.ttl_seconds == cfg.cache.ttl_seconds
}

/// What the plugins know of a request, with a model of its plan.
pub fn context_for(
    cfg: &Config,
    intake: &Intake,
    task: TaskType,
    p: &Plan,
    entry: &ModelEntry,
    cache_key: &Option<String>,
    semantic: Option<SemanticEntry>,
    max_cost: Option<CostCap>,
    latency_ms: u64,
    now: u128,
) -> (ctx: PluginCtx)
    ensures
        is_context(ctx, *cfg, *intake, task, *p, entry@),
        text::optional(ctx.cache_key) == text::optional(*cache_key),
        ctx.semantic == semantic,
        ctx.max_cost == max_cost,
        ctx.latency_ms == latency_ms,
        ctx.now == now,
{
    PluginCtx {
        entry: entry.copy(),
        task_key: task.as_key().to_owned(),
        tool: intake.tool.clone(),
        session: text::copy_optional(&intake.session),
        project: text::copy_optional(&p.project),
        tier: p.tier,
        pressure: p.pressure,
        forced: p.forced,
        tools_expected: p.tools_expected,
        input_tokens: intake.input_tokens,
        max_cost,
        cache_key: text::copy_optional(cache_key),
        semantic,
        is_stream: intake.is_stream,
        latency_ms,
        ttl_seconds: cfg.cache.ttl_seconds,
        now,
    }
}

/// Whether a model is another one than the first choice.
pub open spec fn is_fallback(p: Plan, entry: ModelView) -> bool {
    entry.provider != p.chain@[0]@.provider || entry.model != p.chain@[0]@.model
}

/// Whether a model is another one than the first choice.
pub fn used_fallback(p: &Plan, entry: &ModelEntry) -> (r: bool)
    requires
        p.chain@.len() > 0,
    ensures
        r == is_fallback(*p, entry@),
{
    !text::same(entry.provider.as_str(), p.chain[0].provider.as_str()) || !text::same(
        entry.model.as_str(),
        p.chain[0].model.as_str(),
    )
}

/// What an answer says of itself.
#[derive(Debug)]
pub struct Reply {
    pub status: u16,
    pub prompt_tokens: u64,
    pub completion_tokens: u64,
    pub stop_reason: Option<String>,
    pub tool_call_present: bool,
    /// How the answer broke off, if it did.
    pub error: Option<String>,
    /// The answer, as it is kept in the cache.
    pub body: Option<String>,
}

/// The answer that a caller gets for what a provider answered.
pub open spec fn answered(kind: ProviderKind, payload: JVal, created: u64) -> JVal {
    match kind {
        ProviderKind::Anthropic => providers::openai_response(payload, created),
        ProviderKind::Openai => payload,
    }
}

/// A count, or what stands in for it.
pub open spec fn or_else(n: Option<u64>, default: u64) -> u64 {
    match n {
        Some(x) => x,
        None => default,
    }
}

fn take_or(n: Option<u64>, default: u64) -> (r: u64)
    ensures
        r == or_else(n, default),
{
    match n {
        Some(x) => x,
        None => default,
    }
}

/// Reads the answer of a provider: it is put into the form that callers expect, and what it says
/// of its usage counts, with the estimate where it says nothing. The text that the cache keeps
/// reads back as the same answer wherever its tree is an exact one.
pub fn read_reply(
    kind: ProviderKind,
    payload: Json,
    created: u64,
    status: u16,
    input_tokens: u64,
) -> (r: (Json, Reply))
    ensures
        r.0@ == answered(kind, payload@, created),
        r.1.status == status,
        r.1.prompt_tokens == or_else(r.0@.at("usage"@).uint_at("prompt_tokens"@), input_tokens),
        r.1.completion_tokens == or_else(r.0@.at("usage"@).uint_at("completion_tokens"@), 0),
        text::optional(r.1.stop_reason) == r.0@.at("choices"@).first().text_at("finish_reason"@),
        r.1.tool_call_present == api::calls_tool(r.0@),
        r.1.error is None,
        text::optional(r.1.body) == Some(json::json_text(r.0@)),
        json::is_exact(r.0@) ==> pipeline::cached_payload(json::json_text(r.0@)) == r.0@,
{
    let payload = match kind {
        ProviderKind::Anthropic => providers::to_openai_response(&payload, created),
        ProviderKind::Openai => payload,
    };
    let (prompt, completion): (Option<u64>, Option<u64>) = match payload.get("usage") {
        Some(u) => (u.uint_at("prompt_tokens"), u.uint_at("completion_tokens")),
        None => (None, None),
    };
    let stop_reason = match payload.get("choices") {
        Some(choices) => match choices.first() {
            Some(choice) => match choice.text_at("finish_reason") {
                Some(f) => Some(f.to_owned()),
                None => None,
            },
            None => None,
        },
        None => None,
    };
    let tool_call_present = api::response_has_tool_call(&payload);
    let body = payload.text();
    let reply = Reply {
        status,
        prompt_tokens: take_or(prompt, input_tokens),
        completion_tokens: take_or(completion, 0),
        stop_reason,
        tool_call_present,
        error: None,
        body: Some(body),
    };
    (payload, reply)
}

/// Reads a stream that has ended, or broken off with an error.
pub fn read_stream(acc: &Vec<u8>, input_tokens: u64, error: Option<String>) -> (r: Reply)
    ensures
        ({
            let usage = stream::usage_of(
                stream::events_of(stream::lines_of(text::utf8_lossy(acc@))),
            );
            &&& r.status == (if error is Some {
                502u16
            } else {
                200u16
            })
            &&& r.prompt_tokens == or_else(usage.prompt, input_tokens)
            &&& r.completion_tokens == or_else(usage.completion, 0)
            &&& text::optional(r.stop_reason) == usage.finish
            &&& r.tool_call_present == (usage.finish == Some("tool_calls"@))
            &&& r.error == error
            &&& text::optional(r.body) == Some(text::utf8_lossy(acc@))
        }),
{
    let usage = stream::parse_stream_usage(acc);
    let tool_call_present = match &usage.finish {
        Some(f) => text::same(f.as_str(), "tool_calls"),
        None => false,
    };
    let status: u16 = if error.is_some() {
        502
    } else {
        200
    };
    Reply {
        status,
        prompt_tokens: take_or(usage.prompt, input_tokens),
        completion_tokens: take_or(usage.completion, 0),
        stop_reason: usage.finish,
        tool_call_present,
        error,
        body: Some(text::from_utf8_lossy(acc)),
    }
}

/// How a forwarded request ended: what the answer says of itself, what the run through the chain
/// took, and what it was estimated to cost and did cost.
pub fn outcome_for(
    reply: &Reply,
    intake: &Intake,
    p: &Plan,
    entry: &ModelEntry,
    run: &Run,
    estimated: Real,
    billed: Real,
) -> (r: PluginOutcome)
    requires
        p.chain@.len() > 0,
    ensures
        r.status == reply.status,
        r.used_fallback == is_fallback(*p, entry@),
        r.degraded == p.degraded,
        r.estimated_tokens == intake.input_tokens,
        r.prompt_tokens == reply.prompt_tokens,
        r.completion_tokens == reply.completion_tokens,
        r.estimated_cost_usd == estimated,
        r.real_cost_usd == billed,
        r.attempts == run@.attempts,
        text::optional(r.attempt_trail) == Some(json::json_text(JVal::Array(run@.trail))),
        text::optional(r.stop_reason) == text::optional(reply.stop_reason),
        text::optional(r.error) == text::optional(reply.error),
        r.tool_call_present == reply.tool_call_present,
        text::optional(r.body) == text::optional(reply.body),
{
    PluginOutcome {
        status: reply.status,
        used_fallback: used_fallback(p, entry),
        degraded: p.degraded,
        estimated_tokens: intake.input_tokens,
        prompt_tokens: reply.prompt_tokens,
        completion_tokens: reply.completion_tokens,
        estimated_cost_usd: estimated,
        real_cost_usd: billed,
        attempts: run.attempts,
        attempt_trail: Some(run.trail_text()),
        stop_reason: text::copy_optional(&reply.stop_reason),
        error: text::copy_optional(&reply.error),
        tool_call_present: reply.tool_call_present,
        body: text::copy_optional(&reply.body),
    }
}

/// The record of a request that no model served.
pub open spec fn unserved_record(
    intake: Intake,
    task: TaskType,
    p: Plan,
    run: retry::RunView,
    status: u16,
) -> LogView {
    LogView {
        tool: intake.tool@,
        session: text::optional(intake.session),
        task_type: task.key(),
        tier: p.tier,
        degraded: p.degraded,
        budget_pressure: p.pressure,
        estimated_tokens: intake.input_tokens,
        status,
        attempts: run.attempts,
        attempt_trail: Some(json::json_text(JVal::Array(run.trail))),
        error: Some(run.last_err),
        forced: p.forced,
        project: text::optional(p.project),
        ..LogView::blank()
    }
}

fn unserved_log(intake: &Intake, task: TaskType, p: &Plan, run: &Run, status: u16) -> (r: RequestLog)
    ensures
        r@ == unserved_record(*intake, task, *p, run@, status),
{
    let mut r = RequestLog::default();
    r.tool = intake.tool.clone();
    r.session = text::copy_optional(&intake.session);
    r.task_type = task.as_key().to_owned();
    r.tier = p.tier;
    r.degraded = p.degraded;
    r.budget_pressure = p.pressure;
    r.estimated_tokens = intake.input_tokens;
    r.status = status;
    r.attempts = run.attempts;
    r.attempt_trail = Some(run.trail_text());
    r.error = Some(run.last_err.clone());
    r.forced = p.forced;
    r.project = text::copy_optional(&p.project);
    r
}

/// A model has refused the request as wrong: its status and its words are passed on, and the
/// refusal is recorded under that model.
pub fn pass_on_refusal(
    intake: &Intake,
    task: TaskType,
    p: &Plan,
    run: &Run,
    entry: &ModelEntry,
    status: u16,
    store: &mut Store,
    now: u128,
) -> (r: Refusal)
    ensures
        r.status == status,
        r.message@ == run@.last_err,
        logging::appended(
            *old(store),
            *final(store),
            (LogView {
                model: entry@.model,
                provider: entry@.provider,
                ..unserved_record(*intake, task, *p, run@, status)
            }),
            now,
        ),
{
    let mut log = unserved_log(intake, task, p, run, status);
    log.model = entry.model.clone();
    log.provider = entry.provider.clone();
    store.insert(log, now);
    Refusal { status, message: run.last_err.clone() }
}

/// Every model has failed: the last failure is answered and recorded.
pub fn give_up(
    intake: &Intake,
    task: TaskType,
    p: &Plan,
    run: &Run,
    store: &mut Store,
    now: u128,
) -> (r: Refusal)
    ensures
        r.status == 502,
        r.message@ == "alle Modelle fehlgeschlagen: "@ + run@.last_err,
        logging::appended(
            *old(store),
            *final(store),
            unserved_record(*intake, task, *p, run@, 502),
            now,
        ),
{
    store.insert(unserved_log(intake, task, p, run, 502), now);
    let mut message = "alle Modelle fehlgeschlagen: ".to_owned();
    message.append(run.last_err.as_str());
    Refusal { status: 502, message }
}

/// What is answered where a provider's answer cannot be read.
pub open spec fn unreadable_text(problem: Seq<char>) -> Seq<char> {
    "Antwort des Providers nicht lesbar: "@ + problem
}

/// The answer of a provider cannot be read: that is answered, and recorded under its model.
pub fn unreadable_reply(
    intake: &Intake,
    task: TaskType,
    p: &Plan,
    run: &Run,
    entry: &ModelEntry,
    problem: &str,
    store: &mut Store,
    now: u128,
) -> (r: Refusal)
    requires
        p.chain@.len() > 0,
    ensures
        r.status == 502,
        r.message@ == unreadable_text(problem@),
        logging::appended(
            *old(store),
            *final(store),
            (LogView {
                model: entry@.model,
                provider: entry@.provider,
                used_fallback: is_fallback(*p, entry@),
                error: Some(unreadable_text(problem@)),
                ..unserved_record(*intake, task, *p, run@, 502)
            }),
            now,
        ),
{
    let mut message = "Antwort des Providers nicht lesbar: ".to_owned();
    message.append(problem);
    let mut log = unserved_log(intake, task, p, run, 502);
    log.model = entry.model.clone();
    log.provider = entry.provider.clone();
    log.used_fallback = used_fallback(p, entry);
    log.error = Some(message.clone());
    store.insert(log, now);
    Refusal { status: 502, message }
}

/// A request that holds something that must not leave for a cloud is shown neither to a model
/// that classifies nor to one that makes embeddings, counts as private, and is planned on local
/// providers only, whatever model its caller forces and whatever the rules say.
pub proof fn law_private_requests_stay_local(
    cfg: Config,
    env: Table<String>,
    store: Store,
    before: SessionStore,
    after: SessionStore,
    intake: Intake,
    reply: Option<&Json>,
    input: PlanInput,
    est: Estimates,
    whole: Plan,
    p: Plan,
    k: int,
)
    requires
        intake.sensitive,
        describes(input, intake, task_for(cfg, intake, reply)),
        plan::plan_result(cfg, env, store, before, after, input, est, Ok(whole)),
        narrowed(intake, whole, p),
        0 <= k < p.chain@.len(),
    ensures
        !asks_classifier(cfg, intake),
        !looks_similar(cfg, intake),
        task_for(cfg, intake, reply) == TaskType::PrivateSensitive,
        cfg.is_local(p.chain@[k]@.provider),
{
    plan::law_local_only_is_kept(cfg, env, store, before, after, input, est, whole, k);
    assert(p.chain@[k] == whole.chain@[k]);
}

/// Without fallbacks exactly one model is tried, the first choice.
pub proof fn law_no_fallback_tries_one(intake: Intake, whole: Plan, p: Plan)
    requires
        intake.no_fallback,
        whole.chain@.len() > 0,
        whole.positions@.len() == whole.chain@.len(),
        narrowed(intake, whole, p),
    ensures
        p.chain@ == seq![whole.chain@[0]],
{
    assert(p.chain@ =~= seq![whole.chain@[0]]);
}

/// An answer and its stream never share a key in the cache.
pub proof fn law_streams_have_keys_of_their_own(
    cfg: Config,
    a: Intake,
    b: Intake,
    m: ModelView,
    n: ModelView,
)
    requires
        a.is_stream,
        !b.is_stream,
        cacheable(cfg, a),
        cacheable(cfg, b),
    ensures
        answer_key(cfg, a, m) != answer_key(cfg, b, n),
{
    cache::lemma_key_ends_in_digit(n, b.body@);
    reveal_strlit("#stream");
    let tail = "#stream"@;
    assert((cache::key_of(m, a.body@) + tail).last() == tail.last());
}

/// A request that asks the same as an earlier one, with the same first choice, is answered from
/// the cache as the earlier one was, no model is asked, and the hit is recorded without cost. That
/// is so where both may use the cache, the second sets no limit on its cost that it exceeds, and
/// the earlier answer was complete and has neither expired nor lost its place in the cache. A
/// stream is answered with its text; any other answer is the tree that its text reads as, which is
/// the same tree where that is an exact one.
///
/// The first request was kept with `ctx` and `out`, which took the store from `before` to `after`;
/// the second finds the store as `later` and leaves it as `end`.
pub proof fn law_equal_requests_are_replayed(
    cfg: Config,
    first: Table<String>,
    second: Table<String>,
    body: JVal,
    a: Intake,
    b: Intake,
    m: ModelView,
    answer: JVal,
    task: TaskType,
    p: Plan,
    entry: ModelView,
    ctx: PluginCtx,
    out: PluginOutcome,
    before: Store,
    after: Store,
    later: Store,
    again_task: TaskType,
    q: Plan,
    again: PluginCtx,
    end: Store,
    halt: Option<pipeline::Halt>,
)
    requires
        asks(cfg, first, body, a),
        asks(cfg, second, body, b),
        cacheable(cfg, a),
        cacheable(cfg, b),
        is_context(ctx, cfg, a, task, p, entry),
        text::optional(ctx.cache_key) == answer_key(cfg, a, m),
        out.error is None,
        out.body matches Some(kept) && (!a.is_stream ==> kept@ == json::json_text(answer) && (
        json::is_exact(answer) ==> pipeline::cached_payload(kept@) == answer)),
        ctx.end_effect(out, before, after),
        is_context(again, cfg, b, again_task, q, m),
        text::optional(again.cache_key) == answer_key(cfg, b, m),
        !again.over_cost(),
        again.now < logging::expiry(ctx.now, cfg.cache.ttl_seconds),
        again.cached(later) == again.cached(after),
        again.start_effect(later, end, halt),
    ensures
        halt matches Some(h) && h.code() == 200 && h.marks() == pipeline::hit_headers(a.is_stream),
        a.is_stream ==> (halt matches Some(pipeline::Halt::CachedStream { body: t }) && t@
            == out.body.unwrap()@),
        !a.is_stream ==> (halt matches Some(pipeline::Halt::Cached { payload }) && payload@
            == pipeline::cached_payload(json::json_text(answer)) && (json::is_exact(answer)
            ==> payload@ == answer)),
        end.rows@.len() == later.rows@.len() + 1,
        ({
            let log = end.rows@.last().log@;
            &&& log.cache_hit
            &&& log.status == 200
            &&& log.real_cost_usd == (Real { bits: 0 })
            &&& log.model == m.model
            &&& log.provider == m.provider
        }),
{
    let mid = choose|mid: Store|
        #![trigger logging::appended(before, mid, ctx.outcome_record(out), ctx.now)]
        logging::appended(before, mid, ctx.outcome_record(out), ctx.now) && ctx.keep_effect(
            out,
            mid,
            after,
        );
    pipeline::law_kept_answer_is_served(ctx, out, mid, after, again);
}

/// What is read of a request: who sends it and for which project, in which session and with which
/// profile; which model is forced, by the header or by an alias as the model; what the headers
/// switch off; and whether a stream is wanted.
pub proof fn law_headers_are_read(cfg: Config, headers: Table<String>, body: JVal, r: Intake)
    requires
        asks(cfg, headers, body, r),
    ensures
        headers.at("x-llmux-tool"@) is None ==> r.tool@ == "unknown"@,
        headers.at("x-llmux-tool"@) matches Some(t) ==> r.tool@ == t@,
        text::optional(r.session) == text::optional(headers.at("x-llmux-session"@)),
        text::optional(r.project) == text::optional(headers.at("x-llmux-project"@)),
        text::optional(r.max_cost) == text::optional(headers.at("x-llmux-max-cost"@)),
        r.no_cache <==> (headers.at("x-llmux-no-cache"@) matches Some(v) && (v@ == "1"@ || v@
            == "true"@ || v@ == "yes"@)),
        r.no_fallback <==> (headers.at("x-llmux-no-fallback"@) matches Some(v) && (v@ == "1"@
            || v@ == "true"@ || v@ == "yes"@)),
        r.is_stream <==> body.get("stream"@) == Some(JVal::Bool(true)),
        headers.at("x-llmux-profile"@) is None ==> r.profile == cfg.routing.default_profile,
        headers.at("x-llmux-profile"@) matches Some(p) ==> r.profile == match Profile::named(
            text::ascii_lower(p@),
        ) {
            Some(x) => x,
            None => cfg.routing.default_profile,
        },
        headers.at("x-llmux-model"@) matches Some(m) ==> text::optional(r.force_model) == match cfg.aliases.at(
            m@,
        ) {
            Some(a) => Some(a@),
            None => Some(m@),
        },
        headers.at("x-llmux-model"@) is None ==> text::optional(r.force_model) == match body.get(
            "model"@,
        ) {
            Some(JVal::Str(m)) => text::optional(cfg.aliases.at(m)),
            _ => None,
        },
{
    lemma_stream_names();
}

proof fn lemma_stream_names()
    ensures
        "stream_options"@ != "model"@,
        "stream_options"@ != "messages"@,
        "stream_options"@ != "tools"@,
        "stream_options"@ != "functions"@,
        "model"@ != "messages"@,
        "model"@ != "tools"@,
        "model"@ != "functions"@,
        "messages"@ != "tools"@,
        "messages"@ != "functions"@,
        "tools"@ != "functions"@,
{
    reveal_strlit("stream_options");
    reveal_strlit("model");
    reveal_strlit("messages");
    reveal_strlit("tools");
    reveal_strlit("functions");
    assert("stream_options"@.len() == 14);
    assert("model"@.len() == 5);
    assert("messages"@.len() == 8);
    assert("tools"@.len() == 5);
    assert("functions"@.len() == 9);
    assert("model"@[0] != "tools"@[0]);
}

/// What is sent on: every member as the caller wrote it, except that a stream is asked to report
/// its usage.
pub proof fn law_sent_as_written(body: JVal, key: Seq<char>)
    ensures
        key != "stream_options"@ ==> sent_body(body).get(key) == body.get(key),
        body.get("stream"@) == Some(JVal::Bool(true)) ==> sent_body(body).at(
            "stream_options"@,
        ).get("include_usage"@) == Some(JVal::Bool(true)),
        body.get("stream"@) != Some(JVal::Bool(true)) ==> sent_body(body) == body,
{
}

/// What is found out about a request: its size in tokens and that of all but its last message, what
/// a model has to offer for it, whether one of the configured patterns occurs in what is scanned of
/// it, and the text that decides the type of its task.
pub proof fn law_requests_are_examined(cfg: Config, headers: Table<String>, body: JVal, r: Intake)
    requires
        asks(cfg, headers, body, r),
    ensures
        r.input_tokens == cost::tokens(cost::request_bytes(r.body@)),
        r.cached_prefix_tokens == cost::tokens(cost::prefix_bytes(r.body@)),
        r.requires_tools == classifier::needs_tools(r.body@),
        text::texts(r.req_capabilities@) == classifier::needed_capabilities(r.body@),
        r.user_text@ == api::user_text(r.body@, cfg.classifier.user_messages as nat),
        r.sensitive <==> exists|k: int|
            0 <= k < cfg.privacy.block_cloud_patterns@.len() && text::is_part(
                text::lowercase((#[trigger] cfg.privacy.block_cloud_patterns@[k])@),
                text::lowercase(privacy::surface(r.body@, cfg.privacy.scan_system)),
            ),
        r.body@ == sent_body(body),
{
    privacy::law_any_pattern_counts(
        text::lowercase(privacy::surface(r.body@, cfg.privacy.scan_system)),
        cfg.privacy.block_cloud_patterns@,
    );
}

/// The type of a task: private where a pattern was found, whatever a model says; else what the
/// model that classifies answers, where one is asked, or the words of the users. A model is asked
/// only where it is switched on and nothing was found.
pub proof fn law_type_of_a_task(cfg: Config, intake: Intake, reply: Option<&Json>)
    ensures
        intake.sensitive ==> task_for(cfg, intake, reply) == TaskType::PrivateSensitive,
        intake.sensitive ==> !asks_classifier(cfg, intake),
        !intake.sensitive ==> task_for(cfg, intake, reply) != TaskType::PrivateSensitive,
        !intake.sensitive && (reply is None || !(cfg.classifier.llm matches Some(l) && l.enabled))
            ==> task_for(cfg, intake, reply) == classifier::task_of(
            text::lowercase(intake.user_text@),
        ),
        asks_classifier(cfg, intake) <==> !intake.sensitive && (cfg.classifier.llm matches Some(l)
            && l.enabled),
        !intake.sensitive && asks_classifier(cfg, intake) ==> (reply matches Some(j) ==> (j@.at(
            "choices"@,
        ).item(0).at("message"@).get("content"@) matches Some(JVal::Str(s))
            ==> classifier::named_task(text::lowercase(s)) matches Some(named) ==> task_for(
            cfg,
            intake,
            reply,
        ) == named)),
{
    classifier::law_words_decide(text::lowercase(intake.user_text@));
    if reply is Some {
        let a = classifier::first_answer(reply->Some_0@);
        if a is Some {
            classifier::law_answers_name_tasks(text::lowercase(a->Some_0));
        }
    }
}

/// How a refused plan is answered and recorded: with the status of its reason, and under the tool,
/// session, project and task of the request. A stream from a provider that cannot stream is refused
/// with 400. Every other plan stands, and nothing is recorded of it yet.
pub proof fn law_plans_are_settled(
    cfg: Config,
    intake: Intake,
    task: TaskType,
    made: Result<Plan, PlanError>,
    cost_texts: Seq<String>,
    remaining_text: Seq<char>,
    before: Store,
    after: Store,
    now: u128,
    r: Result<Plan, Refusal>,
)
    requires
        settled(cfg, intake, task, made, cost_texts, remaining_text, before, after, now, r),
    ensures
        r is Err <==> made is Err || (intake.is_stream && cfg.kind_of(
            made->Ok_0.chain@[0]@.provider,
        ) == ProviderKind::Anthropic),
        made matches Err(e) ==> r->Err_0.status == e.code(),
        made is Ok && r is Err ==> r->Err_0.status == 400,
        r is Ok ==> after == before,
        r matches Err(refusal) ==> {
            let log = after.rows@.last().log@;
            &&& after.rows@.len() == before.rows@.len() + 1
            &&& after.rows@.last().at == now
            &&& log.status == refusal.status && log.error == Some(refusal.message@)
            &&& log.tool == intake.tool@ && log.session == text::optional(intake.session)
            &&& log.project == text::optional(intake.project) && log.task_type == task.key()
            &&& log.estimated_tokens == intake.input_tokens
            &&& log.forced == intake.force_model is Some
            &&& log.model.len() == 0 && log.real_cost_usd.bits == 0 && !log.cache_hit
        },
{
}

/// With fallbacks the whole chain is tried, without them its first model only; nothing else of the
/// plan changes.
pub proof fn law_chain_that_is_tried(intake: Intake, whole: Plan, p: Plan)
    requires
        narrowed(intake, whole, p),
        whole.chain@.len() > 0,
        whole.positions@.len() == whole.chain@.len(),
    ensures
        !intake.no_fallback ==> p.chain@ == whole.chain@ && p.positions@ == whole.positions@,
        intake.no_fallback ==> p.chain@ == seq![whole.chain@[0]] && p.positions@ == seq![
            whole.positions@[0],
        ],
        p.tier == whole.tier && p.degraded == whole.degraded && p.forced == whole.forced,
        p.pressure == whole.pressure && p.expected_output == whole.expected_output,
        p.project == whole.project && p.tools_expected == whole.tools_expected,
{
    if intake.no_fallback {
        assert(p.chain@ =~= seq![whole.chain@[0]]);
        assert(p.positions@ =~= seq![whole.positions@[0]]);
    } else {
        assert(p.chain@ =~= whole.chain@);
        assert(p.positions@ =~= whole.positions@);
    }
}

/// When the cache is used: where it is switched on, the caller does not switch it off, and the
/// conversation is no longer than configured. The key is that of the first choice and the request,
/// with a mark behind it for a stream. Answers to similar requests are looked for only where also
/// that is switched on, no stream is wanted, and nothing was found that must not leave.
pub proof fn law_when_the_cache_is_used(cfg: Config, intake: Intake, m: ModelView)
    ensures
        ({
            let used = cfg.cache.enabled && !intake.no_cache && intake.body@.items_at(
                "messages"@,
            ).len() <= cfg.cache.max_conversation_messages;
            &&& !used ==> answer_key(cfg, intake, m) is None && !looks_similar(cfg, intake)
            &&& used && !intake.is_stream ==> answer_key(cfg, intake, m) == Some(
                cache::key_of(m, intake.body@),
            )
            &&& used && intake.is_stream ==> answer_key(cfg, intake, m) == Some(
                cache::key_of(m, intake.body@) + "#stream"@,
            )
            &&& looks_similar(cfg, intake) <==> used && !intake.is_stream && !intake.sensitive && (
            cfg.cache.semantic matches Some(s) && s.enabled)
        }),
{
}

/// A fallback is any model but the first choice, told apart by provider and name.
pub proof fn law_fallbacks(p: Plan, entry: ModelView)
    requires
        p.chain@.len() > 0,
    ensures
        !is_fallback(p, p.chain@[0]@),
        is_fallback(p, entry) <==> !(entry.provider == p.chain@[0].provider@ && entry.model
            == p.chain@[0].model@),
{
}

/// What is recorded of a request that no model served: the plan's tier and pressure, the attempts
/// and how they went, and the last failure; and that nothing was paid.
pub proof fn law_unserved_requests_are_recorded(
    intake: Intake,
    task: TaskType,
    p: Plan,
    run: retry::RunView,
    status: u16,
)
    ensures
        ({
            let log = unserved_record(intake, task, p, run, status);
            &&& log.status == status && log.error == Some(run.last_err)
            &&& log.attempts == run.attempts && log.attempt_trail == Some(
                json::json_text(JVal::Array(run.trail)),
            )
            &&& log.tool == intake.tool@ && log.session == text::optional(intake.session)
            &&& log.project == text::optional(p.project) && log.task_type == task.key()
            &&& log.tier == p.tier && log.degraded == p.degraded && log.forced == p.forced
            &&& log.budget_pressure == p.pressure && log.estimated_tokens == intake.input_tokens
            &&& log.real_cost_usd.bits == 0 && log.prompt_tokens == 0 && log.completion_tokens == 0
            &&& !log.cache_hit
        }),
{
}

/// The answer of a provider of the `/chat/completions` protocol reaches the caller as it is, and
/// that of one of the `/messages` protocol translated.
pub proof fn law_answers_reach_the_caller(payload: JVal, created: u64)
    ensures
        answered(ProviderKind::Openai, payload, created) == payload,
        answered(ProviderKind::Anthropic, payload, created) == providers::openai_response(
            payload,
            created,
        ),
{
}

/// The plan is made from what was read of the request.
pub proof fn law_plan_sees_the_request(input: PlanInput, intake: Intake, task: TaskType)
    requires
        describes(input, intake, task),
    ensures
        input.task_key@ == task.key(),
        intake.force_model is Some <==> input.force_model is Some,
        input.force_model matches Some(m) ==> m@ == intake.force_model->Some_0@,
        input.project matches Some(p) ==> intake.project is Some && p@ == intake.project->Some_0@,
        input.project is None ==> intake.project is None,
        input.session matches Some(s) ==> intake.session is Some && s@ == intake.session->Some_0@,
        input.session is None ==> intake.session is None,
        input.requires_tools == intake.requires_tools,
        input.req_capabilities@ == intake.req_capabilities@,
        input.input_tokens == intake.input_tokens,
        input.profile == intake.profile,
{
}

/// The words of refusals that are not a plan's.
pub proof fn law_words_of_other_refusals(
    cfg: Config,
    intake: Intake,
    task: TaskType,
    whole: Plan,
    cost_texts: Seq<String>,
    remaining_text: Seq<char>,
    before: Store,
    after: Store,
    now: u128,
    refusal: Refusal,
    problem: Seq<char>,
)
    requires
        settled(
            cfg,
            intake,
            task,
            Ok(whole),
            cost_texts,
            remaining_text,
            before,
            after,
            now,
            Err(refusal),
        ),
    ensures
        refusal.message@ == "Streaming wird für native Anthropic-Provider noch nicht unterstützt"@,
        unreadable_text(problem) == "Antwort des Providers nicht lesbar: "@ + problem,
{
}

} // verus!
