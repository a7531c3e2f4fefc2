//! What surrounds the forwarding of a request: the limit on its cost, the cache, and the log.
use vstd::prelude::*;
use vstd::string::*;
use crate::config::{ModelEntry, ModelView};
use crate::float::Real;
use crate::json::{JVal, Json};
use crate::logging::{LogView, RequestLog, Store};
use crate::{api, json, logging, providers, stream, text};

verus! {

/// A concern that cuts across requests. `pre` runs before a request is forwarded and may end it;
/// `post` runs when the outcome is there.
pub trait Plugin<S, H>: Sized {
    /// How `pre` takes the state from `before` to `after`, and with what it ends the request.
    spec fn pre_effect(&self, before: S, after: S, halt: Option<H>) -> bool;

    /// How `post` takes the state from `before` to `after`.
    spec fn post_effect(&self, before: S, after: S) -> bool;

    fn pre(&self, state: &mut S) -> (halt: Option<H>)
        ensures
            self.pre_effect(*old(state), *final(state), halt),
    ;

    fn post(&self, state: &mut S)
        ensures
            self.post_effect(*old(state), *final(state)),
    ;
}

/// Plugins in order.
pub struct PluginPipeline<P> {
    pub plugins: Vec<P>,
}

/// How running `pre` of the plugins, the first one first, takes the state from `before` to
/// `after`: the first that ends the request is the last that runs.
pub open spec fn pre_run<S, H, P: Plugin<S, H>>(
    plugins: Seq<P>,
    before: S,
    after: S,
    halt: Option<H>,
) -> bool
    decreases plugins.len(),
{
    if plugins.len() == 0 {
        before == after && halt is None
    } else {
        exists|mid: S, h: Option<H>|
            #![trigger plugins[0].pre_effect(before, mid, h)]
            plugins[0].pre_effect(before, mid, h) && match h {
                Some(_) => halt == h && after == mid,
                None => pre_run(plugins.drop_first(), mid, after, halt),
            }
    }
}

/// How running `post` of the plugins, the last one first, takes the state from `before` to
/// `after`.
pub open spec fn post_run<S, H, P: Plugin<S, H>>(plugins: Seq<P>, before: S, after: S) -> bool
    decreases plugins.len(),
{
    if plugins.len() == 0 {
        before == after
    } else {
        exists|mid: S|
            #![trigger plugins.last().post_effect(before, mid)]
            plugins.last().post_effect(before, mid) && post_run::<S, H, P>(
                plugins.drop_last(),
                mid,
                after,
            )
    }
}

impl<P> PluginPipeline<P> {
    /// Runs `pre` of the plugins in order, up to the first that ends the request.
    pub fn run_pre<S, H>(&self, state: &mut S) -> (halt: Option<H>) where P: Plugin<S, H>
        ensures
            pre_run(self.plugins@, *old(state), *final(state), halt),
    {
        assert(self.plugins@.subrange(0, self.plugins@.len() as int) =~= self.plugins@);
        self.pre_from(0, state)
    }

    fn pre_from<S, H>(&self, i: usize, state: &mut S) -> (halt: Option<H>) where P: Plugin<S, H>
        requires
            i <= self.plugins@.len(),
        ensures
            pre_run(
                self.plugins@.subrange(i as int, self.plugins@.len() as int),
                *old(state),
                *final(state),
                halt,
            ),
        decreases self.plugins@.len() - i,
    {
        let ghost rest = self.plugins@.subrange(i as int, self.plugins@.len() as int);
        if i == self.plugins.len() {
            return None;
        }
        let ghost before = *state;
        assert(rest[0] == self.plugins@[i as int]);
        let halt = self.plugins[i].pre(state);
        assert(rest[0].pre_effect(before, *state, halt));
        match halt {
            Some(h) => Some(h),
            None => {
                assert(rest.drop_first() =~= self.plugins@.subrange(
                    i + 1,
                    self.plugins@.len() as int,
                ));
                self.pre_from(i + 1, state)
            },
        }
    }

    /// Runs `post` of the plugins in reverse order.
    pub fn run_post<S, H>(&self, state: &mut S) where P: Plugin<S, H>
        ensures
            post_run::<S, H, P>(self.plugins@, *old(state), *final(state)),
    {
        assert(self.plugins@.subrange(0, self.plugins@.len() as int) =~= self.plugins@);
        self.post_upto::<S, H>(self.plugins.len(), state)
    }

    fn post_upto<S, H>(&self, n: usize, state: &mut S) where P: Plugin<S, H>
        requires
            n <= self.plugins@.len(),
        ensures
            post_run::<S, H, P>(
                self.plugins@.subrange(0, n as int),
                *old(state),
                *final(state),
            ),
        decreases n,
    {
        let ghost head = self.plugins@.subrange(0, n as int);
        if n == 0 {
            return ;
        }
        let ghost before = *state;
        assert(head.last() == self.plugins@[n - 1]);
        self.plugins[n - 1].post(state);
        assert(head.last().post_effect(before, *state));
        assert(head.drop_last() =~= self.plugins@.subrange(0, n - 1));
        self.post_upto::<S, H>(n - 1, state)
    }
}

/// A limit that a caller sets on the cost of a request, and the estimate that it is held against,
/// with the texts of both.
#[derive(Debug)]
pub struct CostCap {
    pub cap: Real,
    pub estimate: Real,
    pub cap_text: String,
    pub estimate_text: String,
}

/// Under what an answer is kept in the semantic cache.
#[derive(Debug)]
pub struct SemanticEntry {
    pub scope: String,
    /// The bits of the coordinates of the query's embedding.
    pub embedding: Vec<u32>,
}

/// What all plugins know of a request. `entry` is the planned model before forwarding, and the
/// one that answered afterwards.
#[derive(Debug)]
pub struct PluginCtx {
    pub entry: ModelEntry,
    pub task_key: String,
    pub tool: String,
    pub session: Option<String>,
    pub project: Option<String>,
    pub tier: u8,
    pub pressure: Real,
    pub forced: bool,
    pub tools_expected: bool,
    pub input_tokens: u64,
    pub max_cost: Option<CostCap>,
    pub cache_key: Option<String>,
    pub semantic: Option<SemanticEntry>,
    pub is_stream: bool,
    /// How long the request has taken so far.
    pub latency_ms: u64,
    pub ttl_seconds: u64,
    pub now: u128,
}

/// How a forwarded request ended.
#[derive(Debug)]
pub struct PluginOutcome {
    pub status: u16,
    pub used_fallback: bool,
    pub degraded: bool,
    pub estimated_tokens: u64,
    pub prompt_tokens: u64,
    pub completion_tokens: u64,
    pub estimated_cost_usd: Real,
    pub real_cost_usd: Real,
    pub attempts: u32,
    pub attempt_trail: Option<String>,
    pub stop_reason: Option<String>,
    pub error: Option<String>,
    pub tool_call_present: bool,
    /// The answer, as it is kept in the cache.
    pub body: Option<String>,
}

/// What ends a request before it is forwarded.
#[derive(Debug)]
pub enum Halt {
    /// It would cost more than the caller allows.
    OverCost { message: String },
    /// The cache holds the answer.
    Cached { payload: Json },
    /// The cache holds the answer as a stream.
    CachedStream { body: String },
}

/// The headers that mark an answer from the cache.
pub open spec fn hit_headers(is_stream: bool) -> Seq<(Seq<char>, Seq<char>)> {
    if is_stream {
        seq![("content-type"@, "text/event-stream"@), ("x-llmux-cache"@, "hit"@)]
    } else {
        seq![("x-llmux-cache"@, "hit"@)]
    }
}

impl Halt {
    /// The HTTP status of the answer.
    pub open spec fn code(self) -> u16 {
        match self {
            Halt::OverCost { .. } => 402,
            Halt::Cached { .. } => 200,
            Halt::CachedStream { .. } => 200,
        }
    }

    /// The headers that mark the answer.
    pub open spec fn marks(self) -> Seq<(Seq<char>, Seq<char>)> {
        match self {
            Halt::OverCost { .. } => Seq::empty(),
            Halt::Cached { .. } => hit_headers(false),
            Halt::CachedStream { .. } => hit_headers(true),
        }
    }

    /// The HTTP status of the answer.
    pub fn status(&self) -> (r: u16)
        ensures
            r == self.code(),
    {
        match self {
            Halt::OverCost { .. } => 402,
            Halt::Cached { .. } => 200,
            Halt::CachedStream { .. } => 200,
        }
    }

    /// The headers that mark the answer: one from the cache says so.
    pub fn headers(&self) -> (r: Vec<(&'static str, &'static str)>)
        ensures
            Seq::new(r@.len(), |i: int| (r@[i].0@, r@[i].1@)) == self.marks(),
    {
        let mut r: Vec<(&'static str, &'static str)> = Vec::new();
        match self {
            Halt::OverCost { .. } => {},
            Halt::Cached { .. } => {
                r.push(("x-llmux-cache", "hit"));
            },
            Halt::CachedStream { .. } => {
                r.push(("content-type", "text/event-stream"));
                r.push(("x-llmux-cache", "hit"));
            },
        }
        assert(Seq::new(r@.len(), |i: int| (r@[i].0@, r@[i].1@)) =~= self.marks());
        r
    }
}

/// The record of a request that was not served.
pub open spec fn failure_record(
    tool: Seq<char>,
    session: Option<Seq<char>>,
    project: Option<Seq<char>>,
    task: Seq<char>,
    tokens: u64,
    status: u16,
    error: Seq<char>,
    forced: bool,
) -> LogView {
    LogView {
        tool,
        session,
        task_type: task,
        estimated_tokens: tokens,
        status,
        error: Some(error),
        forced,
        project,
        ..LogView::blank()
    }
}

/// The record of a request that was not served.
pub fn failure_log(
    tool: &str,
    session: &Option<String>,
    project: &Option<String>,
    task: &str,
    tokens: u64,
    status: u16,
    error: &str,
    forced: bool,
) -> (r: RequestLog)
    ensures
        r@ == failure_record(
            tool@,
            text::optional(*session),
            text::optional(*project),
            task@,
            tokens,
            status,
            error@,
            forced,
        ),
{
    let mut r = RequestLog::default();
    r.tool = tool.to_owned();
    r.session = text::copy_optional(session);
    r.task_type = task.to_owned();
    r.estimated_tokens = tokens;
    r.status = status;
    r.error = Some(error.to_owned());
    r.forced = forced;
    r.project = text::copy_optional(project);
    r
}

impl PluginCtx {
    /// The record of an answer from the cache.
    pub open spec fn hit_record(self, prompt: u64, completion: u64, tool_call: bool) -> LogView {
        LogView {
            tool: self.tool@,
            session: text::optional(self.session),
            task_type: self.task_key@,
            model: self.entry@.model,
            provider: self.entry@.provider,
            tier: self.tier,
            budget_pressure: self.pressure,
            prompt_tokens: prompt,
            completion_tokens: completion,
            latency_ms: self.latency_ms,
            status: 200,
            cache_hit: true,
            forced: self.forced,
            project: text::optional(self.project),
            tools_expected: self.tools_expected,
            tool_call_present: tool_call,
            ..LogView::blank()
        }
    }

    /// The record of a cached answer.
    pub open spec fn cached_record(self, payload: JVal) -> LogView {
        self.hit_record(
            providers::or_zero(payload.at("usage"@).uint_at("prompt_tokens"@)),
            providers::or_zero(payload.at("usage"@).uint_at("completion_tokens"@)),
            api::calls_tool(payload),
        )
    }

    /// The record of a cached stream.
    pub open spec fn cached_stream_record(self, body: Seq<char>) -> LogView {
        let usage = stream::usage_of(stream::events_of(stream::lines_of(body)));
        self.hit_record(
            providers::or_zero(usage.prompt),
            providers::or_zero(usage.completion),
            usage.finish == Some("tool_calls"@),
        )
    }

    /// The record of a forwarded request.
    pub open spec fn outcome_record(self, out: PluginOutcome) -> LogView {
        LogView {
            tool: self.tool@,
            session: text::optional(self.session),
            task_type: self.task_key@,
            model: self.entry@.model,
            provider: self.entry@.provider,
            tier: self.tier,
            used_fallback: out.used_fallback,
            degraded: out.degraded,
            budget_pressure: self.pressure,
            estimated_tokens: out.estimated_tokens,
            prompt_tokens: out.prompt_tokens,
            completion_tokens: out.completion_tokens,
            estimated_cost_usd: out.estimated_cost_usd,
            real_cost_usd: out.real_cost_usd,
            latency_ms: self.latency_ms,
            status: out.status,
            cache_hit: false,
            attempts: out.attempts,
            attempt_trail: text::optional(out.attempt_trail),
            stop_reason: text::optional(out.stop_reason),
            error: text::optional(out.error),
            forced: self.forced,
            project: text::optional(self.project),
            tools_expected: self.tools_expected,
            tool_call_present: out.tool_call_present,
        }
    }

    /// Whether the request would cost more than the caller allows.
    pub open spec fn over_cost(self) -> bool {
        self.max_cost matches Some(c) && c.cap.lt(c.estimate)
    }

    /// What a request is answered that would cost too much.
    pub open spec fn over_cost_text(self) -> Seq<char> {
        match self.max_cost {
            Some(c) => "Schätzkosten "@ + c.estimate_text@ + " USD über max-cost "@ + c.cap_text@,
            None => Seq::empty(),
        }
    }

    /// What the cache holds for the request.
    pub open spec fn cached(self, store: Store) -> Option<Seq<char>> {
        match self.cache_key {
            Some(key) => logging::cached_answer(store.cache@, key@, self.now),
            None => None,
        }
    }

    /// How the limit on the cost is enforced.
    pub open spec fn budget_effect(self, before: Store, after: Store, halt: Option<Halt>) -> bool {
        if self.over_cost() {
            &&& halt matches Some(Halt::OverCost { message }) && message@ == self.over_cost_text()
            &&& logging::appended(
                before,
                after,
                failure_record(
                    self.tool@,
                    text::optional(self.session),
                    text::optional(self.project),
                    self.task_key@,
                    self.input_tokens,
                    402,
                    self.over_cost_text(),
                    self.forced,
                ),
                self.now,
            )
        } else {
            halt is None && before == after
        }
    }

    /// How a lookup in the cache ends: a hit is counted, recorded and answered.
    pub open spec fn lookup_effect(self, before: Store, after: Store, halt: Option<Halt>) -> bool {
        match (self.cache_key, self.cached(before)) {
            (Some(key), Some(answer)) => {
                exists|mid: Store|
                    #![trigger logging::looked_up(before, mid, key@, self.now)]
                    {
                        &&& logging::looked_up(before, mid, key@, self.now)
                        &&& if self.is_stream {
                            &&& halt matches Some(Halt::CachedStream { body }) && body@ == answer
                            &&& logging::appended(
                                mid,
                                after,
                                self.cached_stream_record(answer),
                                self.now,
                            )
                        } else {
                            &&& halt matches Some(Halt::Cached { payload }) && payload@
                                == cached_payload(answer)
                            &&& logging::appended(
                                mid,
                                after,
                                self.cached_record(cached_payload(answer)),
                                self.now,
                            )
                        }
                    }
            },
            (Some(key), None) => halt is None && logging::looked_up(before, after, key@, self.now),
            (None, _) => halt is None && before == after,
        }
    }

    /// How an answer is kept: only a complete one, and only where there is a key for it.
    pub open spec fn keep_effect(self, out: PluginOutcome, before: Store, after: Store) -> bool {
        match (out.error, self.cache_key, out.body) {
            (None, Some(key), Some(body)) => exists|mid: Store|
                #![trigger logging::stored(
                    before,
                    mid,
                    key@,
                    self.entry@.model,
                    body@,
                    self.ttl_seconds,
                    self.now,
                )]
                {
                    &&& logging::stored(
                        before,
                        mid,
                        key@,
                        self.entry@.model,
                        body@,
                        self.ttl_seconds,
                        self.now,
                    )
                    &&& match self.semantic {
                        Some(s) => logging::semantically_stored(
                            mid,
                            after,
                            s.scope@,
                            s.embedding@,
                            body@,
                            self.ttl_seconds,
                            self.now,
                        ),
                        None => mid == after,
                    }
                },
            _ => before == after,
        }
    }
}

impl PluginCtx {
    /// What is done before the request is forwarded.
    pub open spec fn start_effect(self, before: Store, after: Store, halt: Option<Halt>) -> bool {
        if self.over_cost() {
            self.budget_effect(before, after, halt)
        } else {
            self.lookup_effect(before, after, halt)
        }
    }

    /// What is done when the forwarded request has ended: it is recorded, and then its answer is
    /// kept.
    pub open spec fn end_effect(self, out: PluginOutcome, before: Store, after: Store) -> bool {
        exists|mid: Store|
            #![trigger logging::appended(before, mid, self.outcome_record(out), self.now)]
            logging::appended(before, mid, self.outcome_record(out), self.now)
                && self.keep_effect(out, mid, after)
    }
}

/// A cached answer as a tree; an empty object where it cannot be read.
pub open spec fn cached_payload(answer: Seq<char>) -> JVal {
    match json::json_parse(answer) {
        Some(v) => v,
        None => JVal::empty_object(),
    }
}

fn hit_log(ctx: &PluginCtx, prompt: u64, completion: u64, tool_call: bool) -> (r: RequestLog)
    ensures
        r@ == ctx.hit_record(prompt, completion, tool_call),
{
    let mut r = RequestLog::default();
    r.tool = ctx.tool.clone();
    r.session = text::copy_optional(&ctx.session);
    r.task_type = ctx.task_key.clone();
    r.model = ctx.entry.model.clone();
    r.provider = ctx.entry.provider.clone();
    r.tier = ctx.tier;
    r.budget_pressure = ctx.pressure;
    r.prompt_tokens = prompt;
    r.completion_tokens = completion;
    r.latency_ms = ctx.latency_ms;
    r.status = 200;
    r.cache_hit = true;
    r.forced = ctx.forced;
    r.project = text::copy_optional(&ctx.project);
    r.tools_expected = ctx.tools_expected;
    r.tool_call_present = tool_call;
    r
}

fn or_zero(n: Option<u64>) -> (r: u64)
    ensures
        r == providers::or_zero(n),
{
    match n {
        Some(x) => x,
        None => 0,
    }
}

/// Records and answers a cached answer.
pub fn cache_hit_response(ctx: &PluginCtx, cached: &str, store: &mut Store) -> (payload: Json)
    ensures
        payload@ == cached_payload(cached@),
        logging::appended(
            *old(store),
            *final(store),
            ctx.cached_record(cached_payload(cached@)),
            ctx.now,
        ),
{
    let payload = match Json::parse(cached) {
        Some(v) => v,
        None => Json::object(),
    };
    let (prompt, completion): (Option<u64>, Option<u64>) = match payload.get("usage") {
        Some(u) => (u.uint_at("prompt_tokens"), u.uint_at("completion_tokens")),
        None => (None, None),
    };
    let tool_call = api::response_has_tool_call(&payload);
    store.insert(hit_log(ctx, or_zero(prompt), or_zero(completion), tool_call), ctx.now);
    payload
}

/// Records a cached stream.
pub fn cache_hit_stream_response(ctx: &PluginCtx, cached: &str, store: &mut Store)
    ensures
        logging::appended(
            *old(store),
            *final(store),
            ctx.cached_stream_record(cached@),
            ctx.now,
        ),
{
    let events = stream::sse_events(cached);
    let usage = stream::usage_of_events(&events);
    let tool_call = match &usage.finish {
        Some(f) => text::same(f.as_str(), "tool_calls"),
        None => false,
    };
    store.insert(
        hit_log(ctx, or_zero(usage.prompt), or_zero(usage.completion), tool_call),
        ctx.now,
    );
}

/// The concerns of the router.
#[derive(Debug, Clone, Copy, PartialEq, Eq, Structural)]
pub enum Concern {
    Budget,
    Cache,
    Logging,
}

/// A concern at work on a request.
pub struct Stage<'a> {
    pub concern: Concern,
    pub ctx: &'a PluginCtx,
    /// How the request ended, once it has.
    pub out: Option<&'a PluginOutcome>,
}

impl<'a> Stage<'a> {
    fn check_cost(&self, state: &mut Store) -> (halt: Option<Halt>)
        ensures
            self.ctx.budget_effect(*old(state), *final(state), halt),
    {
        let ctx = self.ctx;
        match &ctx.max_cost {
            Some(c) => {
                if c.cap.below(c.estimate) {
                    let mut message = "Schätzkosten ".to_owned();
                    message.append(c.estimate_text.as_str());
                    message.append(" USD über max-cost ");
                    message.append(c.cap_text.as_str());
                    let log = failure_log(
                        ctx.tool.as_str(),
                        &ctx.session,
                        &ctx.project,
                        ctx.task_key.as_str(),
                        ctx.input_tokens,
                        402,
                        message.as_str(),
                        ctx.forced,
                    );
                    state.insert(log, ctx.now);
                    Some(Halt::OverCost { message })
                } else {
                    None
                }
            },
            None => None,
        }
    }

    fn look_up(&self, state: &mut Store) -> (halt: Option<Halt>)
        ensures
            self.ctx.lookup_effect(*old(state), *final(state), halt),
    {
        let ctx = self.ctx;
        match &ctx.cache_key {
            Some(key) => match state.cache_lookup(key.as_str(), ctx.now) {
                Some(cached) => {
                    assert(logging::looked_up(*old(state), *state, key@, ctx.now));
                    if ctx.is_stream {
                        cache_hit_stream_response(ctx, cached.as_str(), state);
                        Some(Halt::CachedStream { body: cached })
                    } else {
                        let payload = cache_hit_response(ctx, cached.as_str(), state);
                        Some(Halt::Cached { payload })
                    }
                },
                None => None,
            },
            None => None,
        }
    }

    fn keep(&self, out: &PluginOutcome, state: &mut Store)
        ensures
            self.ctx.keep_effect(*out, *old(state), *final(state)),
    {
        let ctx = self.ctx;
        if out.error.is_some() {
            return ;
        }
        match &ctx.cache_key {
            Some(key) => match &out.body {
                Some(body) => {
                    state.cache_store(
                        key.as_str(),
                        ctx.entry.model.as_str(),
                        body.as_str(),
                        ctx.ttl_seconds,
                        ctx.now,
                    );
                    assert(logging::stored(
                        *old(state),
                        *state,
                        key@,
                        ctx.entry@.model,
                        body@,
                        ctx.ttl_seconds,
                        ctx.now,
                    ));
                    match &ctx.semantic {
                        Some(s) => {
                            let bits = logging::copy_bits(&s.embedding);
                            state.semantic_cache_store(
                                s.scope.as_str(),
                                bits,
                                body.as_str(),
                                ctx.ttl_seconds,
                                ctx.now,
                            );
                        },
                        None => {},
                    }
                },
                None => {},
            },
            None => {},
        }
    }

    fn record(&self, out: &PluginOutcome, state: &mut Store)
        ensures
            logging::appended(
                *old(state),
                *final(state),
                self.ctx.outcome_record(*out),
                self.ctx.now,
            ),
    {
        let ctx = self.ctx;
        let log = RequestLog {
            tool: ctx.tool.clone(),
            session: text::copy_optional(&ctx.session),
            task_type: ctx.task_key.clone(),
            model: ctx.entry.model.clone(),
            provider: ctx.entry.provider.clone(),
            tier: ctx.tier,
            used_fallback: out.used_fallback,
            degraded: out.degraded,
            budget_pressure: ctx.pressure,
            estimated_tokens: out.estimated_tokens,
            prompt_tokens: out.prompt_tokens,
            completion_tokens: out.completion_tokens,
            estimated_cost_usd: out.estimated_cost_usd,
            real_cost_usd: out.real_cost_usd,
            latency_ms: ctx.latency_ms,
            status: out.status,
            cache_hit: false,
            attempts: out.attempts,
            attempt_trail: text::copy_optional(&out.attempt_trail),
            stop_reason: text::copy_optional(&out.stop_reason),
            error: text::copy_optional(&out.error),
            forced: ctx.forced,
            project: text::copy_optional(&ctx.project),
            tools_expected: ctx.tools_expected,
            tool_call_present: out.tool_call_present,
        };
        state.insert(log, ctx.now);
    }
}

impl<'a> Plugin<Store, Halt> for Stage<'a> {
    open spec fn pre_effect(&self, before: Store, after: Store, halt: Option<Halt>) -> bool {
        match self.concern {
            Concern::Budget => self.ctx.budget_effect(before, after, halt),
            Concern::Cache => self.ctx.lookup_effect(before, after, halt),
            Concern::Logging => halt is None && before == after,
        }
    }

    open spec fn post_effect(&self, before: Store, after: Store) -> bool {
        match (self.concern, self.out) {
            (Concern::Cache, Some(out)) => self.ctx.keep_effect(*out, before, after),
            (Concern::Logging, Some(out)) => logging::appended(
                before,
                after,
                self.ctx.outcome_record(*out),
                self.ctx.now,
            ),
            _ => before == after,
        }
    }

    fn pre(&self, state: &mut Store) -> (halt: Option<Halt>) {
        match self.concern {
            Concern::Budget => self.check_cost(state),
            Concern::Cache => self.look_up(state),
            Concern::Logging => None,
        }
    }

    fn post(&self, state: &mut Store) {
        match (self.concern, self.out) {
            (Concern::Cache, Some(out)) => {
                self.keep(out, state);
            },
            (Concern::Logging, Some(out)) => {
                self.record(out, state);
            },
            _ => {},
        }
    }
}

impl<'a> PluginPipeline<Stage<'a>> {
    /// The concerns of the router, in their order: the limit on the cost, the cache, the log.
    pub fn standard(ctx: &'a PluginCtx, out: Option<&'a PluginOutcome>) -> (r: PluginPipeline<
        Stage<'a>,
    >)
        ensures
            r.plugins@ == seq![
                Stage { concern: Concern::Budget, ctx, out },
                Stage { concern: Concern::Cache, ctx, out },
                Stage { concern: Concern::Logging, ctx, out },
            ],
    {
        let mut plugins: Vec<Stage<'a>> = Vec::new();
        plugins.push(Stage { concern: Concern::Budget, ctx, out });
        plugins.push(Stage { concern: Concern::Cache, ctx, out });
        plugins.push(Stage { concern: Concern::Logging, ctx, out });
        assert(plugins@ =~= seq![
            Stage { concern: Concern::Budget, ctx, out },
            Stage { concern: Concern::Cache, ctx, out },
            Stage { concern: Concern::Logging, ctx, out },
        ]);
        PluginPipeline { plugins }
    }
}

/// What is done before a request is forwarded: one that would cost too much is refused and
/// recorded; otherwise an answer in the cache is recorded and ends the request.
pub fn before_forwarding(ctx: &PluginCtx, store: &mut Store) -> (halt: Option<Halt>)
    ensures
        ctx.start_effect(*old(store), *final(store), halt),
{
    let pipeline = PluginPipeline::standard(ctx, None);
    let halt = pipeline.run_pre(store);
    proof {
        reveal_with_fuel(pre_run, 4);
        let p = pipeline.plugins@;
        assert(p.drop_first()[0] == p[1]);
        assert(p.drop_first().drop_first()[0] == p[2]);
        assert(p.drop_first().drop_first().drop_first().len() == 0);
    }
    halt
}

/// What is done when a forwarded request has ended: it is recorded, and then its answer is kept.
pub fn after_forwarding(ctx: &PluginCtx, out: &PluginOutcome, store: &mut Store)
    ensures
        ctx.end_effect(*out, *old(store), *final(store)),
{
    let ghost before = *store;
    let pipeline = PluginPipeline::standard(ctx, Some(out));
    pipeline.run_post::<Store, Halt>(store);
    proof {
        let p = pipeline.plugins@;
        assert(post_run::<Store, Halt, Stage>(p, before, *store));
        let mid = choose|mid: Store|
            #![trigger p.last().post_effect(before, mid)]
            p.last().post_effect(before, mid) && post_run::<Store, Halt, Stage>(
                p.drop_last(),
                mid,
                *store,
            );
        assert(p.last() == p[2]);
        let q = p.drop_last();
        assert(q.last() == p[1]);
        let late = choose|late: Store|
            #![trigger q.last().post_effect(mid, late)]
            q.last().post_effect(mid, late) && post_run::<Store, Halt, Stage>(
                q.drop_last(),
                late,
                *store,
            );
        let b = q.drop_last();
        assert(b.last() == p[0]);
        let end = choose|end: Store|
            #![trigger b.last().post_effect(late, end)]
            b.last().post_effect(late, end) && post_run::<Store, Halt, Stage>(
                b.drop_last(),
                end,
                *store,
            );
        assert(b.drop_last().len() == 0);
        assert(end == *store);
        assert(late == end);
        assert(logging::appended(before, mid, ctx.outcome_record(*out), ctx.now));
    }
}

/// A request that would cost more than the caller allows is never answered from the cache, and
/// nothing but the refusal is recorded of it.
pub proof fn law_cost_limit_comes_first(
    ctx: PluginCtx,
    before: Store,
    after: Store,
    halt: Option<Halt>,
)
    requires
        ctx.over_cost(),
        ctx.budget_effect(before, after, halt),
    ensures
        halt matches Some(Halt::OverCost { .. }),
        after.cache == before.cache,
        after.rows@.len() == before.rows@.len() + 1,
        after.rows@.last().log@.status == 402,
{
}

/// An answer that broke off is not kept.
pub proof fn law_broken_answer_is_not_kept(
    ctx: PluginCtx,
    out: PluginOutcome,
    before: Store,
    after: Store,
)
    requires
        out.error is Some,
        ctx.keep_effect(out, before, after),
    ensures
        before == after,
{
}

/// What was kept of an answer is what the same request is answered from the cache until the
/// answer expires.
pub proof fn law_kept_answer_is_served(
    ctx: PluginCtx,
    out: PluginOutcome,
    before: Store,
    after: Store,
    again: PluginCtx,
)
    requires
        out.error is None,
        ctx.cache_key matches Some(key) && again.cache_key matches Some(other) && key@ == other@,
        out.body is Some,
        ctx.keep_effect(out, before, after),
        again.now < logging::expiry(ctx.now, ctx.ttl_seconds),
    ensures
        again.cached(after) == Some(out.body.unwrap()@),
{
    let key = ctx.cache_key.unwrap()@;
    let body = out.body.unwrap()@;
    let mid = choose|mid: Store|
        #![trigger logging::stored(
            before,
            mid,
            key,
            ctx.entry@.model,
            body,
            ctx.ttl_seconds,
            ctx.now,
        )]
        {
            &&& logging::stored(
                before,
                mid,
                key,
                ctx.entry@.model,
                body,
                ctx.ttl_seconds,
                ctx.now,
            )
            &&& match ctx.semantic {
                Some(s) => logging::semantically_stored(
                    mid,
                    after,
                    s.scope@,
                    s.embedding@,
                    body,
                    ctx.ttl_seconds,
                    ctx.now,
                ),
                None => mid == after,
            }
        };
    logging::law_read_after_store(
        before,
        mid,
        key,
        ctx.entry@.model,
        body,
        ctx.ttl_seconds,
        ctx.now,
        key,
        again.now,
    );
}

/// A request whose answer was kept gets the same answer again until it expires: a stream byte by
/// byte, and any other answer as the tree that its text reads as.
pub proof fn law_kept_answer_is_replayed(
    ctx: PluginCtx,
    out: PluginOutcome,
    before: Store,
    after: Store,
    again: PluginCtx,
    end: Store,
    halt: Option<Halt>,
)
    requires
        out.error is None,
        ctx.cache_key matches Some(key) && again.cache_key matches Some(other) && key@ == other@,
        out.body is Some,
        ctx.keep_effect(out, before, after),
        again.now < logging::expiry(ctx.now, ctx.ttl_seconds),
        again.lookup_effect(after, end, halt),
    ensures
        again.is_stream ==> (halt matches Some(Halt::CachedStream { body }) && body@
            == out.body.unwrap()@),
        !again.is_stream ==> (halt matches Some(Halt::Cached { payload }) && payload@
            == cached_payload(out.body.unwrap()@)),
{
    law_kept_answer_is_served(ctx, out, before, after, again);
}

/// How what ends a request early is answered: what costs too much with 402 and no mark, a cached
/// answer with 200 and the mark of a hit, a stream also as one.
pub proof fn law_early_answers(h: Halt)
    ensures
        h is OverCost ==> h.code() == 402 && h.marks().len() == 0,
        h is Cached ==> h.code() == 200 && h.marks() == seq![("x-llmux-cache"@, "hit"@)],
        h is CachedStream ==> h.code() == 200 && h.marks() == seq![
            ("content-type"@, "text/event-stream"@),
            ("x-llmux-cache"@, "hit"@),
        ],
{
}

/// A request is refused for its cost exactly where the caller sets a limit and the estimate lies
/// above it. Then the answer names both, and the refusal is recorded with the status 402, for the
/// caller, project and task that it came from, without a model and without cost.
pub proof fn law_refused_for_its_cost(ctx: PluginCtx, before: Store, after: Store, halt: Option<Halt>)
    requires
        ctx.start_effect(before, after, halt),
    ensures
        (halt is Some && halt->Some_0 is OverCost) <==> (ctx.max_cost matches Some(c) && c.cap.lt(
            c.estimate,
        )),
        halt matches Some(Halt::OverCost { message }) ==> {
            let c = ctx.max_cost->Some_0;
            let log = after.rows@.last().log@;
            &&& message@ == "Schätzkosten "@ + c.estimate_text@ + " USD über max-cost "@
                + c.cap_text@
            &&& after.rows@.len() == before.rows@.len() + 1
            &&& log.status == 402 && log.error == Some(message@)
            &&& log.tool == ctx.tool@ && log.session == text::optional(ctx.session)
            &&& log.project == text::optional(ctx.project) && log.task_type == ctx.task_key@
            &&& log.estimated_tokens == ctx.input_tokens && log.forced == ctx.forced
            &&& log.model.len() == 0 && log.provider.len() == 0 && !log.cache_hit
            &&& log.real_cost_usd.bits == 0 && log.estimated_cost_usd.bits == 0 && log.attempts == 0
        },
{
}

/// A request goes on to a provider exactly where it is not refused for its cost and the cache has
/// no unexpired entry under its key; then nothing is recorded yet.
pub proof fn law_forwarded_without_a_hit(
    ctx: PluginCtx,
    before: Store,
    after: Store,
    halt: Option<Halt>,
)
    requires
        ctx.start_effect(before, after, halt),
    ensures
        halt is None <==> !(ctx.max_cost matches Some(c) && c.cap.lt(c.estimate)) && (
        ctx.cache_key matches Some(key) ==> forall|i: int|
            0 <= i < before.cache@.len() ==> (#[trigger] before.cache@[i]).key@ != key@
                || before.cache@[i].expires <= ctx.now),
        halt is None ==> after.rows == before.rows && after.semantic == before.semantic,
{
    if ctx.cache_key is Some {
        logging::law_cache_answers(before.cache@, ctx.cache_key->Some_0@, ctx.now);
    }
}

/// An answer from the cache is recorded as a hit: with the status 200, without cost and attempts,
/// under the planned model and with what the request said of itself. Its tokens are those that the
/// cached answer reports.
pub proof fn law_hits_are_recorded(ctx: PluginCtx, before: Store, after: Store, halt: Option<Halt>)
    requires
        ctx.start_effect(before, after, halt),
        halt is Some,
        !(halt->Some_0 is OverCost),
    ensures
        ({
            let log = after.rows@.last().log@;
            &&& after.rows@.len() == before.rows@.len() + 1
            &&& after.rows@.last().at == ctx.now
            &&& log.status == 200 && log.cache_hit && log.error is None
            &&& log.model == ctx.entry@.model && log.provider == ctx.entry@.provider
            &&& log.tier == ctx.tier && log.budget_pressure == ctx.pressure
            &&& log.tool == ctx.tool@ && log.session == text::optional(ctx.session)
            &&& log.project == text::optional(ctx.project) && log.task_type == ctx.task_key@
            &&& log.forced == ctx.forced && log.tools_expected == ctx.tools_expected
            &&& log.latency_ms == ctx.latency_ms
            &&& log.real_cost_usd.bits == 0 && log.estimated_cost_usd.bits == 0 && log.attempts == 0
            &&& !log.used_fallback && !log.degraded
            &&& (halt->Some_0 matches Halt::Cached { payload } ==> !ctx.is_stream
                && log.prompt_tokens == (match payload@.at("usage"@).get("prompt_tokens"@) {
                Some(JVal::Uint(n)) => n,
                _ => 0,
            }) && log.completion_tokens == (match payload@.at("usage"@).get(
                "completion_tokens"@,
            ) {
                Some(JVal::Uint(n)) => n,
                _ => 0,
            }) && log.tool_call_present == api::calls_tool(payload@))
            &&& (halt->Some_0 matches Halt::CachedStream { body } ==> {
                let usage = stream::usage_of(stream::events_of(stream::lines_of(body@)));
                &&& ctx.is_stream
                &&& usage.prompt matches Some(n) ==> log.prompt_tokens == n
                &&& usage.completion matches Some(n) ==> log.completion_tokens == n
                &&& usage.prompt is None ==> log.prompt_tokens == 0
                &&& usage.completion is None ==> log.completion_tokens == 0
                &&& log.tool_call_present == (usage.finish == Some("tool_calls"@))
            })
        }),
{
}

/// A forwarded request is recorded as it ended: once, at that time, with the model that answered,
/// the status, the tokens and costs, the attempts and how they went, and not as a hit.
pub proof fn law_outcomes_are_recorded(
    ctx: PluginCtx,
    out: PluginOutcome,
    before: Store,
    after: Store,
)
    requires
        ctx.end_effect(out, before, after),
    ensures
        ({
            let log = after.rows@.last().log@;
            &&& after.rows@.len() == before.rows@.len() + 1
            &&& after.rows@.last().at == ctx.now
            &&& log.model == ctx.entry@.model && log.provider == ctx.entry@.provider
            &&& log.tier == ctx.tier && log.budget_pressure == ctx.pressure
            &&& log.tool == ctx.tool@ && log.session == text::optional(ctx.session)
            &&& log.project == text::optional(ctx.project) && log.task_type == ctx.task_key@
            &&& log.forced == ctx.forced && log.tools_expected == ctx.tools_expected
            &&& log.latency_ms == ctx.latency_ms && !log.cache_hit
            &&& log.status == out.status && log.error == text::optional(out.error)
            &&& log.used_fallback == out.used_fallback && log.degraded == out.degraded
            &&& log.estimated_tokens == out.estimated_tokens
            &&& log.prompt_tokens == out.prompt_tokens
            &&& log.completion_tokens == out.completion_tokens
            &&& log.estimated_cost_usd == out.estimated_cost_usd
            &&& log.real_cost_usd == out.real_cost_usd
            &&& log.attempts == out.attempts
            &&& log.attempt_trail == text::optional(out.attempt_trail)
            &&& log.stop_reason == text::optional(out.stop_reason)
            &&& log.tool_call_present == out.tool_call_present
        }),
{
    let mid = choose|mid: Store|
        #![trigger logging::appended(before, mid, ctx.outcome_record(out), ctx.now)]
        logging::appended(before, mid, ctx.outcome_record(out), ctx.now) && ctx.keep_effect(
            out,
            mid,
            after,
        );
    assert(after.rows == mid.rows);
}

/// When an answer is kept: exactly where it is complete, the request may use the cache and there is
/// something to keep. Then it is what the cache answers for its key until it expires, and no other
/// key is answered otherwise than before.
pub proof fn law_when_answers_are_kept(
    ctx: PluginCtx,
    out: PluginOutcome,
    before: Store,
    after: Store,
    key: Seq<char>,
    later: u128,
)
    requires
        ctx.keep_effect(out, before, after),
    ensures
        out.error is Some || ctx.cache_key is None || out.body is None ==> after == before,
        out.error is None && out.body is Some && text::optional(ctx.cache_key) == Some(key)
            ==> logging::cached_answer(after.cache@, key, later) == if later < logging::expiry(
            ctx.now,
            ctx.ttl_seconds,
        ) {
            Some(out.body->Some_0@)
        } else {
            None
        },
        text::optional(ctx.cache_key) != Some(key) ==> logging::cached_answer(
            after.cache@,
            key,
            later,
        ) == logging::cached_answer(before.cache@, key, later),
{
    if out.error is None && ctx.cache_key is Some && out.body is Some {
        let own = ctx.cache_key->Some_0@;
        let body = out.body->Some_0@;
        let mid = choose|mid: Store|
            #![trigger logging::stored(
                before,
                mid,
                own,
                ctx.entry@.model,
                body,
                ctx.ttl_seconds,
                ctx.now,
            )]
            {
                &&& logging::stored(
                    before,
                    mid,
                    own,
                    ctx.entry@.model,
                    body,
                    ctx.ttl_seconds,
                    ctx.now,
                )
                &&& match ctx.semantic {
                    Some(s) => logging::semantically_stored(
                        mid,
                        after,
                        s.scope@,
                        s.embedding@,
                        body,
                        ctx.ttl_seconds,
                        ctx.now,
                    ),
                    None => mid == after,
                }
            };
        logging::law_read_after_store(
            before,
            mid,
            own,
            ctx.entry@.model,
            body,
            ctx.ttl_seconds,
            ctx.now,
            key,
            later,
        );
    }
}

/// Plugins run before a request in their order, and one that halts it is the last that runs; behind
/// a request they run in the opposite order.
pub proof fn law_plugins_run_in_order<S, H, P: Plugin<S, H>>(
    first: P,
    rest: Seq<P>,
    before: S,
    mid: S,
    after: S,
    halt: Option<H>,
)
    ensures
        pre_run::<S, H, P>(Seq::empty(), before, after, halt) <==> before == after && halt is None,
        post_run::<S, H, P>(Seq::empty(), before, after) <==> before == after,
        first.pre_effect(before, after, halt) && halt is Some ==> pre_run(
            seq![first] + rest,
            before,
            after,
            halt,
        ),
        first.pre_effect(before, mid, None) && pre_run(rest, mid, after, halt) ==> pre_run(
            seq![first] + rest,
            before,
            after,
            halt,
        ),
        first.post_effect(before, mid) && post_run::<S, H, P>(rest, mid, after) ==> post_run::<
            S,
            H,
            P,
        >(rest.push(first), before, after),
{
    let all = seq![first] + rest;
    assert(all[0] == first);
    assert(all.drop_first() =~= rest);
    let back = rest.push(first);
    assert(back.last() == first);
    assert(back.drop_last() =~= rest);
}

} // verus!
