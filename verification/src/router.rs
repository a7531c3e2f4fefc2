//! Choosing models: hard filters, then an order of preference, then the budget.
use vstd::prelude::*;
use vstd::string::*;
use crate::config::{Config, ModelEntry, ModelView, Profile, ProjectProfile, TaskRule};
use crate::float::Real;
use crate::logging::{LogView, Store};
use crate::order::Ranking;
use crate::stats::{GroupBy, ModelLatency, Timing};
use crate::table::Table;
use crate::{float, logging, order, providers, stats, table, text};

verus! {

/// The model that a session used last.
#[derive(Debug)]
pub struct StickyChoice {
    pub provider: String,
    pub model: String,
    pub tier: u8,
}

/// The model of a session's choice.
#[verifier::ext_equal]
pub struct ChoiceView {
    pub provider: Seq<char>,
    pub model: Seq<char>,
    pub tier: u8,
}

impl View for StickyChoice {
    type V = ChoiceView;

    open spec fn view(&self) -> ChoiceView {
        ChoiceView { provider: self.provider@, model: self.model@, tier: self.tier }
    }
}

/// What each session used last.
#[derive(Debug)]
pub struct SessionStore {
    pub inner: Table<StickyChoice>,
}

impl Default for SessionStore {
    fn default() -> (r: SessionStore)
        ensures
            forall|id: Seq<char>| r.choice(id) is None,
    {
        SessionStore { inner: Table::new() }
    }
}

impl SessionStore {
    /// What a session used last.
    pub open spec fn choice(self, id: Seq<char>) -> Option<ChoiceView> {
        match self.inner.at(id) {
            Some(c) => Some(c@),
            None => None,
        }
    }

    /// What the session `id` used last: provider, model and tier.
    pub fn get(&self, id: &str) -> (r: Option<(String, String, u8)>)
        ensures
            match r {
                Some(c) => self.choice(id@) == Some(
                    ChoiceView { provider: c.0@, model: c.1@, tier: c.2 },
                ),
                None => self.choice(id@) is None,
            },
    {
        match self.inner.get(id) {
            Some(c) => Some((c.provider.clone(), c.model.clone(), c.tier)),
            None => None,
        }
    }

    /// Notes what the session `id` uses now.
    pub fn set(&mut self, id: &str, provider: &str, model: &str, tier: u8)
        ensures
            forall|k: Seq<char>| #[trigger]
                final(self).choice(k) == if k == id@ {
                    Some(ChoiceView { provider: provider@, model: model@, tier })
                } else {
                    old(self).choice(k)
                },
    {
        let choice = StickyChoice { provider: provider.to_owned(), model: model.to_owned(), tier };
        self.inner.insert(id, choice);
        assert forall|k: Seq<char>| #[trigger] self.choice(k) == if k == id@ {
            Some(ChoiceView { provider: provider@, model: model@, tier })
        } else {
            old(self).choice(k)
        } by {
            assert(self.inner.at(k) == if k == id@ {
                Some(choice)
            } else {
                old(self).inner.at(k)
            });
        }
    }
}

/// What a request asks of the models.
pub struct SelectInput<'a> {
    pub task_key: &'a str,
    pub requires_tools: bool,
    pub input_tokens: u64,
    /// The part of the input that providers may have cached.
    pub cached_prefix_tokens: u64,
    pub session: Option<&'a str>,
    pub project: Option<&'a ProjectProfile>,
    /// Capabilities that the request needs besides tools.
    pub req_capabilities: &'a [String],
    pub profile: Profile,
}

/// How far the budgets are used up.
#[derive(Debug, Clone, Copy)]
pub struct Spending {
    /// What was spent today, as a share of the daily limit.
    pub day_share: Real,
    /// What was spent this month, as a share of the monthly limit.
    pub month_share: Real,
    /// The daily limit less what was spent today.
    pub day_rest: Real,
    /// The monthly limit less what was spent this month.
    pub month_rest: Real,
}

/// Estimates that take floating-point arithmetic.
#[derive(Debug)]
pub struct Estimates {
    pub spending: Spending,
    /// The output tokens that the task makes likely.
    pub expected_output: u64,
    /// The estimated cost of the request with each model of the catalogue.
    pub costs: Vec<Real>,
}

/// Chosen models.
#[derive(Debug)]
pub struct Selection {
    /// The models to try, in order.
    pub chain: Vec<ModelEntry>,
    /// Their positions in the catalogue.
    pub positions: Vec<usize>,
    pub tier: u8,
    /// The budget forced a tier below what the task wants.
    pub degraded: bool,
    pub budget_pressure: Real,
    pub expected_output_tokens: u64,
}

#[derive(Debug)]
pub enum SelectError {
    /// There is no rule for the task type.
    UnknownTask(String),
    /// No model passes the hard filters.
    NoCandidate(String),
    /// No model that passes them fits the rest of the budget.
    BudgetExceeded,
}

/// The larger share of the two budgets that is used up, 0 without limits.
pub open spec fn pressure_of(cfg: Config, s: Spending) -> Real {
    let zero = Real { bits: 0 };
    let day = match cfg.budgets.daily_max_usd {
        Some(d) => if zero.lt(d) {
            zero.larger(s.day_share)
        } else {
            zero
        },
        None => zero,
    };
    match cfg.budgets.monthly_max_usd {
        Some(m) => if zero.lt(m) {
            day.larger(s.month_share)
        } else {
            day
        },
        None => day,
    }
}

/// The larger share of the two budgets that is used up.
pub fn current_pressure(cfg: &Config, s: &Spending) -> (r: Real)
    ensures
        r == pressure_of(*cfg, *s),
{
    let mut p = Real::zero();
    match cfg.budgets.daily_max_usd {
        Some(d) => {
            if Real::zero().below(d) {
                p = p.max(s.day_share);
            }
        },
        None => {},
    }
    match cfg.budgets.monthly_max_usd {
        Some(m) => {
            if Real::zero().below(m) {
                p = p.max(s.month_share);
            }
        },
        None => {},
    }
    p
}

/// The smaller rest of the two budgets, never below 0; infinite without limits.
pub open spec fn remaining_of(cfg: Config, s: Spending) -> Real {
    let zero = Real { bits: 0 };
    let unlimited = Real { bits: float::INFINITE };
    let day = match cfg.budgets.daily_max_usd {
        Some(_) => unlimited.smaller(s.day_rest.larger(zero)),
        None => unlimited,
    };
    match cfg.budgets.monthly_max_usd {
        Some(_) => day.smaller(s.month_rest.larger(zero)),
        None => day,
    }
}

/// The smaller rest of the two budgets.
pub fn remaining_budget(cfg: &Config, s: &Spending) -> (r: Real)
    ensures
        r == remaining_of(*cfg, *s),
{
    let mut rem = Real::infinity();
    match cfg.budgets.daily_max_usd {
        Some(_) => {
            rem = rem.min(s.day_rest.max(Real::zero()));
        },
        None => {},
    }
    match cfg.budgets.monthly_max_usd {
        Some(_) => {
            rem = rem.min(s.month_rest.max(Real::zero()));
        },
        None => {},
    }
    rem
}

/// The lowest ceiling among the first `n` downgrade rules that the pressure has reached.
pub open spec fn ceiling(cfg: Config, pressure: Real, n: nat) -> u8
    decreases n,
{
    if n == 0 {
        u8::MAX
    } else {
        let before = ceiling(cfg, pressure, (n - 1) as nat);
        let rule = cfg.budgets.pressure_downgrade@[n - 1];
        if rule.at.le(pressure) && rule.max_tier < before {
            rule.max_tier
        } else {
            before
        }
    }
}

/// The highest tier that the pressure on the budget leaves.
pub open spec fn tier_ceiling(cfg: Config, pressure: Real) -> u8 {
    ceiling(cfg, pressure, cfg.budgets.pressure_downgrade@.len())
}

/// The highest tier that the pressure on the budget leaves.
pub fn tier_cap_for(cfg: &Config, pressure: Real) -> (r: u8)
    ensures
        r == tier_ceiling(*cfg, pressure),
{
    let mut cap: u8 = u8::MAX;
    let mut i: usize = 0;
    while i < cfg.budgets.pressure_downgrade.len()
        invariant
            i <= cfg.budgets.pressure_downgrade@.len(),
            cap == ceiling(*cfg, pressure, i as nat),
        decreases cfg.budgets.pressure_downgrade.len() - i,
    {
        let rule = &cfg.budgets.pressure_downgrade[i];
        if rule.at.at_most(pressure) && rule.max_tier < cap {
            cap = rule.max_tier;
        }
        i += 1;
    }
    cap
}

/// The hard conditions that a request puts on models.
#[verifier::ext_equal]
pub struct Terms {
    pub caps: Seq<Seq<char>>,
    pub local_only: bool,
    pub needed_context: int,
    pub floor: u8,
    pub ceiling: u8,
    pub degraded: bool,
}

/// The capabilities that a request and its rule need together.
pub open spec fn required_caps(
    rule: Option<TaskRule>,
    requires_tools: bool,
    req_capabilities: Seq<String>,
) -> Seq<Seq<char>> {
    let tools = if requires_tools || (rule matches Some(r) && r.require_tools) {
        seq!["tools"@]
    } else {
        Seq::empty()
    };
    let task = match rule {
        Some(r) => text::texts(r.require_capabilities@),
        None => Seq::empty(),
    };
    tools + task + text::texts(req_capabilities)
}

/// The lowest tier that a task and a project want together.
pub open spec fn wanted_tier(rule: TaskRule, project: Option<ProjectProfile>) -> u8 {
    match project {
        Some(p) => match p.min_tier {
            Some(t) => if t > rule.min_tier {
                t
            } else {
                rule.min_tier
            },
            None => rule.min_tier,
        },
        None => rule.min_tier,
    }
}

/// Whether only local providers are admitted: for what must not leave for a cloud, whatever its
/// rule says, and where the rule or the project demands it.
pub open spec fn confined(
    task_key: Seq<char>,
    rule: Option<TaskRule>,
    project: Option<ProjectProfile>,
) -> bool {
    ||| task_key == "private_sensitive"@
    ||| (rule matches Some(r) && r.local_only)
    ||| (project matches Some(p) && p.local_only)
}

/// Whether only local providers are admitted.
pub fn is_confined(
    task_key: &str,
    rule: Option<&TaskRule>,
    project: Option<&ProjectProfile>,
) -> (r: bool)
    ensures
        r == confined(
            task_key@,
            match rule {
                Some(x) => Some(*x),
                None => None,
            },
            match project {
                Some(p) => Some(*p),
                None => None,
            },
        ),
{
    if text::same(task_key, "private_sensitive") {
        return true;
    }
    let by_rule = match rule {
        Some(x) => x.local_only,
        None => false,
    };
    let by_project = match project {
        Some(p) => p.local_only,
        None => false,
    };
    by_rule || by_project
}

/// The hard conditions of a request under a rule. Where the budget's ceiling lies below the
/// tier that is wanted, the request is degraded and any tier up to the ceiling will do.
pub open spec fn terms_of(
    cfg: Config,
    task_key: Seq<char>,
    rule: TaskRule,
    project: Option<ProjectProfile>,
    requires_tools: bool,
    req_capabilities: Seq<String>,
    needed_context: int,
    pressure: Real,
) -> Terms {
    let wanted = wanted_tier(rule, project);
    let cap = tier_ceiling(cfg, pressure);
    Terms {
        caps: required_caps(Some(rule), requires_tools, req_capabilities),
        local_only: confined(task_key, Some(rule), project),
        needed_context,
        floor: if cap < wanted {
            1
        } else {
            wanted
        },
        ceiling: cap,
        degraded: cap < wanted,
    }
}

/// Whether a model offers all of the capabilities.
pub open spec fn offers_all(m: ModelView, caps: Seq<Seq<char>>) -> bool {
    forall|c: int| 0 <= c < caps.len() ==> m.has(#[trigger] caps[c])
}

/// Whether a model passes every hard filter.
pub open spec fn viable(
    cfg: Config,
    env: Table<String>,
    project: Option<ProjectProfile>,
    t: Terms,
    m: ModelView,
) -> bool {
    &&& offers_all(m, t.caps)
    &&& t.local_only ==> cfg.is_local(m.provider)
    &&& m.context >= t.needed_context
    &&& cfg.is_ready(m.provider, m.model, env)
    &&& (project matches Some(p) ==> p.allows(m.provider))
    &&& t.floor <= m.tier <= t.ceiling
}

/// The median latency that the log holds for a model; without one, the largest number.
pub open spec fn expected_latency(
    logs: Seq<LogView>,
    provider: Seq<char>,
    model: Seq<char>,
) -> u64 {
    let m = stats::members(logs, GroupBy::TimedModel, (provider, model));
    if m.len() > 0 {
        stats::nearest_rank(stats::latencies(m, Timing::All), 50)
    } else {
        u64::MAX
    }
}

/// What decides a model's place in the order of preference.
#[derive(Debug, Clone, Copy)]
pub struct Standing {
    /// The expected latency, where latency counts.
    pub latency: u64,
    pub cost: Real,
    /// Runs locally, where that is preferred.
    pub local: bool,
    pub tier: u8,
}

/// The standing of a model.
pub open spec fn standing(
    cfg: Config,
    profile: Profile,
    logs: Seq<LogView>,
    cost: Real,
    m: ModelView,
) -> Standing {
    Standing {
        latency: if profile == Profile::Interactive {
            expected_latency(logs, m.provider, m.model)
        } else {
            0
        },
        cost,
        local: cfg.privacy.local_first && cfg.is_local(m.provider),
        tier: m.tier,
    }
}

/// Whether the model at position `i` is preferred to that at `j`: lower latency where that
/// counts, lower cost, local where that is preferred, higher tier, and at last the earlier
/// place in the catalogue.
pub open spec fn preferred(a: Standing, b: Standing, i: int, j: int) -> bool {
    if a.latency != b.latency {
        a.latency < b.latency
    } else if a.cost.rank() != b.cost.rank() {
        a.cost.rank() < b.cost.rank()
    } else if a.local != b.local {
        a.local
    } else if a.tier != b.tier {
        a.tier > b.tier
    } else {
        i < j
    }
}

/// The order of preference over the catalogue.
struct Preference {
    entries: Vec<Standing>,
}

impl Ranking for Preference {
    closed spec fn size(&self) -> nat {
        self.entries@.len()
    }

    closed spec fn before(&self, i: int, j: int) -> bool {
        preferred(self.entries@[i], self.entries@[j], i, j)
    }

    proof fn lemma_strict(&self, i: int, j: int, k: int) {
    }

    fn is_before(&self, i: usize, j: usize) -> (r: bool) {
        let a = &self.entries[i];
        let b = &self.entries[j];
        if a.latency != b.latency {
            a.latency < b.latency
        } else if a.cost.ranks_below(b.cost) {
            true
        } else if b.cost.ranks_below(a.cost) {
            false
        } else if a.local != b.local {
            a.local
        } else if a.tier != b.tier {
            a.tier > b.tier
        } else {
            i < j
        }
    }
}

/// Everything that a choice depends on.
pub struct Situation {
    pub cfg: Config,
    pub env: Table<String>,
    pub logs: Seq<LogView>,
    pub project: Option<ProjectProfile>,
    pub profile: Profile,
    pub terms: Terms,
    pub costs: Seq<Real>,
    pub remaining: Real,
    /// What the session used last.
    pub last: Option<ChoiceView>,
}

impl Situation {
    pub open spec fn model(self, i: int) -> ModelView {
        self.cfg.models@[i]@
    }

    /// Whether the model at position `i` passes every hard filter.
    pub open spec fn fits(self, i: int) -> bool {
        viable(self.cfg, self.env, self.project, self.terms, self.model(i))
    }

    /// Whether the model at position `i` fits the rest of the budget.
    pub open spec fn affordable(self, i: int) -> bool {
        self.costs[i].le(self.remaining)
    }

    pub open spec fn prefers(self, i: int, j: int) -> bool {
        preferred(
            standing(self.cfg, self.profile, self.logs, self.costs[i], self.model(i)),
            standing(self.cfg, self.profile, self.logs, self.costs[j], self.model(j)),
            i,
            j,
        )
    }

    /// Whether the model at position `i` is the one that the session used last.
    pub open spec fn used_last(self, i: int) -> bool {
        self.last matches Some(c) && self.model(i).provider == c.provider && self.model(i).model
            == c.model
    }

    /// Whether the session stays with the model at position `i`: it is the one used last, it
    /// still passes the filters, and no other entry of that name is preferred.
    pub open spec fn stays_with(self, i: int) -> bool {
        &&& self.fits(i)
        &&& self.used_last(i)
        &&& forall|j: int|
            0 <= j < self.cfg.models@.len() && j != i && #[trigger] self.fits(j) && self.used_last(
                j,
            ) ==> self.prefers(i, j)
    }

    /// Whether the model at position `i` comes before that at `j` in the chain.
    pub open spec fn leads(self, i: int, j: int) -> bool {
        self.stays_with(i) || (!self.stays_with(j) && self.prefers(i, j))
    }

    /// Whether some model passes every hard filter.
    pub open spec fn some_fit(self) -> bool {
        exists|i: int| 0 <= i < self.cfg.models@.len() && #[trigger] self.fits(i)
    }

    /// Whether some model passes every hard filter and fits the rest of the budget.
    pub open spec fn some_affordable(self) -> bool {
        exists|i: int|
            0 <= i < self.cfg.models@.len() && #[trigger] self.fits(i) && self.affordable(i)
    }

    /// Whether the positions are those of the models to try, in order: exactly the models that
    /// pass every hard filter and fit the rest of the budget.
    pub open spec fn is_chain(self, positions: Seq<usize>) -> bool {
        &&& forall|k: int|
            0 <= k < positions.len() ==> (#[trigger] positions[k]) < self.cfg.models@.len()
                && self.fits(positions[k] as int) && self.affordable(positions[k] as int)
        &&& forall|i: int|
            0 <= i < self.cfg.models@.len() && #[trigger] self.fits(i) && self.affordable(i)
                ==> positions.contains(i as usize)
        &&& forall|a: int, b: int|
            0 <= a < b < positions.len() ==> #[trigger] positions[a] != #[trigger] positions[b]
        &&& forall|a: int, b: int|
            0 <= a < b < positions.len() ==> #[trigger] self.leads(
                positions[a] as int,
                positions[b] as int,
            )
    }
}

/// The situation of a request under a rule.
pub open spec fn situation(
    cfg: Config,
    env: Table<String>,
    store: Store,
    sessions: SessionStore,
    input: SelectInput,
    est: Estimates,
    rule: TaskRule,
) -> Situation {
    let project = match input.project {
        Some(p) => Some(*p),
        None => None,
    };
    Situation {
        cfg,
        env,
        logs: store.logs(),
        project,
        profile: input.profile,
        terms: terms_of(
            cfg,
            input.task_key@,
            rule,
            project,
            input.requires_tools,
            input.req_capabilities@,
            input.input_tokens + est.expected_output,
            pressure_of(cfg, est.spending),
        ),
        costs: est.costs@,
        remaining: remaining_of(cfg, est.spending),
        last: match input.session {
            Some(id) => sessions.choice(id@),
            None => None,
        },
    }
}

/// The models at the given positions.
pub open spec fn models_at(cfg: Config, positions: Seq<usize>) -> Seq<ModelView> {
    Seq::new(positions.len(), |k: int| cfg.models@[positions[k] as int]@)
}

/// The models of a chain.
pub open spec fn model_views(chain: Seq<ModelEntry>) -> Seq<ModelView> {
    Seq::new(chain.len(), |k: int| chain[k]@)
}

/// What is said where no model passes the hard filters.
pub open spec fn no_candidate_text(task_key: Seq<char>, t: Terms) -> Seq<char> {
    "task="@ + task_key + " caps="@ + text::debug_list(t.caps) + " local_only="@ + (
    if t.local_only {
        "true"@
    } else {
        "false"@
    }) + " ctx>="@ + text::decimal(t.needed_context as nat) + " tier∈["@ + text::decimal(
        t.floor as nat,
    ) + "..="@ + text::decimal(t.ceiling as nat) + "]"@
}

/// The capabilities that a request and its rule need together.
pub fn collect_caps(
    rule: Option<&TaskRule>,
    requires_tools: bool,
    req_capabilities: &[String],
) -> (r: Vec<String>)
    ensures
        text::texts(r@) == required_caps(
            match rule {
                Some(x) => Some(*x),
                None => None,
            },
            requires_tools,
            req_capabilities@,
        ),
{
    let mut r: Vec<String> = Vec::new();
    let need = requires_tools || match rule {
        Some(x) => x.require_tools,
        None => false,
    };
    if need {
        r.push("tools".to_owned());
    }
    let ghost tools = text::texts(r@);
    assert(tools =~= if need {
        seq!["tools"@]
    } else {
        Seq::empty()
    });
    match rule {
        Some(x) => {
            let ghost all = x.require_capabilities@;
            let mut i: usize = 0;
            assert(tools =~= tools + text::texts(all.subrange(0, 0)));
            while i < x.require_capabilities.len()
                invariant
                    i <= x.require_capabilities@.len(),
                    all == x.require_capabilities@,
                    text::texts(r@) == tools + text::texts(all.subrange(0, i as int)),
                decreases x.require_capabilities.len() - i,
            {
                let ghost was = text::texts(r@);
                r.push(x.require_capabilities[i].clone());
                assert(text::texts(r@) =~= was.push(all[i as int]@));
                assert(text::texts(all.subrange(0, i + 1)) =~= text::texts(
                    all.subrange(0, i as int),
                ).push(all[i as int]@));
                i += 1;
            }
            assert(all.subrange(0, i as int) =~= all);
        },
        None => {
            assert(tools =~= tools + Seq::<Seq<char>>::empty());
        },
    }
    let ghost so_far = text::texts(r@);
    let ghost all = req_capabilities@;
    let mut k: usize = 0;
    assert(so_far =~= so_far + text::texts(all.subrange(0, 0)));
    while k < req_capabilities.len()
        invariant
            k <= req_capabilities@.len(),
            all == req_capabilities@,
            text::texts(r@) == so_far + text::texts(all.subrange(0, k as int)),
        decreases req_capabilities.len() - k,
    {
        let ghost was = text::texts(r@);
        r.push(req_capabilities[k].clone());
        assert(text::texts(r@) =~= was.push(all[k as int]@));
        assert(text::texts(all.subrange(0, k + 1)) =~= text::texts(
            all.subrange(0, k as int),
        ).push(all[k as int]@));
        k += 1;
    }
    assert(all.subrange(0, k as int) =~= all);
    r
}

/// The first of the capabilities that a model does not offer.
pub fn missing_capability(m: &ModelEntry, caps: &Vec<String>) -> (r: Option<usize>)
    ensures
        match r {
            Some(i) => {
                &&& i < caps@.len()
                &&& !m@.has(caps@[i as int]@)
                &&& forall|j: int| 0 <= j < i ==> m@.has((#[trigger] caps@[j])@)
            },
            None => offers_all(m@, text::texts(caps@)),
        },
{
    let mut i: usize = 0;
    while i < caps.len()
        invariant
            i <= caps@.len(),
            forall|j: int| 0 <= j < i ==> m@.has((#[trigger] caps@[j])@),
        decreases caps.len() - i,
    {
        if !m.has_capability(caps[i].as_str()) {
            return Some(i);
        }
        i += 1;
    }
    None
}

/// Whether a model passes every hard filter.
fn is_viable(
    cfg: &Config,
    env: &Table<String>,
    project: Option<&ProjectProfile>,
    caps: &Vec<String>,
    local_only: bool,
    needed_context: u64,
    floor: u8,
    cap: u8,
    Ghost(t): Ghost<Terms>,
    m: &ModelEntry,
) -> (r: bool)
    requires
        t.caps == text::texts(caps@),
        t.local_only == local_only,
        t.needed_context == needed_context,
        t.floor == floor,
        t.ceiling == cap,
    ensures
        r == viable(
            *cfg,
            *env,
            match project {
                Some(p) => Some(*p),
                None => None,
            },
            t,
            m@,
        ),
{
    match missing_capability(m, caps) {
        Some(i) => {
            assert(t.caps[i as int] == caps@[i as int]@);
            return false;
        },
        None => {},
    }
    if local_only && !cfg.provider_is_local(m.provider.as_str()) {
        return false;
    }
    if m.context < needed_context {
        return false;
    }
    if !cfg.provider_ready_for_model(m.provider.as_str(), m.model.as_str(), env) {
        return false;
    }
    match project {
        Some(p) => {
            if !p.allows_provider(m.provider.as_str()) {
                return false;
            }
        },
        None => {},
    }
    floor <= m.tier && m.tier <= cap
}

/// The expected latency of a model, from the medians of the log.
fn latency_of(medians: &Vec<ModelLatency>, m: &ModelEntry, Ghost(logs): Ghost<Seq<LogView>>) -> (r:
    u64)
    requires
        stats::ranked(
            logs,
            GroupBy::TimedModel,
            Seq::new(medians@.len(), |i: int| medians@[i].key()),
        ),
        forall|i: int|
            0 <= i < medians@.len() ==> (#[trigger] medians@[i]).p50_ms == stats::nearest_rank(
                stats::latencies(
                    stats::members(logs, GroupBy::TimedModel, medians@[i].key()),
                    Timing::All,
                ),
                50,
            ),
    ensures
        r == expected_latency(logs, m@.provider, m@.model),
{
    let ghost keys = Seq::new(medians@.len(), |i: int| medians@[i].key());
    let ghost key = (m@.provider, m@.model);
    let mut i: usize = 0;
    while i < medians.len()
        invariant
            i <= medians@.len(),
            key == (m@.provider, m@.model),
            keys == Seq::new(medians@.len(), |i: int| medians@[i].key()),
            stats::ranked(logs, GroupBy::TimedModel, keys),
            forall|i: int|
                0 <= i < medians@.len() ==> (#[trigger] medians@[i]).p50_ms == stats::nearest_rank(
                    stats::latencies(
                        stats::members(logs, GroupBy::TimedModel, medians@[i].key()),
                        Timing::All,
                    ),
                    50,
                ),
            forall|j: int| 0 <= j < i ==> (#[trigger] medians@[j]).key() != key,
        decreases medians.len() - i,
    {
        if text::same(medians[i].provider.as_str(), m.provider.as_str()) && text::same(
            medians[i].model.as_str(),
            m.model.as_str(),
        ) {
            assert(keys[i as int] == key);
            return medians[i].p50_ms;
        }
        i += 1;
    }
    proof {
        let found = stats::members(logs, GroupBy::TimedModel, key);
        if found.len() > 0 {
            lemma_member_has_key(logs, GroupBy::TimedModel, key);
            let r = choose|r: int|
                0 <= r < logs.len() && stats::group_key(
                    GroupBy::TimedModel,
                    #[trigger] logs[r],
                ) == Some(key);
            assert(keys.contains(key));
            let q = choose|q: int| 0 <= q < keys.len() && keys[q] == key;
            assert(medians@[q].key() == key);
        }
    }
    u64::MAX
}

/// A group with members has a record in the log.
proof fn lemma_member_has_key(logs: Seq<LogView>, by: GroupBy, key: (Seq<char>, Seq<char>))
    requires
        stats::members(logs, by, key).len() > 0,
    ensures
        exists|r: int|
            0 <= r < logs.len() && stats::group_key(by, #[trigger] logs[r]) == Some(key),
    decreases logs.len(),
{
    reveal(Seq::filter);
    let rest = logs.drop_last();
    if stats::group_key(by, logs.last()) == Some(key) {
        assert(stats::group_key(by, logs[logs.len() - 1]) == Some(key));
    } else {
        lemma_member_has_key(rest, by, key);
        let r = choose|r: int|
            0 <= r < rest.len() && stats::group_key(by, #[trigger] rest[r]) == Some(key);
        assert(stats::group_key(by, logs[r]) == Some(key));
    }
}

/// The order of preference over the whole catalogue.
fn preference_order(
    cfg: &Config,
    store: &Store,
    profile: Profile,
    costs: &Vec<Real>,
    Ghost(sit): Ghost<Situation>,
) -> (out: Vec<usize>)
    requires
        costs@.len() == cfg.models@.len(),
        sit.cfg == *cfg,
        sit.logs == store.logs(),
        sit.profile == profile,
        sit.costs == costs@,
    ensures
        order::all_positions(out@, cfg.models@.len()),
        forall|a: int, b: int|
            0 <= a < b < out@.len() ==> #[trigger] sit.prefers(out@[a] as int, out@[b] as int),
{
    let interactive = profile == Profile::Interactive;
    let medians = if interactive {
        store.model_latency_p50()
    } else {
        Vec::new()
    };
    let mut entries: Vec<Standing> = Vec::new();
    let mut i: usize = 0;
    while i < cfg.models.len()
        invariant
            i <= cfg.models@.len(),
            costs@.len() == cfg.models@.len(),
            interactive == (profile == Profile::Interactive),
            interactive ==> stats::ranked(
                store.logs(),
                GroupBy::TimedModel,
                Seq::new(medians@.len(), |i: int| medians@[i].key()),
            ),
            interactive ==> forall|i: int|
                0 <= i < medians@.len() ==> (#[trigger] medians@[i]).p50_ms == stats::nearest_rank(
                    stats::latencies(
                        stats::members(store.logs(), GroupBy::TimedModel, medians@[i].key()),
                        Timing::All,
                    ),
                    50,
                ),
            entries@.len() == i,
            forall|j: int|
                0 <= j < i ==> (#[trigger] entries@[j]) == standing(
                    *cfg,
                    profile,
                    store.logs(),
                    costs@[j],
                    cfg.models@[j]@,
                ),
        decreases cfg.models.len() - i,
    {
        let m = &cfg.models[i];
        let latency: u64 = if interactive {
            latency_of(&medians, m, Ghost(store.logs()))
        } else {
            0
        };
        let local = cfg.privacy.local_first && cfg.provider_is_local(m.provider.as_str());
        entries.push(Standing { latency, cost: costs[i], local, tier: m.tier });
        i += 1;
    }
    let ranking = Preference { entries };
    let out = order::arrange(&ranking, cfg.models.len());
    assert forall|a: int, b: int| 0 <= a < b < out@.len() implies #[trigger] sit.prefers(
        out@[a] as int,
        out@[b] as int,
    ) by {
        assert(ranking.before(out@[a] as int, out@[b] as int));
    }
    out
}

/// Text of what no model met.
fn describe_no_candidate(
    task_key: &str,
    caps: &Vec<String>,
    local_only: bool,
    needed_context: u64,
    floor: u8,
    cap: u8,
    Ghost(t): Ghost<Terms>,
) -> (s: String)
    requires
        t.caps == text::texts(caps@),
        t.local_only == local_only,
        t.needed_context == needed_context,
        t.floor == floor,
        t.ceiling == cap,
    ensures
        s@ == no_candidate_text(task_key@, t),
{
    let mut s = "task=".to_owned();
    s.append(task_key);
    s.append(" caps=");
    let list = text::format_list(caps);
    s.append(list.as_str());
    s.append(" local_only=");
    s.append(if local_only { "true" } else { "false" });
    s.append(" ctx>=");
    let n = text::number(needed_context);
    s.append(n.as_str());
    s.append(" tier∈[");
    let lo = text::number(floor as u64);
    s.append(lo.as_str());
    s.append("..=");
    let hi = text::number(cap as u64);
    s.append(hi.as_str());
    s.append("]");
    s
}

/// Moves the item at `p` to the front.
fn to_front(v: &mut Vec<usize>, p: usize)
    requires
        p < old(v)@.len(),
    ensures
        final(v)@ == seq![old(v)@[p as int]] + old(v)@.remove(p as int),
{
    let x: usize = v.remove(p);
    v.insert(0, x);
    assert(v@ =~= seq![old(v)@[p as int]] + old(v)@.remove(p as int));
}

/// Chooses the models to try. The task's rule, the project and the request put hard conditions
/// on models; those that meet them are put in the order of preference, with the session's last
/// model in front where it still meets them; those that the rest of the budget does not cover
/// are left out. The session is noted to use the first of what is left.
#[verifier::spinoff_prover]
#[verifier::rlimit(60)]
pub fn select(
    cfg: &Config,
    env: &Table<String>,
    store: &Store,
    sessions: &mut SessionStore,
    input: &SelectInput,
    est: &Estimates,
) -> (r: Result<Selection, SelectError>)
    requires
        est.costs@.len() == cfg.models@.len(),
        input.input_tokens + est.expected_output <= u64::MAX,
    ensures
        match cfg.classification.at(input.task_key@) {
            None => r matches Err(SelectError::UnknownTask(t)) && t@ == input.task_key@
                && *final(sessions) == *old(sessions),
            Some(rule) => {
                let sit = situation(*cfg, *env, *store, *old(sessions), *input, *est, rule);
                match r {
                    Err(SelectError::UnknownTask(_)) => false,
                    Err(SelectError::NoCandidate(d)) => !sit.some_fit() && d@ == no_candidate_text(
                        input.task_key@,
                        sit.terms,
                    ) && *final(sessions) == *old(sessions),
                    Err(SelectError::BudgetExceeded) => sit.some_fit() && !sit.some_affordable()
                        && *final(sessions) == *old(sessions),
                    Ok(sel) => {
                        &&& sit.some_affordable()
                        &&& sel.positions@.len() > 0
                        &&& sit.is_chain(sel.positions@)
                        &&& model_views(sel.chain@) == models_at(*cfg, sel.positions@)
                        &&& sel.tier == cfg.models@[sel.positions@[0] as int].tier
                        &&& sel.degraded == sit.terms.degraded
                        &&& sel.budget_pressure == pressure_of(*cfg, est.spending)
                        &&& sel.expected_output_tokens == est.expected_output
                        &&& match input.session {
                            Some(id) => forall|k: Seq<char>| #[trigger]
                                final(sessions).choice(k) == if k == id@ {
                                    Some(
                                        ChoiceView {
                                            provider: sel.chain@[0]@.provider,
                                            model: sel.chain@[0]@.model,
                                            tier: sel.tier,
                                        },
                                    )
                                } else {
                                    old(sessions).choice(k)
                                },
                            None => *final(sessions) == *old(sessions),
                        }
                    },
                }
            },
        },
{
    let rule = match cfg.classification.get(input.task_key) {
        Some(r) => r,
        None => {
            return Err(SelectError::UnknownTask(input.task_key.to_owned()));
        },
    };
    let ghost sit = situation(*cfg, *env, *store, *sessions, *input, *est, *rule);
    let caps = collect_caps(Some(rule), input.requires_tools, input.req_capabilities);
    let local_only = is_confined(input.task_key, Some(rule), input.project);
    let wanted: u8 = match input.project {
        Some(p) => match p.min_tier {
            Some(t) => if t > rule.min_tier {
                t
            } else {
                rule.min_tier
            },
            None => rule.min_tier,
        },
        None => rule.min_tier,
    };
    let needed_context: u64 = input.input_tokens + est.expected_output;
    let pressure = current_pressure(cfg, &est.spending);
    let cap: u8 = tier_cap_for(cfg, pressure);
    let degraded = cap < wanted;
    let floor: u8 = if degraded {
        1
    } else {
        wanted
    };
    let ghost t = sit.terms;
    assert(t.caps == text::texts(caps@));

    let order = preference_order(cfg, store, input.profile, &est.costs, Ghost(sit));
    let mut candidates: Vec<usize> = Vec::new();
    let mut i: usize = 0;
    while i < order.len()
        invariant
            i <= order@.len(),
            order::all_positions(order@, cfg.models@.len()),
            forall|a: int, b: int|
                0 <= a < b < order@.len() ==> #[trigger] sit.prefers(
                    order@[a] as int,
                    order@[b] as int,
                ),
            sit.cfg == *cfg,
            sit.env == *env,
            sit.terms == t,
            sit.project == (match input.project {
                Some(p) => Some(*p),
                None => None,
            }),
            t.caps == text::texts(caps@),
            t.local_only == local_only,
            t.needed_context == needed_context,
            t.floor == floor,
            t.ceiling == cap,
            gathered(sit, order@.subrange(0, i as int), candidates@),
        decreases order.len() - i,
    {
        let at: usize = order[i];
        let ghost done = order@.subrange(0, i as int);
        let ghost was = candidates@;
        let ok = is_viable(
            cfg,
            env,
            input.project,
            &caps,
            local_only,
            needed_context,
            floor,
            cap,
            Ghost(t),
            &cfg.models[at],
        );
        if ok {
            candidates.push(at);
        }
        proof {
            assert(order@.subrange(0, i + 1) =~= done.push(at));
            assert forall|a: int| 0 <= a < done.len() implies sit.prefers(
                #[trigger] done[a] as int,
                at as int,
            ) by {
                assert(sit.prefers(order@[a] as int, order@[i as int] as int));
            }
            lemma_gather_step(sit, done, was, at, ok);
        }
        i += 1;
    }
    assert(order@.subrange(0, i as int) =~= order@);
    proof {
        lemma_gathered_all(sit, order@, candidates@);
    }
    if candidates.len() == 0 {
        return Err(
            SelectError::NoCandidate(
                describe_no_candidate(
                    input.task_key,
                    &caps,
                    local_only,
                    needed_context,
                    floor,
                    cap,
                    Ghost(t),
                ),
            ),
        );
    }
    let ghost sorted = candidates@;
    match input.session {
        Some(id) => {
            match sessions.get(id) {
                Some((provider, model, _)) => {
                    let mut p: usize = 0;
                    while p < candidates.len() && !(text::same(
                        cfg.models[candidates[p]].provider.as_str(),
                        provider.as_str(),
                    ) && text::same(
                        cfg.models[candidates[p]].model.as_str(),
                        model.as_str(),
                    ))
                        invariant
                            p <= candidates@.len(),
                            candidates@ == sorted,
                            sit.cfg == *cfg,
                            sit.last matches Some(c) && c.provider == provider@ && c.model
                                == model@,
                            forall|k: int|
                                0 <= k < sorted.len() ==> (#[trigger] sorted[k])
                                    < cfg.models@.len(),
                            forall|k: int|
                                0 <= k < p ==> !sit.used_last(#[trigger] sorted[k] as int),
                        decreases candidates.len() - p,
                    {
                        p += 1;
                    }
                    if p < candidates.len() {
                        to_front(&mut candidates, p);
                        proof {
                            lemma_stays(sit, sorted, p as int);
                        }
                    } else {
                        proof {
                            lemma_leaves(sit, sorted);
                        }
                    }
                },
                None => {
                    proof {
                        lemma_leaves(sit, sorted);
                    }
                },
            }
        },
        None => {
            proof {
                lemma_leaves(sit, sorted);
            }
        },
    }
    let ghost lined = candidates@;
    assert(lined_up(sit, lined));
    let remaining = remaining_budget(cfg, &est.spending);
    let mut positions: Vec<usize> = Vec::new();
    let mut chain: Vec<ModelEntry> = Vec::new();
    let mut k: usize = 0;
    while k < candidates.len()
        invariant
            k <= candidates@.len(),
            candidates@ == lined,
            lined_up(sit, lined),
            sit.cfg == *cfg,
            sit.costs == est.costs@,
            sit.remaining == remaining,
            est.costs@.len() == cfg.models@.len(),
            afforded(sit, lined.subrange(0, k as int), positions@),
            model_views(chain@) == models_at(*cfg, positions@),
        decreases candidates.len() - k,
    {
        let at: usize = candidates[k];
        let ghost done = lined.subrange(0, k as int);
        let ghost was = positions@;
        let ghost was_chain = chain@;
        let ok = est.costs[at].at_most(remaining);
        if ok {
            positions.push(at);
            chain.push(cfg.models[at].copy());
            assert(model_views(chain@) =~= model_views(was_chain).push(cfg.models@[at as int]@));
            assert(models_at(*cfg, positions@) =~= models_at(*cfg, was).push(
                cfg.models@[at as int]@,
            ));
        }
        proof {
            assert(lined.subrange(0, k + 1) =~= done.push(at));
            assert forall|a: int| 0 <= a < done.len() implies done[a] != at && sit.leads(
                #[trigger] done[a] as int,
                at as int,
            ) by {
                assert(sit.leads(lined[a] as int, lined[k as int] as int));
            }
            lemma_afford_step(sit, done, was, at, ok);
        }
        k += 1;
    }
    assert(lined.subrange(0, k as int) =~= lined);
    proof {
        lemma_afforded_all(sit, lined, positions@);
        assert(model_views(chain@).len() == models_at(*cfg, positions@).len());
    }
    if chain.len() == 0 {
        return Err(SelectError::BudgetExceeded);
    }
    proof {
        assert(model_views(chain@)[0] == models_at(*cfg, positions@)[0]);
        assert(sit.fits(positions@[0] as int) && sit.affordable(positions@[0] as int));
    }
    let tier: u8 = chain[0].tier;
    match input.session {
        Some(id) => {
            sessions.set(id, chain[0].provider.as_str(), chain[0].model.as_str(), tier);
        },
        None => {},
    }
    Ok(
        Selection {
            chain,
            positions,
            tier,
            degraded,
            budget_pressure: pressure,
            expected_output_tokens: est.expected_output,
        },
    )
}

/// Whether `out` holds the positions of `from` whose models pass the filters, in order.
spec fn gathered(sit: Situation, from: Seq<usize>, out: Seq<usize>) -> bool {
    &&& forall|k: int|
        0 <= k < out.len() ==> from.contains(#[trigger] out[k]) && sit.fits(out[k] as int)
    &&& forall|k: int|
        0 <= k < from.len() && sit.fits(#[trigger] from[k] as int) ==> out.contains(from[k])
    &&& forall|a: int, b: int|
        0 <= a < b < out.len() ==> #[trigger] sit.prefers(out[a] as int, out[b] as int)
}

proof fn lemma_gather_step(
    sit: Situation,
    done: Seq<usize>,
    was: Seq<usize>,
    at: usize,
    ok: bool,
)
    requires
        gathered(sit, done, was),
        ok == sit.fits(at as int),
        forall|a: int| 0 <= a < done.len() ==> sit.prefers(#[trigger] done[a] as int, at as int),
    ensures
        gathered(
            sit,
            done.push(at),
            if ok {
                was.push(at)
            } else {
                was
            },
        ),
{
    let from = done.push(at);
    let out = if ok {
        was.push(at)
    } else {
        was
    };
    assert forall|k: int| 0 <= k < out.len() implies from.contains(#[trigger] out[k]) && sit.fits(
        out[k] as int,
    ) by {
        if k < was.len() {
            assert(done.contains(was[k]));
            let q = choose|q: int| 0 <= q < done.len() && done[q] == was[k];
            assert(from[q] == out[k]);
        } else {
            assert(from[done.len() as int] == at);
        }
    }
    assert forall|k: int| 0 <= k < from.len() && sit.fits(
        #[trigger] from[k] as int,
    ) implies out.contains(from[k]) by {
        if k < done.len() {
            assert(was.contains(done[k]));
            let q = choose|q: int| 0 <= q < was.len() && was[q] == done[k];
            assert(out[q] == from[k]);
        } else {
            assert(out[was.len() as int] == at);
        }
    }
    assert forall|a: int, b: int| 0 <= a < b < out.len() implies #[trigger] sit.prefers(
        out[a] as int,
        out[b] as int,
    ) by {
        if b < was.len() {
            assert(sit.prefers(was[a] as int, was[b] as int));
        } else {
            assert(done.contains(was[a]));
            let q = choose|q: int| 0 <= q < done.len() && done[q] == was[a];
            assert(sit.prefers(done[q] as int, at as int));
        }
    }
}

/// What was gathered from all positions: exactly the models that pass the filters.
proof fn lemma_gathered_all(sit: Situation, order: Seq<usize>, out: Seq<usize>)
    requires
        order::all_positions(order, sit.cfg.models@.len()),
        sit.cfg.models@.len() <= usize::MAX,
        gathered(sit, order, out),
    ensures
        forall|k: int|
            0 <= k < out.len() ==> (#[trigger] out[k]) < sit.cfg.models@.len() && sit.fits(
                out[k] as int,
            ),
        forall|i: int|
            0 <= i < sit.cfg.models@.len() && #[trigger] sit.fits(i) ==> out.contains(i as usize),
        out.len() == 0 <==> !sit.some_fit(),
{
    assert forall|k: int| 0 <= k < out.len() implies (#[trigger] out[k]) < sit.cfg.models@.len()
        && sit.fits(out[k] as int) by {
        assert(order.contains(out[k]));
        let q = choose|q: int| 0 <= q < order.len() && order[q] == out[k];
        assert(order[q] < sit.cfg.models@.len());
    }
    assert forall|i: int| 0 <= i < sit.cfg.models@.len() && #[trigger] sit.fits(
        i,
    ) implies out.contains(i as usize) by {
        assert(order.contains(i as usize));
        let q = choose|q: int| 0 <= q < order.len() && order[q] == i as usize;
        assert(sit.fits(order[q] as int));
    }
    if out.len() > 0 {
        assert(sit.fits(out[0] as int));
    }
}

/// Whether `out` holds the models that pass the filters, in the order of the chain.
spec fn lined_up(sit: Situation, out: Seq<usize>) -> bool {
    &&& forall|k: int|
        0 <= k < out.len() ==> (#[trigger] out[k]) < sit.cfg.models@.len() && sit.fits(
            out[k] as int,
        )
    &&& forall|i: int|
        0 <= i < sit.cfg.models@.len() && #[trigger] sit.fits(i) ==> out.contains(i as usize)
    &&& forall|a: int, b: int|
        0 <= a < b < out.len() ==> #[trigger] out[a] != #[trigger] out[b]
    &&& forall|a: int, b: int|
        0 <= a < b < out.len() ==> #[trigger] sit.leads(out[a] as int, out[b] as int)
}

/// Preference has no ties and no cycles of two.
proof fn lemma_prefers_strict(sit: Situation, i: int, j: int)
    ensures
        !(sit.prefers(i, j) && sit.prefers(j, i)),
        !sit.prefers(i, i),
{
}

/// Moving the session's model to the front lines the candidates up.
proof fn lemma_stays(sit: Situation, sorted: Seq<usize>, p: int)
    requires
        0 <= p < sorted.len(),
        sit.cfg.models@.len() <= usize::MAX,
        forall|k: int|
            0 <= k < sorted.len() ==> (#[trigger] sorted[k]) < sit.cfg.models@.len() && sit.fits(
                sorted[k] as int,
            ),
        forall|i: int|
            0 <= i < sit.cfg.models@.len() && #[trigger] sit.fits(i) ==> sorted.contains(
                i as usize,
            ),
        forall|a: int, b: int|
            0 <= a < b < sorted.len() ==> #[trigger] sit.prefers(
                sorted[a] as int,
                sorted[b] as int,
            ),
        sit.used_last(sorted[p] as int),
        forall|k: int| 0 <= k < p ==> !sit.used_last(#[trigger] sorted[k] as int),
    ensures
        lined_up(sit, seq![sorted[p]] + sorted.remove(p)),
{
    let out = seq![sorted[p]] + sorted.remove(p);
    let s = sorted[p] as int;
    assert forall|j: int|
        0 <= j < sit.cfg.models@.len() && j != s && #[trigger] sit.fits(j) && sit.used_last(
            j,
        ) implies sit.prefers(s, j) by {
        assert(sorted.contains(j as usize));
        let q = choose|q: int| 0 <= q < sorted.len() && sorted[q] == j as usize;
        assert(q >= p) by {
            if q < p {
                assert(!sit.used_last(sorted[q] as int));
            }
        }
        assert(sit.prefers(sorted[p] as int, sorted[q] as int));
    }
    assert(sit.stays_with(s));
    assert forall|k: int| 0 <= k < out.len() implies (#[trigger] out[k]) < sit.cfg.models@.len()
        && sit.fits(out[k] as int) by {
        if k == 0 {
            assert(out[k] == sorted[p]);
        } else if k <= p {
            assert(out[k] == sorted[k - 1]);
        } else {
            assert(out[k] == sorted[k]);
        }
    }
    assert forall|i: int| 0 <= i < sit.cfg.models@.len() && #[trigger] sit.fits(
        i,
    ) implies out.contains(i as usize) by {
        assert(sorted.contains(i as usize));
        let q = choose|q: int| 0 <= q < sorted.len() && sorted[q] == i as usize;
        if q == p {
            assert(out[0] == i as usize);
        } else if q < p {
            assert(out[q + 1] == i as usize);
        } else {
            assert(out[q] == i as usize);
        }
    }
    assert forall|a: int, b: int| 0 <= a < b < out.len() implies #[trigger] out[a]
        != #[trigger] out[b] by {
        let qa = if a == 0 {
            p
        } else if a <= p {
            a - 1
        } else {
            a
        };
        let qb = if b <= p {
            b - 1
        } else {
            b
        };
        assert(out[a] == sorted[qa] && out[b] == sorted[qb]);
        if qa < qb {
            assert(sit.prefers(sorted[qa] as int, sorted[qb] as int));
        } else {
            assert(sit.prefers(sorted[qb] as int, sorted[qa] as int));
        }
        lemma_prefers_strict(sit, sorted[qa] as int, sorted[qb] as int);
    }
    assert forall|a: int, b: int| 0 <= a < b < out.len() implies #[trigger] sit.leads(
        out[a] as int,
        out[b] as int,
    ) by {
        let qb = if b <= p {
            b - 1
        } else {
            b
        };
        assert(out[b] == sorted[qb]);
        if a == 0 {
            assert(out[a] == sorted[p]);
            if qb < p {
                assert(sit.prefers(sorted[qb] as int, sorted[p] as int));
            } else {
                assert(sit.prefers(sorted[p] as int, sorted[qb] as int));
            }
            lemma_prefers_strict(sit, sorted[p] as int, sorted[qb] as int);
        } else {
            let qa = if a <= p {
                a - 1
            } else {
                a
            };
            assert(out[a] == sorted[qa]);
            assert(sit.prefers(sorted[qa] as int, sorted[qb] as int));
            lemma_prefers_strict(sit, sorted[qa] as int, sorted[qb] as int);
            assert(!sit.stays_with(sorted[qb] as int)) by {
                if sit.stays_with(sorted[qb] as int) {
                    assert(sit.fits(s) && sit.used_last(s));
                    if qb < p {
                        assert(sit.prefers(sorted[qb] as int, sorted[p] as int));
                    } else {
                        assert(sit.prefers(sorted[p] as int, sorted[qb] as int));
                    }
                    lemma_prefers_strict(sit, s, sorted[qb] as int);
                    assert(s != sorted[qb] as int);
                    assert(sit.prefers(s, sorted[qb] as int));
                    assert(sit.prefers(sorted[qb] as int, s));
                }
            }
        }
    }
}

/// Without a model that the session used last, the order of preference is that of the chain.
proof fn lemma_leaves(sit: Situation, sorted: Seq<usize>)
    requires
        sit.cfg.models@.len() <= usize::MAX,
        forall|k: int|
            0 <= k < sorted.len() ==> (#[trigger] sorted[k]) < sit.cfg.models@.len() && sit.fits(
                sorted[k] as int,
            ),
        forall|i: int|
            0 <= i < sit.cfg.models@.len() && #[trigger] sit.fits(i) ==> sorted.contains(
                i as usize,
            ),
        forall|a: int, b: int|
            0 <= a < b < sorted.len() ==> #[trigger] sit.prefers(
                sorted[a] as int,
                sorted[b] as int,
            ),
        forall|k: int| 0 <= k < sorted.len() ==> !sit.used_last(#[trigger] sorted[k] as int),
    ensures
        lined_up(sit, sorted),
{
    assert forall|a: int, b: int| 0 <= a < b < sorted.len() implies #[trigger] sorted[a]
        != #[trigger] sorted[b] by {
        assert(sit.prefers(sorted[a] as int, sorted[b] as int));
        lemma_prefers_strict(sit, sorted[a] as int, sorted[b] as int);
    }
    assert forall|a: int, b: int| 0 <= a < b < sorted.len() implies #[trigger] sit.leads(
        sorted[a] as int,
        sorted[b] as int,
    ) by {
        assert(sit.prefers(sorted[a] as int, sorted[b] as int));
        assert(!sit.used_last(sorted[b] as int));
    }
}

/// Whether `out` holds the positions of `from` that the rest of the budget covers, in order.
spec fn afforded(sit: Situation, from: Seq<usize>, out: Seq<usize>) -> bool {
    &&& forall|k: int|
        0 <= k < out.len() ==> from.contains(#[trigger] out[k]) && sit.affordable(out[k] as int)
    &&& forall|k: int|
        0 <= k < from.len() && sit.affordable(#[trigger] from[k] as int) ==> out.contains(from[k])
    &&& forall|a: int, b: int|
        0 <= a < b < out.len() ==> #[trigger] out[a] != #[trigger] out[b]
    &&& forall|a: int, b: int|
        0 <= a < b < out.len() ==> #[trigger] sit.leads(out[a] as int, out[b] as int)
}

proof fn lemma_afford_step(
    sit: Situation,
    done: Seq<usize>,
    was: Seq<usize>,
    at: usize,
    ok: bool,
)
    requires
        afforded(sit, done, was),
        ok == sit.affordable(at as int),
        forall|a: int|
            0 <= a < done.len() ==> done[a] != at && sit.leads(
                #[trigger] done[a] as int,
                at as int,
            ),
    ensures
        afforded(
            sit,
            done.push(at),
            if ok {
                was.push(at)
            } else {
                was
            },
        ),
{
    let from = done.push(at);
    let out = if ok {
        was.push(at)
    } else {
        was
    };
    assert forall|k: int| 0 <= k < out.len() implies from.contains(#[trigger] out[k])
        && sit.affordable(out[k] as int) by {
        if k < was.len() {
            assert(done.contains(was[k]));
            let q = choose|q: int| 0 <= q < done.len() && done[q] == was[k];
            assert(from[q] == out[k]);
        } else {
            assert(from[done.len() as int] == at);
        }
    }
    assert forall|k: int| 0 <= k < from.len() && sit.affordable(
        #[trigger] from[k] as int,
    ) implies out.contains(from[k]) by {
        if k < done.len() {
            assert(was.contains(done[k]));
            let q = choose|q: int| 0 <= q < was.len() && was[q] == done[k];
            assert(out[q] == from[k]);
        } else {
            assert(out[was.len() as int] == at);
        }
    }
    assert forall|a: int, b: int| 0 <= a < b < out.len() implies #[trigger] out[a]
        != #[trigger] out[b] by {
        if b < was.len() {
            assert(was[a] != was[b]);
        } else {
            assert(done.contains(was[a]));
            let q = choose|q: int| 0 <= q < done.len() && done[q] == was[a];
            assert(done[q] != at);
        }
    }
    assert forall|a: int, b: int| 0 <= a < b < out.len() implies #[trigger] sit.leads(
        out[a] as int,
        out[b] as int,
    ) by {
        if b < was.len() {
            assert(sit.leads(was[a] as int, was[b] as int));
        } else {
            assert(done.contains(was[a]));
            let q = choose|q: int| 0 <= q < done.len() && done[q] == was[a];
            assert(sit.leads(done[q] as int, at as int));
        }
    }
}

/// What the budget leaves of the candidates is the chain.
proof fn lemma_afforded_all(sit: Situation, lined: Seq<usize>, out: Seq<usize>)
    requires
        sit.cfg.models@.len() <= usize::MAX,
        lined_up(sit, lined),
        afforded(sit, lined, out),
    ensures
        sit.is_chain(out),
        out.len() == 0 <==> !sit.some_affordable(),
{
    assert forall|k: int| 0 <= k < out.len() implies (#[trigger] out[k]) < sit.cfg.models@.len()
        && sit.fits(out[k] as int) && sit.affordable(out[k] as int) by {
        assert(lined.contains(out[k]));
        let q = choose|q: int| 0 <= q < lined.len() && lined[q] == out[k];
        assert(lined[q] < sit.cfg.models@.len());
    }
    assert forall|i: int| 0 <= i < sit.cfg.models@.len() && #[trigger] sit.fits(i)
        && sit.affordable(i) implies out.contains(i as usize) by {
        assert(lined.contains(i as usize));
        let q = choose|q: int| 0 <= q < lined.len() && lined[q] == i as usize;
        assert(sit.affordable(lined[q] as int));
    }
    if out.len() > 0 {
        assert(sit.fits(out[0] as int) && sit.affordable(out[0] as int));
    }
    if sit.some_affordable() {
        let i = choose|i: int|
            0 <= i < sit.cfg.models@.len() && #[trigger] sit.fits(i) && sit.affordable(i);
        assert(out.contains(i as usize));
    }
}

/// Every model of a chain meets every hard condition and fits the rest of the budget.
pub proof fn law_chain_meets_every_condition(sit: Situation, positions: Seq<usize>, k: int)
    requires
        sit.is_chain(positions),
        0 <= k < positions.len(),
    ensures
        ({
            let i = positions[k] as int;
            let m = sit.model(i);
            &&& 0 <= i < sit.cfg.models@.len()
            &&& offers_all(m, sit.terms.caps)
            &&& (sit.terms.local_only ==> sit.cfg.is_local(m.provider))
            &&& m.context >= sit.terms.needed_context
            &&& sit.cfg.is_ready(m.provider, m.model, sit.env)
            &&& (sit.project matches Some(p) ==> p.allows(m.provider))
            &&& sit.terms.floor <= m.tier <= sit.terms.ceiling
            &&& sit.costs[i].le(sit.remaining)
        }),
{
    assert(sit.fits(positions[k] as int));
}

/// Without a session the first model of a chain is the cheapest of those that could serve the
/// request, and under the interactive profile the one with the lowest expected latency.
pub proof fn law_first_is_best(sit: Situation, positions: Seq<usize>, i: int)
    requires
        sit.is_chain(positions),
        sit.last is None,
        sit.cfg.models@.len() <= usize::MAX,
        0 <= i < sit.cfg.models@.len(),
        sit.fits(i),
        sit.affordable(i),
    ensures
        positions.len() > 0,
        ({
            let f = positions[0] as int;
            &&& (sit.profile != Profile::Interactive ==> sit.costs[f].rank()
                <= sit.costs[i].rank())
            &&& sit.profile == Profile::Interactive ==> expected_latency(
                sit.logs,
                sit.model(f).provider,
                sit.model(f).model,
            ) <= expected_latency(sit.logs, sit.model(i).provider, sit.model(i).model)
        }),
{
    assert(positions.contains(i as usize));
    let k = choose|k: int| 0 <= k < positions.len() && positions[k] == i as usize;
    if k > 0 {
        assert(sit.leads(positions[0] as int, positions[k] as int));
    }
}

/// A session stays with the model it used last as long as that model meets the hard conditions
/// and fits the rest of the budget.
pub proof fn law_session_stays(sit: Situation, positions: Seq<usize>, i: int)
    requires
        sit.is_chain(positions),
        sit.cfg.models@.len() <= usize::MAX,
        0 <= i < sit.cfg.models@.len(),
        sit.stays_with(i),
        sit.affordable(i),
    ensures
        positions.len() > 0,
        positions[0] == i,
{
    assert(positions.contains(i as usize));
    let k = choose|k: int| 0 <= k < positions.len() && positions[k] == i as usize;
    if k > 0 {
        let f = positions[0] as int;
        assert(sit.leads(positions[0] as int, positions[k] as int));
        assert(sit.stays_with(f));
        assert(positions[0] != positions[k]);
        assert(sit.fits(f) && sit.used_last(f));
        assert(sit.fits(i) && sit.used_last(i));
        assert(sit.prefers(i, f));
        assert(sit.prefers(f, i));
        lemma_prefers_strict(sit, i, f);
    }
}

proof fn lemma_leads_strict(sit: Situation, i: int, j: int)
    requires
        0 <= i < sit.cfg.models@.len(),
        0 <= j < sit.cfg.models@.len(),
        i != j,
    ensures
        !(sit.leads(i, j) && sit.leads(j, i)),
{
    lemma_prefers_strict(sit, i, j);
    if sit.stays_with(i) && sit.stays_with(j) {
        assert(sit.fits(i) && sit.used_last(i));
        assert(sit.fits(j) && sit.used_last(j));
        assert(sit.prefers(i, j));
        assert(sit.prefers(j, i));
    }
}

proof fn lemma_chain_prefix(sit: Situation, a: Seq<usize>, b: Seq<usize>, n: int)
    requires
        sit.is_chain(a),
        sit.is_chain(b),
        0 <= n <= a.len(),
    ensures
        n <= b.len(),
        forall|k: int| 0 <= k < n ==> #[trigger] a[k] == b[k],
    decreases n,
{
    if n > 0 {
        lemma_chain_prefix(sit, a, b, n - 1);
        let k = n - 1;
        let x = a[k] as int;
        assert(sit.fits(x) && sit.affordable(x));
        assert(b.contains(x as usize));
        let j = choose|j: int| 0 <= j < b.len() && b[j] == x as usize;
        if j < k {
            assert(a[j] == b[j]);
            assert(a[j] != a[k]);
        }
        if j > k {
            let y = b[k] as int;
            assert(sit.fits(y) && sit.affordable(y));
            assert(a.contains(y as usize));
            let i = choose|i: int| 0 <= i < a.len() && a[i] == y as usize;
            assert(b[k] != b[j]);
            if i < k {
                assert(a[i] == b[i]);
                assert(b[i] != b[k]);
            }
            assert(i > k);
            assert(sit.leads(b[k] as int, b[j] as int));
            assert(sit.leads(a[k] as int, a[i] as int));
            lemma_leads_strict(sit, x, y);
        }
    }
}

/// A situation has one chain: what to try, and in which order, is fully determined.
pub proof fn law_chain_is_unique(sit: Situation, a: Seq<usize>, b: Seq<usize>)
    requires
        sit.is_chain(a),
        sit.is_chain(b),
    ensures
        a == b,
{
    lemma_chain_prefix(sit, a, b, a.len() as int);
    lemma_chain_prefix(sit, b, a, b.len() as int);
    assert(a =~= b);
}

/// The profile, the session and the observed latencies decide only the order: which models are
/// in the chain does not depend on them.
pub proof fn law_preferences_only_reorder(
    sit: Situation,
    profile: Profile,
    last: Option<ChoiceView>,
    logs: Seq<LogView>,
    a: Seq<usize>,
    b: Seq<usize>,
    i: usize,
)
    requires
        sit.is_chain(a),
        (Situation { profile, last, logs, ..sit }).is_chain(b),
    ensures
        a.contains(i) <==> b.contains(i),
{
    let other = Situation { profile, last, logs, ..sit };
    if a.contains(i) {
        let k = choose|k: int| 0 <= k < a.len() && a[k] == i;
        assert(sit.fits(a[k] as int));
        assert(other.fits(i as int) && other.affordable(i as int));
    }
    if b.contains(i) {
        let k = choose|k: int| 0 <= k < b.len() && b[k] == i;
        assert(other.fits(b[k] as int));
        assert(sit.fits(i as int) && sit.affordable(i as int));
    }
}

proof fn lemma_ceiling(cfg: Config, pressure: Real, n: nat, wanted: u8)
    requires
        n <= cfg.budgets.pressure_downgrade@.len(),
    ensures
        ceiling(cfg, pressure, n) < wanted <==> exists|i: int|
            0 <= i < n && (#[trigger] cfg.budgets.pressure_downgrade@[i]).at.le(pressure)
                && cfg.budgets.pressure_downgrade@[i].max_tier < wanted,
    decreases n,
{
    if n > 0 {
        lemma_ceiling(cfg, pressure, (n - 1) as nat, wanted);
        let last = cfg.budgets.pressure_downgrade@[n - 1];
        if ceiling(cfg, pressure, n) < wanted {
            if ceiling(cfg, pressure, (n - 1) as nat) < wanted {
                let i = choose|i: int|
                    0 <= i < n - 1 && (#[trigger] cfg.budgets.pressure_downgrade@[i]).at.le(
                        pressure,
                    ) && cfg.budgets.pressure_downgrade@[i].max_tier < wanted;
                assert(cfg.budgets.pressure_downgrade@[i].at.le(pressure));
            } else {
                assert(last.at.le(pressure) && last.max_tier < wanted);
            }
        }
    }
}

/// A request is degraded exactly where the pressure on the budget has reached a downgrade rule
/// whose ceiling lies below the tier that the task and the project want.
pub proof fn law_degraded_only_under_pressure(
    cfg: Config,
    task_key: Seq<char>,
    rule: TaskRule,
    project: Option<ProjectProfile>,
    requires_tools: bool,
    req_capabilities: Seq<String>,
    needed_context: int,
    pressure: Real,
)
    ensures
        terms_of(
            cfg,
            task_key,
            rule,
            project,
            requires_tools,
            req_capabilities,
            needed_context,
            pressure,
        ).degraded <==> exists|i: int|
            0 <= i < cfg.budgets.pressure_downgrade@.len() && (
            #[trigger] cfg.budgets.pressure_downgrade@[i]).at.le(pressure)
                && cfg.budgets.pressure_downgrade@[i].max_tier < wanted_tier(rule, project),
{
    lemma_ceiling(
        cfg,
        pressure,
        cfg.budgets.pressure_downgrade@.len(),
        wanted_tier(rule, project),
    );
}

/// A project only tightens: a model that serves a request within a project would serve it
/// without the project too, as long as the budget does not lower what the project wants.
pub proof fn law_project_only_tightens(
    cfg: Config,
    env: Table<String>,
    task_key: Seq<char>,
    rule: TaskRule,
    project: ProjectProfile,
    requires_tools: bool,
    req_capabilities: Seq<String>,
    needed_context: int,
    pressure: Real,
    m: ModelView,
)
    requires
        ({
            let t = terms_of(
                cfg,
                task_key,
                rule,
                Some(project),
                requires_tools,
                req_capabilities,
                needed_context,
                pressure,
            );
            !t.degraded && viable(cfg, env, Some(project), t, m)
        }),
    ensures
        viable(
            cfg,
            env,
            None,
            terms_of(
                cfg,
                task_key,
                rule,
                None,
                requires_tools,
                req_capabilities,
                needed_context,
                pressure,
            ),
            m,
        ),
{
}

/// What is left is never more than what a limit leaves: of the month where a monthly limit is set,
/// of the day where a daily limit is set. It is what one of the set limits leaves, nothing where
/// that limit is used up, and without end only where neither is set.
pub proof fn law_every_limit_counts(cfg: Config, s: Spending)
    ensures
        ({
            let r = remaining_of(cfg, s);
            let zero = Real { bits: 0 };
            let daily = cfg.budgets.daily_max_usd is Some;
            let monthly = cfg.budgets.monthly_max_usd is Some;
            &&& !r.is_nan() && zero.le(r)
            &&& monthly ==> r.le(s.month_rest) || r.le(zero)
            &&& daily ==> r.le(s.day_rest) || r.le(zero)
            &&& !daily && !monthly ==> r.bits == 0x7ff0_0000_0000_0000
            &&& daily || monthly ==> {
                ||| daily && zero.le(s.day_rest) && r == s.day_rest
                ||| daily && !zero.le(s.day_rest) && r == zero
                ||| monthly && zero.le(s.month_rest) && r == s.month_rest
                ||| monthly && !zero.le(s.month_rest) && r == zero
            }
        }),
{
}

/// The pressure is the larger used share of the limits that are set and above 0, and 0 without
/// such a limit.
pub proof fn law_pressure_is_the_larger_share(cfg: Config, s: Spending)
    ensures
        ({
            let p = pressure_of(cfg, s);
            let zero = Real { bits: 0 };
            let daily = cfg.budgets.daily_max_usd matches Some(d) && zero.lt(d);
            let monthly = cfg.budgets.monthly_max_usd matches Some(m) && zero.lt(m);
            &&& zero.le(p)
            &&& daily && !s.day_share.is_nan() ==> s.day_share.le(p)
            &&& monthly && !s.month_share.is_nan() ==> s.month_share.le(p)
            &&& p == zero || (daily && p == s.day_share) || (monthly && p == s.month_share)
        }),
{
}

/// The ceiling is the lowest of the rules that the pressure has reached, and without such a rule
/// every tier is open.
pub proof fn law_ceiling_is_the_lowest_reached(cfg: Config, pressure: Real)
    ensures
        ({
            let rules = cfg.budgets.pressure_downgrade@;
            let c = tier_ceiling(cfg, pressure);
            &&& forall|i: int|
                0 <= i < rules.len() && (#[trigger] rules[i]).at.le(pressure) ==> c
                    <= rules[i].max_tier
            &&& c == 255 || exists|i: int|
                0 <= i < rules.len() && (#[trigger] rules[i]).at.le(pressure) && c
                    == rules[i].max_tier
        }),
{
    let rules = cfg.budgets.pressure_downgrade@;
    let c = tier_ceiling(cfg, pressure);
    assert forall|i: int|
        0 <= i < rules.len() && (#[trigger] rules[i]).at.le(pressure) implies c
        <= rules[i].max_tier by {
        if rules[i].max_tier < c {
            lemma_ceiling(cfg, pressure, rules.len(), c);
        }
    }
    if c < 255 {
        lemma_ceiling(cfg, pressure, rules.len(), (c + 1) as u8);
        let i = choose|i: int|
            0 <= i < rules.len() && (#[trigger] rules[i]).at.le(pressure) && rules[i].max_tier < c
                + 1;
        assert(rules[i].at.le(pressure) && rules[i].max_tier == c);
    }
}

/// A model offers all that is needed where it takes tools, if the request or the rule needs them,
/// and lists every capability that the rule or the request names.
pub proof fn law_needed_capabilities(
    m: ModelView,
    rule: Option<TaskRule>,
    requires_tools: bool,
    req_capabilities: Seq<String>,
)
    ensures
        offers_all(m, required_caps(rule, requires_tools, req_capabilities)) <==> {
            &&& (requires_tools || (rule matches Some(r) && r.require_tools)) ==> m.supports_tools
                || m.capabilities.contains("tools"@)
            &&& rule matches Some(r) ==> forall|c: int|
                0 <= c < r.require_capabilities@.len() ==> m.capabilities.contains(
                    (#[trigger] r.require_capabilities@[c])@,
                ) || (r.require_capabilities@[c]@ == "tools"@ && m.supports_tools)
            &&& forall|c: int|
                0 <= c < req_capabilities.len() ==> m.capabilities.contains(
                    (#[trigger] req_capabilities[c])@,
                ) || (req_capabilities[c]@ == "tools"@ && m.supports_tools)
        },
{
    let caps = required_caps(rule, requires_tools, req_capabilities);
    let tools = requires_tools || (rule matches Some(r) && r.require_tools);
    let t: int = if tools {
        1
    } else {
        0
    };
    let n: int = match rule {
        Some(r) => r.require_capabilities@.len() as int,
        None => 0,
    };
    assert(caps.len() == t + n + req_capabilities.len());
    if tools {
        assert(caps[0] == "tools"@);
    }
    assert forall|c: int| 0 <= c < n implies rule matches Some(r) && #[trigger] caps[t + c]
        == r.require_capabilities@[c]@ by {}
    assert forall|c: int| 0 <= c < req_capabilities.len() implies #[trigger] caps[t + n + c]
        == req_capabilities[c]@ by {}
    if offers_all(m, caps) {
        if rule is Some {
            let r = rule->Some_0;
            assert forall|c: int| 0 <= c < n implies m.has(
                (#[trigger] r.require_capabilities@[c])@,
            ) by {
                assert(m.has(caps[t + c]));
            }
        }
        assert forall|c: int| 0 <= c < req_capabilities.len() implies m.has(
            (#[trigger] req_capabilities[c])@,
        ) by {
            assert(m.has(caps[t + n + c]));
        }
    } else {
        let c = choose|c: int| 0 <= c < caps.len() && !m.has(#[trigger] caps[c]);
        if t <= c < t + n {
            assert(caps[t + (c - t)] == rule->Some_0.require_capabilities@[c - t]@);
        } else if t + n <= c {
            assert(caps[t + n + (c - t - n)] == req_capabilities[c - t - n]@);
        }
    }
}

/// What the lists of a project say of a provider.
pub proof fn lemma_allows(p: ProjectProfile, provider: Seq<char>)
    ensures
        p.allows(provider) <==> (forall|d: int|
            0 <= d < p.forbid_providers@.len() ==> (#[trigger] p.forbid_providers@[d])@ != provider)
            && (p.require_providers@.len() == 0 || exists|a: int|
            0 <= a < p.require_providers@.len() && (#[trigger] p.require_providers@[a])@
                == provider),
{
    let no = text::texts(p.forbid_providers@);
    let yes = text::texts(p.require_providers@);
    if no.contains(provider) {
        let d = choose|d: int| 0 <= d < no.len() && no[d] == provider;
        assert(p.forbid_providers@[d]@ == provider);
    }
    assert forall|d: int|
        0 <= d < p.forbid_providers@.len() && (#[trigger] p.forbid_providers@[d])@
            == provider implies no.contains(provider) by {
        assert(no[d] == provider);
    }
    if yes.contains(provider) {
        let a = choose|a: int| 0 <= a < yes.len() && yes[a] == provider;
        assert(p.require_providers@[a]@ == provider);
    }
    assert forall|a: int|
        0 <= a < p.require_providers@.len() && (#[trigger] p.require_providers@[a])@
            == provider implies yes.contains(provider) by {
        assert(yes[a] == provider);
    }
}

/// Which models a request can be sent to. The provider is known, enabled and has a key for the
/// model, and is local where the task, the rule or the project admits no other. The project, if
/// any, does not forbid it and, where it names providers, names it. The model offers what is
/// needed and has room for the request and its answer. Its tier lies below every ceiling that the
/// pressure has reached, and not below what the rule and the project want, unless such a ceiling
/// does; then any tier but 0 will do.
pub proof fn law_who_can_serve(
    cfg: Config,
    env: Table<String>,
    task_key: Seq<char>,
    rule: TaskRule,
    project: Option<ProjectProfile>,
    requires_tools: bool,
    req_capabilities: Seq<String>,
    needed_context: int,
    pressure: Real,
    m: ModelView,
)
    ensures
        viable(
            cfg,
            env,
            project,
            terms_of(
                cfg,
                task_key,
                rule,
                project,
                requires_tools,
                req_capabilities,
                needed_context,
                pressure,
            ),
            m,
        ) <==> {
            let rules = cfg.budgets.pressure_downgrade@;
            let provider = cfg.providers.at(m.provider);
            let lowered = exists|i: int|
                0 <= i < rules.len() && (#[trigger] rules[i]).at.le(pressure) && (
                rules[i].max_tier < rule.min_tier || (project matches Some(p) && p.min_tier matches Some(
                    t,
                ) && rules[i].max_tier < t));
            &&& provider is Some && provider->Some_0.enabled && providers::usable_keys(
                provider->Some_0,
                m.model,
                env,
            ).len() > 0
            &&& (task_key == "private_sensitive"@ || rule.local_only || (project matches Some(p)
                && p.local_only)) ==> provider->Some_0.local
            &&& (project matches Some(p) ==> (forall|d: int|
                0 <= d < p.forbid_providers@.len() ==> (#[trigger] p.forbid_providers@[d])@
                    != m.provider) && (p.require_providers@.len() == 0 || exists|a: int|
                0 <= a < p.require_providers@.len() && (#[trigger] p.require_providers@[a])@
                    == m.provider))
            &&& requires_tools || rule.require_tools ==> m.supports_tools
                || m.capabilities.contains("tools"@)
            &&& forall|c: int|
                0 <= c < rule.require_capabilities@.len() ==> m.capabilities.contains(
                    (#[trigger] rule.require_capabilities@[c])@,
                ) || (rule.require_capabilities@[c]@ == "tools"@ && m.supports_tools)
            &&& forall|c: int|
                0 <= c < req_capabilities.len() ==> m.capabilities.contains(
                    (#[trigger] req_capabilities[c])@,
                ) || (req_capabilities[c]@ == "tools"@ && m.supports_tools)
            &&& m.context >= needed_context
            &&& forall|i: int|
                0 <= i < rules.len() && (#[trigger] rules[i]).at.le(pressure) ==> m.tier
                    <= rules[i].max_tier
            &&& if lowered {
                m.tier >= 1
            } else {
                m.tier >= rule.min_tier && (project matches Some(p) ==> p.min_tier matches Some(t)
                    ==> m.tier >= t)
            }
        },
{
    let rules = cfg.budgets.pressure_downgrade@;
    let wanted = wanted_tier(rule, project);
    law_needed_capabilities(m, Some(rule), requires_tools, req_capabilities);
    law_ceiling_is_the_lowest_reached(cfg, pressure);
    if project is Some {
        lemma_allows(project->Some_0, m.provider);
    }
    lemma_ceiling(cfg, pressure, rules.len(), wanted);
}

/// Every model of a chain fits what each limit that is set leaves, and of the models that can
/// serve the request every one that does is in the chain.
pub proof fn law_chain_fits_every_limit(
    cfg: Config,
    env: Table<String>,
    store: Store,
    sessions: SessionStore,
    input: SelectInput,
    est: Estimates,
    rule: TaskRule,
    positions: Seq<usize>,
    i: usize,
)
    requires
        situation(cfg, env, store, sessions, input, est, rule).is_chain(positions),
        i < cfg.models@.len(),
    ensures
        ({
            let cost = est.costs@[i as int];
            let zero = Real { bits: 0 };
            let fits = {
                &&& !cost.is_nan()
                &&& cfg.budgets.monthly_max_usd is Some ==> cost.le(zero) || cost.le(
                    est.spending.month_rest,
                )
                &&& cfg.budgets.daily_max_usd is Some ==> cost.le(zero) || cost.le(
                    est.spending.day_rest,
                )
            };
            let sit = situation(cfg, env, store, sessions, input, est, rule);
            positions.contains(i) <==> sit.fits(i as int) && fits
        }),
{
    let sit = situation(cfg, env, store, sessions, input, est, rule);
    law_every_limit_counts(cfg, est.spending);
    if positions.contains(i) {
        let k = choose|k: int| 0 <= k < positions.len() && positions[k] == i;
        assert(sit.fits(positions[k] as int));
    }
}

/// The order of a chain. The model that the session used last leads. Of the others the lower
/// expected latency comes first where the profile asks for speed, then the lower cost, then the
/// local provider where that is preferred, then the higher tier, then the earlier entry.
pub proof fn law_order_of_the_chain(sit: Situation, positions: Seq<usize>, a: int, b: int)
    requires
        sit.is_chain(positions),
        0 <= a < b < positions.len(),
    ensures
        ({
            let i = positions[a] as int;
            let j = positions[b] as int;
            let m = sit.cfg.models@[i]@;
            let n = sit.cfg.models@[j]@;
            let stays = a == 0 && (sit.last matches Some(c) && c.provider == m.provider && c.model
                == m.model);
            let fast = sit.profile == Profile::Interactive;
            let s = expected_latency(sit.logs, m.provider, m.model);
            let t = expected_latency(sit.logs, n.provider, n.model);
            let c = sit.costs[i].rank();
            let d = sit.costs[j].rank();
            let home = sit.cfg.providers.at(m.provider)->Some_0.local;
            let other = sit.cfg.providers.at(n.provider)->Some_0.local;
            &&& !stays && fast ==> s <= t
            &&& !stays && (!fast || s == t) ==> c <= d
            &&& !stays && (!fast || s == t) && c == d && sit.cfg.privacy.local_first ==> home
                || !other
            &&& !stays && (!fast || s == t) && c == d && (!sit.cfg.privacy.local_first || home
                == other) ==> m.tier >= n.tier
            &&& !stays && (!fast || s == t) && c == d && (!sit.cfg.privacy.local_first || home
                == other) && m.tier == n.tier ==> i < j
        }),
{
    let i = positions[a] as int;
    let j = positions[b] as int;
    assert(sit.leads(positions[a] as int, positions[b] as int));
    assert(sit.fits(i) && sit.fits(j));
    if a > 0 && sit.stays_with(i) {
        let f = positions[0] as int;
        assert(sit.leads(positions[0] as int, positions[a] as int));
        assert(positions[0] != positions[a]);
        assert(sit.fits(f));
        assert(sit.stays_with(f));
        assert(sit.prefers(f, i) && sit.prefers(i, f));
        lemma_prefers_strict(sit, i, f);
    }
}

/// Where the model that a session used last is in the chain, it comes first.
pub proof fn law_last_used_leads(sit: Situation, positions: Seq<usize>, c: ChoiceView, b: int)
    requires
        sit.is_chain(positions),
        sit.last == Some(c),
        0 <= b < positions.len(),
        sit.cfg.models@[positions[b] as int]@.provider == c.provider,
        sit.cfg.models@[positions[b] as int]@.model == c.model,
        forall|j: int|
            0 <= j < sit.cfg.models@.len() && j != positions[b] ==> !((
            #[trigger] sit.cfg.models@[j])@.provider == c.provider && sit.cfg.models@[j]@.model
                == c.model),
    ensures
        b == 0,
{
    let i = positions[b] as int;
    assert(sit.fits(i));
    assert(sit.stays_with(i)) by {
        assert forall|j: int|
            0 <= j < sit.cfg.models@.len() && j != i && #[trigger] sit.fits(j) && sit.used_last(
                j,
            ) implies sit.prefers(i, j) by {
            assert(sit.cfg.models@[j]@.provider == c.provider);
        }
    }
    if b > 0 {
        let f = positions[0] as int;
        assert(sit.leads(positions[0] as int, positions[b] as int));
        assert(positions[0] != positions[b]);
        assert(sit.stays_with(f));
        assert(sit.cfg.models@[f]@.provider == c.provider);
    }
}

/// The latency that is expected of a model: the middle of those that its provider took for its
/// answers so far, without the cached ones; a model without such answers comes last.
pub proof fn law_expected_latency(logs: Seq<LogView>, provider: Seq<char>, model: Seq<char>)
    ensures
        ({
            let own = stats::members(logs, GroupBy::TimedModel, (provider, model));
            let e = expected_latency(logs, provider, model);
            &&& own.len() == 0 ==> e == u64::MAX
            &&& own.len() > 0 ==> e == stats::nearest_rank(
                stats::latencies(own, Timing::All),
                50,
            )
        }),
{
}

/// What is said where no model passes names the task, the capabilities, whether only local
/// providers are admitted, the room that is needed and the tiers that are open.
pub proof fn law_no_candidate_says_why(task_key: Seq<char>, t: Terms)
    ensures
        no_candidate_text(task_key, t) == "task="@ + task_key + " caps="@ + text::debug_list(t.caps)
            + " local_only="@ + (if t.local_only {
            "true"@
        } else {
            "false"@
        }) + " ctx>="@ + text::decimal(t.needed_context as nat) + " tier∈["@ + text::decimal(
            t.floor as nat,
        ) + "..="@ + text::decimal(t.ceiling as nat) + "]"@,
{
}

} // verus!
