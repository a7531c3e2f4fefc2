//! The plan for a request: a forced model, held to the hard conditions, or a chosen chain.
use vstd::prelude::*;
use vstd::string::*;
use crate::classifier::TaskType;
use crate::config::{Config, ModelEntry, ModelView, Profile, ProjectProfile, TaskRule};
use crate::float::Real;
use crate::logging::Store;
use crate::router::{ChoiceView, Estimates, SelectError, SelectInput, SessionStore, Situation};
use crate::table::Table;
use crate::{providers, router, table, text};

verus! {

/// What a plan is made from.
pub struct PlanInput<'a> {
    /// The model that the caller forces, by its name with or without the provider.
    pub force_model: Option<&'a str>,
    pub task_key: &'a str,
    pub requires_tools: bool,
    pub req_capabilities: &'a [String],
    pub input_tokens: u64,
    pub cached_prefix_tokens: u64,
    pub session: Option<&'a str>,
    /// The project that the caller names; an unknown one changes nothing.
    pub project: Option<&'a str>,
    pub profile: Profile,
}

/// How a request will be served.
#[derive(Debug)]
pub struct Plan {
    /// The models to try, in order.
    pub chain: Vec<ModelEntry>,
    /// Their positions in the catalogue.
    pub positions: Vec<usize>,
    pub tier: u8,
    pub degraded: bool,
    pub pressure: Real,
    pub expected_output: u64,
    pub forced: bool,
    pub project: Option<String>,
    pub tools_expected: bool,
}

/// Why there is no plan.
#[derive(Debug)]
pub enum PlanError {
    /// The forced model is not in the catalogue.
    UnknownModel { name: String },
    NotReady { name: String, provider: String },
    MissingCapability { name: String, capability: String },
    /// The task or the project admits local providers only.
    NotLocal { name: String, task_key: String },
    /// The project does not admit the provider.
    ForbiddenProvider { name: String, provider: String },
    /// The project wants a higher tier.
    TierTooLow { name: String, tier: u8, wanted: u8 },
    ContextTooSmall { name: String, context: u64, needed: u64 },
    /// The model at this position costs more than is left of the budget.
    OverBudget { name: String, position: usize },
    NoBudget,
    NoCandidate { detail: String },
    UnknownTask { task_key: String },
}

/// What the hard conditions say of a forced model.
pub enum Verdict {
    NotReady,
    MissingCapability(Seq<char>),
    NotLocal,
    ForbiddenProvider,
    /// The project wants at least this tier.
    TierTooLow(u8),
    ContextTooSmall,
    OverBudget,
    Accepted,
}

/// The position of the first of the first `n` models that answers to a name.
pub open spec fn first_called(cfg: Config, name: Seq<char>, n: nat) -> Option<int>
    decreases n,
{
    if n == 0 {
        None
    } else {
        match first_called(cfg, name, (n - 1) as nat) {
            Some(i) => Some(i),
            None => if cfg.models@[n - 1]@.answers_to(name) {
                Some(n - 1)
            } else {
                None
            },
        }
    }
}

/// The position of the model that answers to a name.
pub open spec fn called(cfg: Config, name: Seq<char>) -> Option<int> {
    first_called(cfg, name, cfg.models@.len())
}

/// The first of the capabilities that a model does not offer.
pub open spec fn first_missing(m: ModelView, caps: Seq<Seq<char>>) -> Option<Seq<char>>
    decreases caps.len(),
{
    if caps.len() == 0 {
        None
    } else if !m.has(caps[0]) {
        Some(caps[0])
    } else {
        first_missing(m, caps.drop_first())
    }
}

/// The rules of the project that the caller names.
pub open spec fn project_rules(cfg: Config, project: Option<&str>) -> Option<ProjectProfile> {
    match project {
        Some(p) => cfg.projects.at(p@),
        None => None,
    }
}

/// The lowest tier that a project admits.
pub open spec fn project_floor(project: Option<ProjectProfile>) -> u8 {
    match project {
        Some(p) => match p.min_tier {
            Some(t) => t,
            None => 0,
        },
        None => 0,
    }
}

/// The output tokens that a forced model has to have room for.
pub open spec fn forced_output(
    cfg: Config,
    task_key: Seq<char>,
    input_tokens: u64,
    est: Estimates,
) -> u64 {
    match cfg.classification.at(task_key) {
        Some(_) => est.expected_output,
        None => input_tokens,
    }
}

/// What the hard conditions say of the forced model at position `i`; the first that it fails
/// counts.
pub open spec fn verdict(
    cfg: Config,
    env: Table<String>,
    input: PlanInput,
    est: Estimates,
    i: int,
) -> Verdict {
    let m = cfg.models@[i]@;
    let rule = cfg.classification.at(input.task_key@);
    let project = project_rules(cfg, input.project);
    let caps = router::required_caps(rule, input.requires_tools, input.req_capabilities@);
    let local_only = router::confined(input.task_key@, rule, project);
    let output = forced_output(cfg, input.task_key@, input.input_tokens, est);
    if !cfg.is_ready(m.provider, m.model, env) {
        Verdict::NotReady
    } else if first_missing(m, caps) is Some {
        Verdict::MissingCapability(first_missing(m, caps).unwrap())
    } else if local_only && !cfg.is_local(m.provider) {
        Verdict::NotLocal
    } else if project matches Some(p) && !p.allows(m.provider) {
        Verdict::ForbiddenProvider
    } else if m.tier < project_floor(project) {
        Verdict::TierTooLow(project_floor(project))
    } else if m.context < input.input_tokens + output {
        Verdict::ContextTooSmall
    } else if router::remaining_of(cfg, est.spending).lt(est.costs@[i]) {
        Verdict::OverBudget
    } else {
        Verdict::Accepted
    }
}

/// The request that the choice of a chain sees.
pub open spec fn choice_input<'a>(cfg: &'a Config, input: PlanInput<'a>) -> SelectInput<'a> {
    SelectInput {
        task_key: input.task_key,
        requires_tools: input.requires_tools,
        input_tokens: input.input_tokens,
        cached_prefix_tokens: input.cached_prefix_tokens,
        session: input.session,
        project: match project_rules(*cfg, input.project) {
            Some(p) => Some(&p),
            None => None,
        },
        req_capabilities: input.req_capabilities,
        profile: input.profile,
    }
}

impl PlanError {
    /// The HTTP status of the answer.
    pub open spec fn code(self) -> u16 {
        match self {
            PlanError::UnknownModel { .. } => 400,
            PlanError::NotReady { .. } => 400,
            PlanError::MissingCapability { .. } => 400,
            PlanError::NotLocal { .. } => 403,
            PlanError::ForbiddenProvider { .. } => 403,
            PlanError::TierTooLow { .. } => 403,
            PlanError::ContextTooSmall { .. } => 400,
            PlanError::OverBudget { .. } => 402,
            PlanError::NoBudget => 402,
            PlanError::NoCandidate { .. } => 502,
            PlanError::UnknownTask { .. } => 500,
        }
    }

    /// The text of the answer, with the estimate and the rest of the budget as texts.
    pub open spec fn text(self, estimate: Seq<char>, remaining: Seq<char>) -> Seq<char> {
        match self {
            PlanError::UnknownModel { name } => "erzwungenes Modell '"@ + name@
                + "' nicht im Katalog"@,
            PlanError::NotReady { name, provider } => "erzwungenes Modell '"@ + name@
                + "': Provider '"@ + provider@ + "' nicht bereit oder kein nutzbarer Key"@,
            PlanError::MissingCapability { name, capability } => "erzwungenes Modell '"@ + name@
                + "' bietet die geforderte Capability '"@ + capability@ + "' nicht"@,
            PlanError::NotLocal { name, task_key } => "erzwungenes Modell '"@ + name@
                + "' ist kein lokaler Provider — '"@ + task_key@ + "' (local_only) abgelehnt"@,
            PlanError::ForbiddenProvider { name, provider } => "erzwungenes Modell '"@ + name@
                + "': Provider '"@ + provider@ + "' durch Projekt-Scope gesperrt"@,
            PlanError::TierTooLow { name, tier, wanted } => "erzwungenes Modell '"@ + name@
                + "': Tier "@ + text::decimal(tier as nat) + " < min_tier "@ + text::decimal(
                wanted as nat,
            ) + " des Projekts"@,
            PlanError::ContextTooSmall { name, context, needed } => "erzwungenes Modell '"@
                + name@ + "': Kontextfenster "@ + text::decimal(context as nat) + " < benötigt "@
                + text::decimal(needed as nat),
            PlanError::OverBudget { name, position } => "erzwungenes Modell '"@ + name@
                + "': Schätzkosten "@ + estimate + " USD über Restbudget "@ + remaining,
            PlanError::NoBudget => "Budgetlimit erreicht — kein Modell im Restbudget"@,
            PlanError::NoCandidate { detail } => "kein passendes Modell verfügbar ("@ + detail@
                + ")"@,
            PlanError::UnknownTask { task_key } => "keine Regel für task_type '"@ + task_key@
                + "'"@,
        }
    }

    /// The HTTP status of the answer.
    pub fn status(&self) -> (r: u16)
        ensures
            r == self.code(),
    {
        match self {
            PlanError::UnknownModel { .. } => 400,
            PlanError::NotReady { .. } => 400,
            PlanError::MissingCapability { .. } => 400,
            PlanError::NotLocal { .. } => 403,
            PlanError::ForbiddenProvider { .. } => 403,
            PlanError::TierTooLow { .. } => 403,
            PlanError::ContextTooSmall { .. } => 400,
            PlanError::OverBudget { .. } => 402,
            PlanError::NoBudget => 402,
            PlanError::NoCandidate { .. } => 502,
            PlanError::UnknownTask { .. } => 500,
        }
    }

    /// The text of the answer. `estimate` and `remaining` are the texts of the model's estimated
    /// cost and of the rest of the budget.
    pub fn message(&self, estimate: &str, remaining: &str) -> (r: String)
        ensures
            r@ == self.text(estimate@, remaining@),
    {
        match self {
            PlanError::UnknownModel { name } => {
                let mut s = "erzwungenes Modell '".to_owned();
                s.append(name.as_str());
                s.append("' nicht im Katalog");
                s
            },
            PlanError::NotReady { name, provider } => {
                let mut s = "erzwungenes Modell '".to_owned();
                s.append(name.as_str());
                s.append("': Provider '");
                s.append(provider.as_str());
                s.append("' nicht bereit oder kein nutzbarer Key");
                s
            },
            PlanError::MissingCapability { name, capability } => {
                let mut s = "erzwungenes Modell '".to_owned();
                s.append(name.as_str());
                s.append("' bietet die geforderte Capability '");
                s.append(capability.as_str());
                s.append("' nicht");
                s
            },
            PlanError::NotLocal { name, task_key } => {
                let mut s = "erzwungenes Modell '".to_owned();
                s.append(name.as_str());
                s.append("' ist kein lokaler Provider — '");
                s.append(task_key.as_str());
                s.append("' (local_only) abgelehnt");
                s
            },
            PlanError::ForbiddenProvider { name, provider } => {
                let mut s = "erzwungenes Modell '".to_owned();
                s.append(name.as_str());
                s.append("': Provider '");
                s.append(provider.as_str());
                s.append("' durch Projekt-Scope gesperrt");
                s
            },
            PlanError::TierTooLow { name, tier, wanted } => {
                let mut s = "erzwungenes Modell '".to_owned();
                s.append(name.as_str());
                s.append("': Tier ");
                let a = text::number(*tier as u64);
                s.append(a.as_str());
                s.append(" < min_tier ");
                let b = text::number(*wanted as u64);
                s.append(b.as_str());
                s.append(" des Projekts");
                s
            },
            PlanError::ContextTooSmall { name, context, needed } => {
                let mut s = "erzwungenes Modell '".to_owned();
                s.append(name.as_str());
                s.append("': Kontextfenster ");
                let a = text::number(*context);
                s.append(a.as_str());
                s.append(" < benötigt ");
                let b = text::number(*needed);
                s.append(b.as_str());
                s
            },
            PlanError::OverBudget { name, position } => {
                let mut s = "erzwungenes Modell '".to_owned();
                s.append(name.as_str());
                s.append("': Schätzkosten ");
                s.append(estimate);
                s.append(" USD über Restbudget ");
                s.append(remaining);
                s
            },
            PlanError::NoBudget => "Budgetlimit erreicht — kein Modell im Restbudget".to_owned(),
            PlanError::NoCandidate { detail } => {
                let mut s = "kein passendes Modell verfügbar (".to_owned();
                s.append(detail.as_str());
                s.append(")");
                s
            },
            PlanError::UnknownTask { task_key } => {
                let mut s = "keine Regel für task_type '".to_owned();
                s.append(task_key.as_str());
                s.append("'");
                s
            },
        }
    }
}

/// The position of the model that answers to `name`.
pub fn find_model(cfg: &Config, name: &str) -> (r: Option<usize>)
    ensures
        match r {
            Some(i) => i < cfg.models@.len() && called(*cfg, name@) == Some(i as int)
                && cfg.models@[i as int]@.answers_to(name@),
            None => called(*cfg, name@) is None,
        },
{
    let mut i: usize = 0;
    while i < cfg.models.len()
        invariant
            i <= cfg.models@.len(),
            first_called(*cfg, name@, i as nat) is None,
        decreases cfg.models.len() - i,
    {
        if cfg.models[i].is_called(name) {
            proof {
                lemma_first_called(*cfg, name@, (i + 1) as nat);
            }
            return Some(i);
        }
        i += 1;
    }
    None
}

/// A model found among the first is the one found among all.
proof fn lemma_first_called(cfg: Config, name: Seq<char>, n: nat)
    requires
        n <= cfg.models@.len(),
        first_called(cfg, name, n) is Some,
    ensures
        called(cfg, name) == first_called(cfg, name, n),
    decreases cfg.models@.len() - n,
{
    if n < cfg.models@.len() {
        lemma_first_called(cfg, name, n + 1);
    }
}

proof fn lemma_first_missing(m: ModelView, caps: Seq<Seq<char>>, i: int)
    requires
        0 <= i <= caps.len(),
        forall|j: int| 0 <= j < i ==> m.has(#[trigger] caps[j]),
    ensures
        i == caps.len() ==> first_missing(m, caps) is None,
        i < caps.len() && !m.has(caps[i]) ==> first_missing(m, caps) == Some(caps[i]),
    decreases i,
{
    if i > 0 {
        let rest = caps.drop_first();
        assert(m.has(caps[0]));
        assert forall|j: int| 0 <= j < i - 1 implies m.has(#[trigger] rest[j]) by {
            assert(m.has(caps[j + 1]));
        }
        lemma_first_missing(m, rest, i - 1);
    }
}

/// What the plan for a forced model says.
pub open spec fn forced_result(
    cfg: Config,
    env: Table<String>,
    input: PlanInput,
    est: Estimates,
    name: Seq<char>,
    r: Result<Plan, PlanError>,
) -> bool {
    match called(cfg, name) {
        None => r matches Err(PlanError::UnknownModel { name: n }) && n@ == name,
        Some(i) => {
            let m = cfg.models@[i]@;
            let output = forced_output(cfg, input.task_key@, input.input_tokens, est);
            match verdict(cfg, env, input, est, i) {
                Verdict::NotReady => r matches Err(PlanError::NotReady { name: n, provider })
                    && n@ == name && provider@ == m.provider,
                Verdict::MissingCapability(c) => r matches Err(
                    PlanError::MissingCapability { name: n, capability },
                ) && n@ == name && capability@ == c,
                Verdict::NotLocal => r matches Err(PlanError::NotLocal { name: n, task_key })
                    && n@ == name && task_key@ == input.task_key@,
                Verdict::ForbiddenProvider => r matches Err(
                    PlanError::ForbiddenProvider { name: n, provider },
                ) && n@ == name && provider@ == m.provider,
                Verdict::TierTooLow(t) => r matches Err(
                    PlanError::TierTooLow { name: n, tier, wanted },
                ) && n@ == name && tier == m.tier && wanted == t,
                Verdict::ContextTooSmall => r matches Err(
                    PlanError::ContextTooSmall { name: n, context, needed },
                ) && n@ == name && context == m.context && needed == input.input_tokens + output,
                Verdict::OverBudget => r matches Err(PlanError::OverBudget { name: n, position })
                    && n@ == name && position == i,
                Verdict::Accepted => r matches Ok(plan) && {
                    &&& router::model_views(plan.chain@) == seq![m]
                    &&& plan.positions@ == seq![i as usize]
                    &&& plan.tier == m.tier
                    &&& !plan.degraded
                    &&& plan.pressure == router::pressure_of(cfg, est.spending)
                    &&& plan.expected_output == output
                    &&& plan.forced
                },
            }
        },
    }
}

/// What the plan from a chosen chain says.
pub open spec fn chosen_result(
    cfg: Config,
    env: Table<String>,
    store: Store,
    sessions: SessionStore,
    input: PlanInput,
    est: Estimates,
    r: Result<Plan, PlanError>,
) -> bool {
    match cfg.classification.at(input.task_key@) {
        None => r matches Err(PlanError::UnknownTask { task_key }) && task_key@ == input.task_key@,
        Some(rule) => {
            let sit = router::situation(
                cfg,
                env,
                store,
                sessions,
                choice_input(&cfg, input),
                est,
                rule,
            );
            match r {
                Err(PlanError::NoCandidate { detail }) => !sit.some_fit() && detail@
                    == router::no_candidate_text(input.task_key@, sit.terms),
                Err(PlanError::NoBudget) => sit.some_fit() && !sit.some_affordable(),
                Err(_) => false,
                Ok(plan) => {
                    &&& sit.some_affordable()
                    &&& plan.positions@.len() > 0
                    &&& sit.is_chain(plan.positions@)
                    &&& router::model_views(plan.chain@) == router::models_at(
                        cfg,
                        plan.positions@,
                    )
                    &&& plan.tier == cfg.models@[plan.positions@[0] as int].tier
                    &&& plan.degraded == sit.terms.degraded
                    &&& plan.pressure == router::pressure_of(cfg, est.spending)
                    &&& plan.expected_output == est.expected_output
                    &&& !plan.forced
                },
            }
        },
    }
}

/// The characters of an optional text.
pub open spec fn optional_str(s: Option<&str>) -> Option<Seq<char>> {
    match s {
        Some(x) => Some(x@),
        None => None,
    }
}

/// What a plan says, and what becomes of the sessions.
pub open spec fn plan_result(
    cfg: Config,
    env: Table<String>,
    store: Store,
    before: SessionStore,
    after: SessionStore,
    input: PlanInput,
    est: Estimates,
    r: Result<Plan, PlanError>,
) -> bool {
    &&& (r matches Ok(plan) ==> text::optional(plan.project) == optional_str(input.project)
        && plan.tools_expected == input.requires_tools && plan.chain@.len() > 0
        && plan.chain@.len() == plan.positions@.len())
    &&& match input.force_model {
        Some(name) => forced_result(cfg, env, input, est, name@, r) && after == before,
        None => {
            &&& chosen_result(cfg, env, store, before, input, est, r)
            &&& match (r, input.session) {
                (Ok(plan), Some(id)) => forall|k: Seq<char>| #[trigger]
                    after.choice(k) == if k == id@ {
                        Some(
                            ChoiceView {
                                provider: plan.chain@[0]@.provider,
                                model: plan.chain@[0]@.model,
                                tier: plan.tier,
                            },
                        )
                    } else {
                        before.choice(k)
                    },
                _ => after == before,
            }
        },
    }
}

fn own(s: Option<&str>) -> (r: Option<String>)
    ensures
        text::optional(r) == optional_str(s),
{
    match s {
        Some(x) => Some(x.to_owned()),
        None => None,
    }
}

/// The plan for a request. A forced model may pass over the cheaper ones but not over the hard
/// conditions; otherwise a chain is chosen.
#[verifier::rlimit(40)]
pub fn build_plan(
    cfg: &Config,
    env: &Table<String>,
    store: &Store,
    sessions: &mut SessionStore,
    input: &PlanInput,
    est: &Estimates,
) -> (r: Result<Plan, PlanError>)
    requires
        est.costs@.len() == cfg.models@.len(),
        input.input_tokens + est.expected_output <= u64::MAX,
        cfg.classification.at(input.task_key@) is None ==> input.input_tokens + input.input_tokens
            <= u64::MAX,
    ensures
        plan_result(*cfg, *env, *store, *old(sessions), *final(sessions), *input, *est, r),
{
    let rules = match input.project {
        Some(p) => cfg.project_profile(p),
        None => None,
    };
    match input.force_model {
        Some(name) => {
            return force(cfg, env, input, est, name, rules);
        },
        None => {},
    }
    let select_input = SelectInput {
        task_key: input.task_key,
        requires_tools: input.requires_tools,
        input_tokens: input.input_tokens,
        cached_prefix_tokens: input.cached_prefix_tokens,
        session: input.session,
        project: rules,
        req_capabilities: input.req_capabilities,
        profile: input.profile,
    };
    match router::select(cfg, env, store, sessions, &select_input, est) {
        Ok(s) => {
            proof {
                assert(router::model_views(s.chain@).len() == router::models_at(
                    *cfg,
                    s.positions@,
                ).len());
            }
            Ok(
                Plan {
                    chain: s.chain,
                    positions: s.positions,
                    tier: s.tier,
                    degraded: s.degraded,
                    pressure: s.budget_pressure,
                    expected_output: s.expected_output_tokens,
                    forced: false,
                    project: own(input.project),
                    tools_expected: input.requires_tools,
                },
            )
        },
        Err(SelectError::BudgetExceeded) => Err(PlanError::NoBudget),
        Err(SelectError::NoCandidate(d)) => Err(PlanError::NoCandidate { detail: d }),
        Err(SelectError::UnknownTask(t)) => Err(PlanError::UnknownTask { task_key: t }),
    }
}

/// The plan for a forced model.
fn force(
    cfg: &Config,
    env: &Table<String>,
    input: &PlanInput,
    est: &Estimates,
    name: &str,
    rules: Option<&ProjectProfile>,
) -> (r: Result<Plan, PlanError>)
    requires
        est.costs@.len() == cfg.models@.len(),
        input.input_tokens + est.expected_output <= u64::MAX,
        cfg.classification.at(input.task_key@) is None ==> input.input_tokens + input.input_tokens
            <= u64::MAX,
        match rules {
            Some(p) => project_rules(*cfg, input.project) == Some(*p),
            None => project_rules(*cfg, input.project) is None,
        },
    ensures
        forced_result(*cfg, *env, *input, *est, name@, r),
        r matches Ok(plan) ==> text::optional(plan.project) == optional_str(input.project)
            && plan.tools_expected == input.requires_tools && plan.chain@.len() == 1
            && plan.positions@.len() == 1,
{
    let position: usize = match find_model(cfg, name) {
        Some(i) => i,
        None => {
            return Err(PlanError::UnknownModel { name: name.to_owned() });
        },
    };
    let entry = &cfg.models[position];
    let rule = cfg.classification.get(input.task_key);
    let local_only = router::is_confined(input.task_key, rule, rules);
    let expected_output: u64 = match rule {
        Some(_) => est.expected_output,
        None => input.input_tokens,
    };
    if !cfg.provider_ready_for_model(entry.provider.as_str(), entry.model.as_str(), env) {
        return Err(
            PlanError::NotReady { name: name.to_owned(), provider: entry.provider.clone() },
        );
    }
    let caps = router::collect_caps(rule, input.requires_tools, input.req_capabilities);
    match router::missing_capability(entry, &caps) {
        Some(i) => {
            proof {
                let names = text::texts(caps@);
                assert forall|j: int| 0 <= j < i implies entry@.has(#[trigger] names[j]) by {
                    assert(names[j] == caps@[j]@);
                }
                lemma_first_missing(entry@, names, i as int);
            }
            return Err(
                PlanError::MissingCapability {
                    name: name.to_owned(),
                    capability: caps[i].clone(),
                },
            );
        },
        None => {
            proof {
                let names = text::texts(caps@);
                lemma_first_missing(entry@, names, names.len() as int);
            }
        },
    }
    if local_only && !cfg.provider_is_local(entry.provider.as_str()) {
        return Err(
            PlanError::NotLocal { name: name.to_owned(), task_key: input.task_key.to_owned() },
        );
    }
    match rules {
        Some(p) => {
            if !p.allows_provider(entry.provider.as_str()) {
                return Err(
                    PlanError::ForbiddenProvider {
                        name: name.to_owned(),
                        provider: entry.provider.clone(),
                    },
                );
            }
        },
        None => {},
    }
    let floor: u8 = match rules {
        Some(p) => match p.min_tier {
            Some(t) => t,
            None => 0,
        },
        None => 0,
    };
    if entry.tier < floor {
        return Err(
            PlanError::TierTooLow { name: name.to_owned(), tier: entry.tier, wanted: floor },
        );
    }
    let needed: u64 = input.input_tokens + expected_output;
    if entry.context < needed {
        return Err(
            PlanError::ContextTooSmall { name: name.to_owned(), context: entry.context, needed },
        );
    }
    let remaining = router::remaining_budget(cfg, &est.spending);
    if remaining.below(est.costs[position]) {
        return Err(PlanError::OverBudget { name: name.to_owned(), position });
    }
    let mut chain: Vec<ModelEntry> = Vec::new();
    chain.push(entry.copy());
    let mut positions: Vec<usize> = Vec::new();
    positions.push(position);
    assert(router::model_views(chain@) =~= seq![entry@]);
    assert(positions@ =~= seq![position]);
    Ok(
        Plan {
            chain,
            positions,
            tier: entry.tier,
            degraded: false,
            pressure: router::current_pressure(cfg, &est.spending),
            expected_output,
            forced: true,
            project: own(input.project),
            tools_expected: input.requires_tools,
        },
    )
}

proof fn lemma_none_missing(m: ModelView, caps: Seq<Seq<char>>)
    requires
        first_missing(m, caps) is None,
    ensures
        router::offers_all(m, caps),
    decreases caps.len(),
{
    if caps.len() > 0 {
        let rest = caps.drop_first();
        lemma_none_missing(m, rest);
        assert forall|c: int| 0 <= c < caps.len() implies m.has(#[trigger] caps[c]) by {
            if c > 0 {
                assert(rest[c - 1] == caps[c]);
            }
        }
    }
}

/// Forcing a model never gets round a hard condition: an accepted model can be used, offers what
/// is needed, is local where only local providers are admitted, belongs to a provider and a tier
/// that the project admits, has room for the request, and does not cost more than is left.
pub proof fn law_forcing_bypasses_nothing(
    cfg: Config,
    env: Table<String>,
    input: PlanInput,
    est: Estimates,
    i: int,
)
    requires
        verdict(cfg, env, input, est, i) is Accepted,
    ensures
        ({
            let m = cfg.models@[i]@;
            let rule = cfg.classification.at(input.task_key@);
            let project = project_rules(cfg, input.project);
            &&& cfg.is_ready(m.provider, m.model, env)
            &&& router::offers_all(
                m,
                router::required_caps(rule, input.requires_tools, input.req_capabilities@),
            )
            &&& (router::confined(input.task_key@, rule, project) ==> cfg.is_local(m.provider))
            &&& (project matches Some(p) ==> p.allows(m.provider))
            &&& m.tier >= project_floor(project)
            &&& m.context >= input.input_tokens + forced_output(
                cfg,
                input.task_key@,
                input.input_tokens,
                est,
            )
            &&& !router::remaining_of(cfg, est.spending).lt(est.costs@[i])
        }),
{
    let m = cfg.models@[i]@;
    let caps = router::required_caps(
        cfg.classification.at(input.task_key@),
        input.requires_tools,
        input.req_capabilities@,
    );
    lemma_none_missing(m, caps);
}

/// A model that answers to a name has a place in the catalogue.
pub proof fn lemma_called_exists(cfg: Config, name: Seq<char>, n: nat)
    requires
        n <= cfg.models@.len(),
    ensures
        first_called(cfg, name, n) matches Some(i) ==> 0 <= i < n,
    decreases n,
{
    if n > 0 {
        lemma_called_exists(cfg, name, (n - 1) as nat);
    }
}

/// A request that holds what must not leave for a cloud, or whose task or project admits local
/// providers only, is planned on local providers only, whether a model is forced or a chain is
/// chosen.
pub proof fn law_local_only_is_kept(
    cfg: Config,
    env: Table<String>,
    store: Store,
    before: SessionStore,
    after: SessionStore,
    input: PlanInput,
    est: Estimates,
    plan: Plan,
    k: int,
)
    requires
        plan_result(cfg, env, store, before, after, input, est, Ok(plan)),
        router::confined(
            input.task_key@,
            cfg.classification.at(input.task_key@),
            project_rules(cfg, input.project),
        ),
        0 <= k < plan.chain@.len(),
    ensures
        cfg.is_local(plan.chain@[k]@.provider),
{
    match input.force_model {
        Some(name) => {
            assert(router::model_views(plan.chain@)[k] == plan.chain@[k]@);
        },
        None => {
            let rule = cfg.classification.at(input.task_key@).unwrap();
            let sit = router::situation(
                cfg,
                env,
                store,
                before,
                choice_input(&cfg, input),
                est,
                rule,
            );
            assert(router::model_views(plan.chain@)[k] == plan.chain@[k]@);
            assert(router::models_at(cfg, plan.positions@)[k]
                == cfg.models@[plan.positions@[k] as int]@);
            router::law_chain_meets_every_condition(sit, plan.positions@, k);
        },
    }
}

proof fn lemma_called(cfg: Config, name: Seq<char>, i: int, n: nat)
    requires
        0 <= i < n <= cfg.models@.len(),
        cfg.models@[i]@.answers_to(name),
    ensures
        first_called(cfg, name, n) is Some,
    decreases n,
{
    if i < n - 1 {
        lemma_called(cfg, name, i, (n - 1) as nat);
    }
}

/// In an accepted configuration every alias leads to a model of the catalogue, so that forcing a
/// model by an alias never names an unknown one.
pub proof fn law_aliases_lead_to_models(cfg: Config, name: Seq<char>, target: String)
    requires
        cfg.consistent(),
        cfg.aliases.at(name) == Some(target),
    ensures
        called(cfg, target@) is Some,
{
    let entries = cfg.aliases.entries@;
    table::lemma_lookup_entry(entries, name);
    let a = choose|a: int|
        0 <= a < entries.len() && (#[trigger] entries[a]).0@ == name && table::lookup(entries, name)
            == Some(entries[a].1);
    assert(cfg.alias_resolves(a));
    let i = choose|i: int|
        0 <= i < cfg.models@.len() && (#[trigger] cfg.models@[i])@.answers_to(target@);
    lemma_called(cfg, target@, i, cfg.models@.len());
}

/// In an accepted configuration no request fails for want of a rule for its type of task.
pub proof fn law_every_task_has_a_rule(
    cfg: Config,
    env: Table<String>,
    store: Store,
    before: SessionStore,
    after: SessionStore,
    input: PlanInput,
    est: Estimates,
    task: TaskType,
    r: Result<Plan, PlanError>,
)
    requires
        cfg.consistent(),
        input.task_key@ == task.key(),
        plan_result(cfg, env, store, before, after, input, est, r),
    ensures
        !(r matches Err(PlanError::UnknownTask { .. })),
{
    assert(cfg.classification.at(task.key()) is Some);
}

/// No planned model costs more than a limit leaves. Where a monthly limit is set the cost is at
/// most what is left of the month, where a daily limit is set at most what is left of the day, and
/// nothing where that limit is used up; so for a chosen chain as for a forced model. Only of a
/// forced model may the cost be unknown.
pub proof fn law_plans_keep_every_limit(
    cfg: Config,
    env: Table<String>,
    store: Store,
    before: SessionStore,
    after: SessionStore,
    input: PlanInput,
    est: Estimates,
    plan: Plan,
    k: int,
)
    requires
        plan_result(cfg, env, store, before, after, input, est, Ok(plan)),
        cfg.models@.len() <= usize::MAX,
        0 <= k < plan.chain@.len(),
    ensures
        ({
            let i = plan.positions@[k] as int;
            let cost = est.costs@[i];
            let zero = Real { bits: 0 };
            &&& 0 <= i < cfg.models@.len()
            &&& plan.chain@[k]@ == cfg.models@[i]@
            &&& cost.is_nan() ==> input.force_model is Some
            &&& cfg.budgets.monthly_max_usd is Some && !cost.is_nan() ==> cost.le(zero) || cost.le(
                est.spending.month_rest,
            )
            &&& cfg.budgets.daily_max_usd is Some && !cost.is_nan() ==> cost.le(zero) || cost.le(
                est.spending.day_rest,
            )
        }),
{
    router::law_every_limit_counts(cfg, est.spending);
    assert(router::model_views(plan.chain@)[k] == plan.chain@[k]@);
    match input.force_model {
        Some(name) => {
            lemma_called_exists(cfg, name@, cfg.models@.len());
        },
        None => {
            let rule = cfg.classification.at(input.task_key@).unwrap();
            let sit = router::situation(
                cfg,
                env,
                store,
                before,
                choice_input(&cfg, input),
                est,
                rule,
            );
            assert(router::models_at(cfg, plan.positions@)[k]
                == cfg.models@[plan.positions@[k] as int]@);
            router::law_chain_meets_every_condition(sit, plan.positions@, k);
        },
    }
}

/// Which models a plan without a forced model holds: all those of the catalogue that can serve the
/// request and whose cost fits what each limit leaves, and no others. The provider is known,
/// enabled and has a key for the model, is local where nothing else is admitted, and suits the
/// project; the model offers what the request and the rule of its task need, has room for the
/// request and its answer, and has a tier that is wanted and that the pressure leaves.
#[verifier::rlimit(40)]
pub proof fn law_plan_holds_exactly_what_serves(
    cfg: Config,
    env: Table<String>,
    store: Store,
    before: SessionStore,
    after: SessionStore,
    input: PlanInput,
    est: Estimates,
    project: Option<ProjectProfile>,
    plan: Plan,
    rule: TaskRule,
    i: usize,
)
    requires
        project == match input.project {
            Some(name) => cfg.projects.at(name@),
            None => None,
        },
        plan_result(cfg, env, store, before, after, input, est, Ok(plan)),
        input.force_model is None,
        cfg.classification.at(input.task_key@) == Some(rule),
        i < cfg.models@.len(),
    ensures
        plan.positions@.contains(i) <==> {
            let m = cfg.models@[i as int]@;
            let cost = est.costs@[i as int];
            let zero = Real { bits: 0 };
            let provider = cfg.providers.at(m.provider);
            let rules = cfg.budgets.pressure_downgrade@;
            &&& provider is Some && provider->Some_0.enabled && providers::usable_keys(
                provider->Some_0,
                m.model,
                env,
            ).len() > 0
            &&& (input.task_key@ == "private_sensitive"@ || rule.local_only || (project matches Some(
                p,
            ) && p.local_only)) ==> provider->Some_0.local
            &&& (project matches Some(p) ==> (forall|d: int|
                0 <= d < p.forbid_providers@.len() ==> (#[trigger] p.forbid_providers@[d])@
                    != m.provider) && (p.require_providers@.len() == 0 || exists|a: int|
                0 <= a < p.require_providers@.len() && (#[trigger] p.require_providers@[a])@
                    == m.provider))
            &&& input.requires_tools || rule.require_tools ==> m.supports_tools
                || m.capabilities.contains("tools"@)
            &&& forall|c: int|
                0 <= c < rule.require_capabilities@.len() ==> m.capabilities.contains(
                    (#[trigger] rule.require_capabilities@[c])@,
                ) || (rule.require_capabilities@[c]@ == "tools"@ && m.supports_tools)
            &&& forall|c: int|
                0 <= c < input.req_capabilities@.len() ==> m.capabilities.contains(
                    (#[trigger] input.req_capabilities@[c])@,
                ) || (input.req_capabilities@[c]@ == "tools"@ && m.supports_tools)
            &&& m.context >= input.input_tokens + est.expected_output
            &&& forall|r: int|
                0 <= r < rules.len() && (#[trigger] rules[r]).at.le(plan.pressure) ==> m.tier
                    <= rules[r].max_tier
            &&& if plan.degraded {
                m.tier >= 1
            } else {
                m.tier >= rule.min_tier && (project matches Some(p) ==> p.min_tier matches Some(t)
                    ==> m.tier >= t)
            }
            &&& !cost.is_nan()
            &&& cfg.budgets.monthly_max_usd is Some ==> cost.le(zero) || cost.le(
                est.spending.month_rest,
            )
            &&& cfg.budgets.daily_max_usd is Some ==> cost.le(zero) || cost.le(
                est.spending.day_rest,
            )
        },
{
    let m = cfg.models@[i as int]@;
    assert(project == project_rules(cfg, input.project));
    let chosen = choice_input(&cfg, input);
    let pressure = router::pressure_of(cfg, est.spending);
    let sit = router::situation(cfg, env, store, before, chosen, est, rule);
    router::law_chain_fits_every_limit(
        cfg,
        env,
        store,
        before,
        chosen,
        est,
        rule,
        plan.positions@,
        i,
    );
    router::law_who_can_serve(
        cfg,
        env,
        input.task_key@,
        rule,
        project,
        input.requires_tools,
        input.req_capabilities@,
        input.input_tokens + est.expected_output,
        pressure,
        m,
    );
    router::law_degraded_only_under_pressure(
        cfg,
        input.task_key@,
        rule,
        project,
        input.requires_tools,
        input.req_capabilities@,
        input.input_tokens + est.expected_output,
        pressure,
    );
    let rules = cfg.budgets.pressure_downgrade@;
    if plan.degraded {
        let r = choose|r: int|
            0 <= r < rules.len() && (#[trigger] rules[r]).at.le(pressure) && rules[r].max_tier
                < router::wanted_tier(rule, project);
        assert(rules[r].at.le(pressure));
    }
}

/// A plan is degraded exactly where the pressure, the larger used share of the limits, has reached
/// a rule whose ceiling lies below what the task or the project wants. A forced model is never
/// degraded.
pub proof fn law_degraded_plans(
    cfg: Config,
    env: Table<String>,
    store: Store,
    before: SessionStore,
    after: SessionStore,
    input: PlanInput,
    est: Estimates,
    project: Option<ProjectProfile>,
    plan: Plan,
)
    requires
        project == match input.project {
            Some(name) => cfg.projects.at(name@),
            None => None,
        },
        plan_result(cfg, env, store, before, after, input, est, Ok(plan)),
    ensures
        ({
            let rules = cfg.budgets.pressure_downgrade@;
            let rule = cfg.classification.at(input.task_key@);
            &&& plan.degraded <==> input.force_model is None && exists|r: int|
                0 <= r < rules.len() && (#[trigger] rules[r]).at.le(plan.pressure) && (
                rules[r].max_tier < rule->Some_0.min_tier || (project matches Some(p) && (
                p.min_tier matches Some(t) && rules[r].max_tier < t)))
            &&& plan.forced == input.force_model is Some
            &&& plan.tools_expected == input.requires_tools
            &&& plan.tier == plan.chain@[0]@.tier
            &&& plan.expected_output == if rule is Some {
                est.expected_output
            } else {
                input.input_tokens
            }
        }),
{
    assert(project == project_rules(cfg, input.project));
    assert(router::model_views(plan.chain@)[0] == plan.chain@[0]@);
    match input.force_model {
        Some(_) => {},
        None => {
            let rules = cfg.budgets.pressure_downgrade@;
            let rule = cfg.classification.at(input.task_key@).unwrap();
            let chosen = choice_input(&cfg, input);
            let pressure = router::pressure_of(cfg, est.spending);
            let sit = router::situation(cfg, env, store, before, chosen, est, rule);
            assert(router::models_at(cfg, plan.positions@)[0]
                == cfg.models@[plan.positions@[0] as int]@);
            router::law_degraded_only_under_pressure(
                cfg,
                input.task_key@,
                rule,
                project,
                input.requires_tools,
                input.req_capabilities@,
                input.input_tokens + est.expected_output,
                pressure,
            );
            if plan.degraded {
                let r = choose|r: int|
                    0 <= r < rules.len() && (#[trigger] rules[r]).at.le(pressure)
                        && rules[r].max_tier < router::wanted_tier(rule, project);
                assert(rules[r].at.le(plan.pressure));
            }
        },
    }
}

/// No model that can serve is overlooked: a request is refused for want of a candidate only where
/// no model passes, for want of budget only where some model passes and none of those fits what is
/// left, and for want of a rule only where there is none.
pub proof fn law_refused_only_with_reason(
    cfg: Config,
    env: Table<String>,
    store: Store,
    before: SessionStore,
    after: SessionStore,
    input: PlanInput,
    est: Estimates,
    r: Result<Plan, PlanError>,
    rule: TaskRule,
    i: int,
)
    requires
        plan_result(cfg, env, store, before, after, input, est, r),
        input.force_model is None,
        cfg.classification.at(input.task_key@) == Some(rule),
        0 <= i < cfg.models@.len(),
        router::viable(
            cfg,
            env,
            project_rules(cfg, input.project),
            router::terms_of(
                cfg,
                input.task_key@,
                rule,
                project_rules(cfg, input.project),
                input.requires_tools,
                input.req_capabilities@,
                input.input_tokens + est.expected_output,
                router::pressure_of(cfg, est.spending),
            ),
            cfg.models@[i]@,
        ),
    ensures
        ({
            let cost = est.costs@[i];
            let zero = Real { bits: 0 };
            let fits = {
                &&& !cost.is_nan()
                &&& cfg.budgets.monthly_max_usd is Some ==> cost.le(zero) || cost.le(
                    est.spending.month_rest,
                )
                &&& cfg.budgets.daily_max_usd is Some ==> cost.le(zero) || cost.le(
                    est.spending.day_rest,
                )
            };
            &&& (r is Ok || r == Err::<Plan, PlanError>(PlanError::NoBudget))
            &&& fits ==> r is Ok
        }),
{
    let sit = router::situation(cfg, env, store, before, choice_input(&cfg, input), est, rule);
    router::law_every_limit_counts(cfg, est.spending);
    assert(sit.fits(i));
    if sit.affordable(i) {
        assert(sit.some_affordable());
    }
}

proof fn lemma_first_called_is(cfg: Config, name: Seq<char>, n: nat)
    requires
        n <= cfg.models@.len(),
    ensures
        match first_called(cfg, name, n) {
            Some(i) => 0 <= i < n && cfg.models@[i]@.answers_to(name) && forall|j: int|
                0 <= j < i ==> !(#[trigger] cfg.models@[j])@.answers_to(name),
            None => forall|j: int| 0 <= j < n ==> !(#[trigger] cfg.models@[j])@.answers_to(name),
        },
    decreases n,
{
    if n > 0 {
        lemma_first_called_is(cfg, name, (n - 1) as nat);
    }
}

/// A name leads to the first model of the catalogue that bears it, alone or behind its provider
/// and a slash; only a name that none bears is unknown.
pub proof fn law_names_lead_to_models(cfg: Config, name: Seq<char>)
    ensures
        match called(cfg, name) {
            Some(i) => {
                &&& 0 <= i < cfg.models@.len()
                &&& cfg.models@[i].model@ == name || cfg.models@[i].provider@ + "/"@
                    + cfg.models@[i].model@ == name
                &&& forall|j: int|
                    0 <= j < i ==> (#[trigger] cfg.models@[j]).model@ != name
                        && cfg.models@[j].provider@ + "/"@ + cfg.models@[j].model@ != name
            },
            None => forall|j: int|
                0 <= j < cfg.models@.len() ==> (#[trigger] cfg.models@[j]).model@ != name
                    && cfg.models@[j].provider@ + "/"@ + cfg.models@[j].model@ != name,
        },
{
    lemma_first_called_is(cfg, name, cfg.models@.len());
    assert forall|j: int|
        0 <= j < cfg.models@.len() && !(#[trigger] cfg.models@[j])@.answers_to(
            name,
        ) implies cfg.models@[j].model@ != name && cfg.models@[j].provider@ + "/"@
        + cfg.models@[j].model@ != name by {}
}

/// When a forced model is taken: where its provider is known, enabled, has a key for the model, is
/// local if nothing else is admitted, and suits the project; where the model offers what is needed,
/// has the tier that the project wants and room for the request and its answer; and where no limit
/// leaves less than it costs. Then the plan holds this model alone.
pub proof fn law_forced_model_is_taken(
    cfg: Config,
    env: Table<String>,
    store: Store,
    before: SessionStore,
    after: SessionStore,
    input: PlanInput,
    est: Estimates,
    project: Option<ProjectProfile>,
    name: &str,
    r: Result<Plan, PlanError>,
    i: int,
)
    requires
        project == match input.project {
            Some(name) => cfg.projects.at(name@),
            None => None,
        },
        plan_result(cfg, env, store, before, after, input, est, r),
        input.force_model == Some(name),
        called(cfg, name@) == Some(i),
        cfg.models@.len() <= usize::MAX,
    ensures
        r is Ok <==> {
            let m = cfg.models@[i]@;
            let cost = est.costs@[i];
            let zero = Real { bits: 0 };
            let provider = cfg.providers.at(m.provider);
            let rule = cfg.classification.at(input.task_key@);
            &&& provider is Some && provider->Some_0.enabled && providers::usable_keys(
                provider->Some_0,
                m.model,
                env,
            ).len() > 0
            &&& (input.task_key@ == "private_sensitive"@ || (rule matches Some(t) && t.local_only)
                || (project matches Some(p) && p.local_only)) ==> provider->Some_0.local
            &&& (project matches Some(p) ==> (forall|d: int|
                0 <= d < p.forbid_providers@.len() ==> (#[trigger] p.forbid_providers@[d])@
                    != m.provider) && (p.require_providers@.len() == 0 || exists|a: int|
                0 <= a < p.require_providers@.len() && (#[trigger] p.require_providers@[a])@
                    == m.provider))
            &&& (project matches Some(p) ==> p.min_tier matches Some(t) ==> m.tier >= t)
            &&& (input.requires_tools || (rule matches Some(t) && t.require_tools))
                ==> m.supports_tools || m.capabilities.contains("tools"@)
            &&& (rule matches Some(t) ==> forall|c: int|
                0 <= c < t.require_capabilities@.len() ==> m.capabilities.contains(
                    (#[trigger] t.require_capabilities@[c])@,
                ) || (t.require_capabilities@[c]@ == "tools"@ && m.supports_tools))
            &&& forall|c: int|
                0 <= c < input.req_capabilities@.len() ==> m.capabilities.contains(
                    (#[trigger] input.req_capabilities@[c])@,
                ) || (input.req_capabilities@[c]@ == "tools"@ && m.supports_tools)
            &&& m.context >= input.input_tokens + if rule is Some {
                est.expected_output
            } else {
                input.input_tokens
            }
            &&& cfg.budgets.monthly_max_usd is Some && !cost.is_nan() ==> cost.le(zero) || cost.le(
                est.spending.month_rest,
            )
            &&& cfg.budgets.daily_max_usd is Some && !cost.is_nan() ==> cost.le(zero) || cost.le(
                est.spending.day_rest,
            )
        },
        r matches Ok(plan) ==> plan.positions@ == seq![i as usize] && plan.chain@.len() == 1
            && plan.chain@[0]@ == cfg.models@[i]@ && after == before,
{
    let m = cfg.models@[i]@;
    let rule = cfg.classification.at(input.task_key@);
    assert(project == project_rules(cfg, input.project));
    let caps = router::required_caps(rule, input.requires_tools, input.req_capabilities@);
    router::law_every_limit_counts(cfg, est.spending);
    router::law_needed_capabilities(m, rule, input.requires_tools, input.req_capabilities@);
    if project is Some {
        router::lemma_allows(project->Some_0, m.provider);
    }
    if first_missing(m, caps) is None {
        lemma_none_missing(m, caps);
    } else {
        lemma_missing(m, caps);
    }
    if r is Ok {
        let plan = r->Ok_0;
        assert(router::model_views(plan.chain@)[0] == plan.chain@[0]@);
        assert(router::model_views(plan.chain@).len() == 1);
    }
}

proof fn lemma_missing(m: ModelView, caps: Seq<Seq<char>>)
    requires
        first_missing(m, caps) is Some,
    ensures
        exists|c: int|
            0 <= c < caps.len() && !m.has(#[trigger] caps[c]) && first_missing(m, caps) == Some(
                caps[c],
            ) && forall|b: int| 0 <= b < c ==> m.has(#[trigger] caps[b]),
        !router::offers_all(m, caps),
    decreases caps.len(),
{
    if !m.has(caps[0]) {
        assert(!m.has(caps[0]) && first_missing(m, caps) == Some(caps[0]));
    } else {
        let rest = caps.drop_first();
        lemma_missing(m, rest);
        let c = choose|c: int|
            0 <= c < rest.len() && !m.has(#[trigger] rest[c]) && first_missing(m, rest) == Some(
                rest[c],
            ) && forall|b: int| 0 <= b < c ==> m.has(#[trigger] rest[b]);
        assert(caps[c + 1] == rest[c]);
        assert forall|b: int| 0 <= b < c + 1 implies m.has(#[trigger] caps[b]) by {
            if b > 0 {
                assert(rest[b - 1] == caps[b]);
            }
        }
    }
}

/// Why a forced model is refused: with an unknown name if no model bears it, else with the first of
/// its faults. These are looked at in turn: provider, capabilities, locality, project, tier,
/// context, budget. The refusal names the model as it was asked for.
pub proof fn law_forced_model_is_refused(
    cfg: Config,
    env: Table<String>,
    store: Store,
    before: SessionStore,
    after: SessionStore,
    input: PlanInput,
    est: Estimates,
    project: Option<ProjectProfile>,
    name: &str,
    e: PlanError,
)
    requires
        project == match input.project {
            Some(name) => cfg.projects.at(name@),
            None => None,
        },
        plan_result(cfg, env, store, before, after, input, est, Err(e)),
        input.force_model == Some(name),
    ensures
        ({
            let i = called(cfg, name@);
            let m = cfg.models@[i->Some_0]@;
            let provider = cfg.providers.at(m.provider);
            let rule = cfg.classification.at(input.task_key@);
            let usable = provider is Some && provider->Some_0.enabled && providers::usable_keys(
                provider->Some_0,
                m.model,
                env,
            ).len() > 0;
            let needed = input.input_tokens + if rule is Some {
                est.expected_output
            } else {
                input.input_tokens
            };
            let cost = est.costs@[i->Some_0];
            match e {
                PlanError::UnknownModel { name: n } => i is None && n@ == name@,
                PlanError::NotReady { name: n, provider: p } => i is Some && n@ == name@ && p@
                    == m.provider && !usable,
                PlanError::MissingCapability { name: n, capability: c } => i is Some && n@ == name@
                    && usable && !m.capabilities.contains(c@) && (c@ == "tools"@
                    ==> !m.supports_tools),
                PlanError::NotLocal { name: n, task_key: t } => i is Some && n@ == name@ && t@
                    == input.task_key@ && usable && !provider->Some_0.local,
                PlanError::ForbiddenProvider { name: n, provider: p } => i is Some && n@ == name@
                    && p@ == m.provider && usable && project is Some
                    && !project->Some_0.allows(m.provider),
                PlanError::TierTooLow { name: n, tier, wanted } => i is Some && n@ == name@
                    && usable && project is Some && project->Some_0.min_tier == Some(wanted) && tier
                    == m.tier && tier < wanted,
                PlanError::ContextTooSmall { name: n, context, needed: w } => i is Some && n@
                    == name@ && usable && context == m.context && w == needed && context < needed,
                PlanError::OverBudget { name: n, position } => {
                    &&& i is Some && n@ == name@ && usable && m.context >= needed
                    &&& position == i->Some_0
                    &&& (Real { bits: 0 }).lt(cost)
                    &&& (cfg.budgets.monthly_max_usd is Some && !cost.le(est.spending.month_rest))
                        || (cfg.budgets.daily_max_usd is Some && !cost.le(est.spending.day_rest))
                },
                _ => false,
            }
        }),
        after == before,
{
    let i = called(cfg, name@);
    if i is Some {
        let m = cfg.models@[i->Some_0]@;
        let rule = cfg.classification.at(input.task_key@);
        assert(project == project_rules(cfg, input.project));
        let caps = router::required_caps(rule, input.requires_tools, input.req_capabilities@);
        router::law_every_limit_counts(cfg, est.spending);
        if first_missing(m, caps) is Some {
            lemma_missing(m, caps);
        }
    }
}

/// With which status a request is refused: 400 where the forced model does not suit the request or
/// is not known, 403 where rules on privacy or of the project stand against it, 402 where the
/// budget does, 502 where no model can serve, and 500 where a rule is missing.
pub proof fn law_refusals_have_their_status(e: PlanError)
    ensures
        e.code() == 400 <==> e is UnknownModel || e is NotReady || e is MissingCapability
            || e is ContextTooSmall,
        e.code() == 403 <==> e is NotLocal || e is ForbiddenProvider || e is TierTooLow,
        e.code() == 402 <==> e is OverBudget || e is NoBudget,
        e.code() == 502 <==> e is NoCandidate,
        e.code() == 500 <==> e is UnknownTask,
{
}

/// A request is refused for want of budget only where some model passes every other condition and
/// each that does costs more than a limit leaves; for want of a candidate only where none passes.
pub proof fn law_budget_or_candidate(
    cfg: Config,
    env: Table<String>,
    store: Store,
    before: SessionStore,
    after: SessionStore,
    input: PlanInput,
    est: Estimates,
    e: PlanError,
    rule: TaskRule,
)
    requires
        plan_result(cfg, env, store, before, after, input, est, Err(e)),
        input.force_model is None,
        cfg.classification.at(input.task_key@) == Some(rule),
    ensures
        ({
            let project = project_rules(cfg, input.project);
            let terms = router::terms_of(
                cfg,
                input.task_key@,
                rule,
                project,
                input.requires_tools,
                input.req_capabilities@,
                input.input_tokens + est.expected_output,
                router::pressure_of(cfg, est.spending),
            );
            &&& e is NoBudget || e is NoCandidate
            &&& e is NoBudget <==> exists|i: int|
                0 <= i < cfg.models@.len() && router::viable(
                    cfg,
                    env,
                    project,
                    terms,
                    (#[trigger] cfg.models@[i])@,
                )
        }),
        after == before,
{
    let sit = router::situation(cfg, env, store, before, choice_input(&cfg, input), est, rule);
    if e is NoBudget {
        let i = choose|i: int| 0 <= i < cfg.models@.len() && #[trigger] sit.fits(i);
        assert(router::viable(cfg, env, sit.project, sit.terms, cfg.models@[i]@));
    } else {
        assert forall|i: int| 0 <= i < cfg.models@.len() implies !router::viable(
            cfg,
            env,
            sit.project,
            sit.terms,
            (#[trigger] cfg.models@[i])@,
        ) by {
            assert(!sit.fits(i));
        }
    }
}

/// A session remembers the first model of its plan, with provider and tier, and every other session
/// what it used. Where no plan is made, where a model is forced, and without a session, nothing
/// changes.
pub proof fn law_sessions_remember(
    cfg: Config,
    env: Table<String>,
    store: Store,
    before: SessionStore,
    after: SessionStore,
    input: PlanInput,
    est: Estimates,
    r: Result<Plan, PlanError>,
    id: Seq<char>,
)
    requires
        plan_result(cfg, env, store, before, after, input, est, r),
    ensures
        r is Err || input.force_model is Some || input.session is None ==> after == before,
        input.session matches Some(s) ==> s@ != id ==> after.choice(id) == before.choice(id),
        input.session matches Some(s) ==> s@ == id && r is Ok && input.force_model is None ==> {
            let c = after.choice(id);
            &&& c is Some
            &&& c->Some_0.provider == r->Ok_0.chain@[0].provider@
            &&& c->Some_0.model == r->Ok_0.chain@[0].model@
            &&& c->Some_0.tier == r->Ok_0.tier
        },
{
}

/// The words of the refusals.
pub proof fn law_words_of_refusals(e: PlanError, estimate: Seq<char>, remaining: Seq<char>)
    ensures
        ({
            let t = e.text(estimate, remaining);
            let forced = "erzwungenes Modell '"@;
            match e {
                PlanError::UnknownModel { name } => t == forced + name@ + "' nicht im Katalog"@,
                PlanError::NotReady { name, provider } => t == forced + name@ + "': Provider '"@
                    + provider@ + "' nicht bereit oder kein nutzbarer Key"@,
                PlanError::MissingCapability { name, capability } => t == forced + name@
                    + "' bietet die geforderte Capability '"@ + capability@ + "' nicht"@,
                PlanError::NotLocal { name, task_key } => t == forced + name@
                    + "' ist kein lokaler Provider — '"@ + task_key@ + "' (local_only) abgelehnt"@,
                PlanError::ForbiddenProvider { name, provider } => t == forced + name@
                    + "': Provider '"@ + provider@ + "' durch Projekt-Scope gesperrt"@,
                PlanError::TierTooLow { name, tier, wanted } => t == forced + name@ + "': Tier "@
                    + text::decimal(tier as nat) + " < min_tier "@ + text::decimal(wanted as nat)
                    + " des Projekts"@,
                PlanError::ContextTooSmall { name, context, needed } => t == forced + name@
                    + "': Kontextfenster "@ + text::decimal(context as nat) + " < benötigt "@
                    + text::decimal(needed as nat),
                PlanError::OverBudget { name, .. } => t == forced + name@ + "': Schätzkosten "@
                    + estimate + " USD über Restbudget "@ + remaining,
                PlanError::NoBudget => t == "Budgetlimit erreicht — kein Modell im Restbudget"@,
                PlanError::NoCandidate { detail } => t == "kein passendes Modell verfügbar ("@
                    + detail@ + ")"@,
                PlanError::UnknownTask { task_key } => t == "keine Regel für task_type '"@
                    + task_key@ + "'"@,
            }
        }),
{
}

} // verus!
