//! Working through a chain of models: keys, repetitions, pauses and fallbacks.
use std::time::{Duration, SystemTime};
use vstd::arithmetic::power2::*;
use vstd::prelude::*;
use vstd::string::*;
use crate::config::{ModelEntry, ModelView, RetryConfig};
use crate::json::{JVal, Json};
use crate::{float, json, router, text};

verus! {

/// What a failing status says about how to go on.
#[derive(Debug, Clone, Copy, PartialEq, Eq, Structural)]
pub enum Outcome {
    /// The same key again after a pause, then the next model.
    Transient,
    /// The next key, then the next model.
    KeyExhausted,
    /// The request itself is wrong: stop.
    BadRequest,
}

/// What a failing status says about how to go on.
pub open spec fn outcome_of(status: u16) -> Outcome {
    if status == 401 || status == 402 || status == 403 || status == 429 {
        Outcome::KeyExhausted
    } else if status == 408 || 500 <= status <= 599 {
        Outcome::Transient
    } else {
        Outcome::BadRequest
    }
}

/// What a failing status says about how to go on.
pub fn classify_status(status: u16) -> (r: Outcome)
    ensures
        r == outcome_of(status),
{
    if status == 401 || status == 402 || status == 403 || status == 429 {
        Outcome::KeyExhausted
    } else if status == 408 || (status >= 500 && status <= 599) {
        Outcome::Transient
    } else {
        Outcome::BadRequest
    }
}

/// The outside type of points in time; its content is opaque here.
#[verifier::external_type_specification]
#[verifier::external_body]
pub struct ExSystemTime(SystemTime);

/// `SystemTime::now`: nothing is said of the time.
#[verifier::external_body]
fn now() -> (t: SystemTime) {
    SystemTime::now()
}

/// `SystemTime::duration_since` with the Unix epoch: nothing is said of the time that passed.
#[verifier::external_body]
fn since_epoch(t: SystemTime) -> (d: Option<Duration>) {
    t.duration_since(SystemTime::UNIX_EPOCH).ok()
}

/// `Duration::subsec_nanos`: the part of a duration below a second, in nanoseconds.
#[verifier::external_body]
fn subsec_nanos(d: Duration) -> (n: u32)
    ensures
        n < 1_000_000_000,
{
    d.subsec_nanos()
}

/// The pause before a repetition without its variation: it doubles with each one, up to a limit.
pub open spec fn backoff_base(cfg: RetryConfig, attempt: u32) -> int {
    let doublings = if attempt < 16 {
        attempt as nat
    } else {
        16
    };
    let grown = cfg.backoff_initial_ms * pow2(doublings);
    if grown < cfg.backoff_max_ms {
        grown
    } else {
        cfg.backoff_max_ms as int
    }
}

/// What 1 stands for where fractions are held as whole numbers.
pub const SCALE: u128 = 0x4000_0000_0000_0000;

/// The double closest to eight tenths, on that scale.
pub const EIGHT_TENTHS: u128 = 0x3333_3333_3333_3400;

/// The double closest to `k` thousandths, on that scale.
pub open spec fn thousandths(k: nat) -> nat {
    float::to_multiple(k * SCALE as nat, 1000 * float::spacing(k * SCALE as nat / 1000)) / 1000
}

/// The factor by which a pause varies, on that scale: 0.8 and up to 399 thousandths, added as
/// doubles.
pub open spec fn variation(nanos: u32) -> nat {
    float::nearest(EIGHT_TENTHS as nat + thousandths((nanos % 400) as nat))
}

/// The pause before a repetition: its base times the variation, multiplied as doubles, without
/// the fraction; no more than 64 bits hold.
pub open spec fn backoff_of(cfg: RetryConfig, attempt: u32, nanos: u32) -> int {
    let base = float::nearest(backoff_base(cfg, attempt) as nat);
    let varied = (float::nearest(base * variation(nanos)) / SCALE as nat) as int;
    if varied < u64::MAX {
        varied
    } else {
        u64::MAX as int
    }
}

/// A factor lies between eight and twelve tenths.
proof fn lemma_variation(nanos: u32)
    ensures
        EIGHT_TENTHS <= variation(nanos),
        10 * variation(nanos) <= 12 * SCALE - SCALE / 200,
        thousandths((nanos % 400) as nat) <= SCALE,
{
    let k = (nanos % 400) as nat;
    let n = k * SCALE as nat;
    let step = 1000 * float::spacing(n / 1000);
    float::lemma_spacing(n / 1000);
    float::lemma_to_multiple(n, step);
    assert(step <= 1_000_000);
    let sum = EIGHT_TENTHS as nat + thousandths(k);
    float::lemma_nearest(sum);
    float::lemma_spacing(sum);
    let u = float::spacing(sum);
    assert(u == 512 || u == 1024) by {
        reveal_with_fuel(float::spacing, 12);
    }
    float::lemma_to_multiple(sum, u);
    assert((sum / u) * u >= EIGHT_TENTHS) by (nonlinear_arith)
        requires
            u == 512 || u == 1024,
            sum >= 0x3333_3333_3333_3400,
            EIGHT_TENTHS == 0x3333_3333_3333_3400,
    ;
}

/// The pause before a repetition, in milliseconds, with its variation taken from `nanos`.
pub fn backoff_varied(cfg: &RetryConfig, attempt: u32, nanos: u32) -> (r: u64)
    ensures
        r == backoff_of(*cfg, attempt, nanos),
{
    let doublings: u32 = if attempt < 16 {
        attempt
    } else {
        16
    };
    let mut factor: u128 = 1;
    let mut i: u32 = 0;
    proof {
        lemma2_to64();
    }
    while i < doublings
        invariant
            i <= doublings <= 16,
            factor == pow2(i as nat),
            factor <= 65536,
            pow2(16) == 65536,
        decreases doublings - i,
    {
        proof {
            lemma_pow2_unfold((i + 1) as nat);
            if i + 1 < 16 {
                lemma_pow2_strictly_increases((i + 1) as nat, 16);
            }
        }
        factor = factor * 2;
        i += 1;
    }
    let initial: u128 = cfg.backoff_initial_ms as u128;
    assert(initial * factor <= 0xffff_ffff_ffff_ffff * 65536) by (nonlinear_arith)
        requires
            initial <= 0xffff_ffff_ffff_ffff,
            0 <= factor <= 65536,
    ;
    assert(0 <= initial * factor) by (nonlinear_arith)
        requires
            0 <= initial,
            0 <= factor,
    ;
    let grown: u128 = initial * factor;
    let max: u128 = cfg.backoff_max_ms as u128;
    let base: u128 = if grown < max {
        grown
    } else {
        max
    };
    let k: u128 = (nanos % 400) as u128;
    let n: u128 = k * SCALE;
    let unit: u128 = float::spacing_of(n / 1000);
    proof {
        float::lemma_spacing((n / 1000) as nat);
        lemma_variation(nanos);
    }
    let share: u128 = float::round_to(n, 1000 * unit) / 1000;
    let factor: u128 = float::round_double(EIGHT_TENTHS + share);
    let whole: u128 = float::round_double(base);
    proof {
        float::lemma_nearest(base as nat);
        assert(whole * factor <= 0x1_0000_0000_0000_0800 * 0x4ccc_cccc_cccc_cccc)
            by (nonlinear_arith)
            requires
                0 <= whole <= 0x1_0000_0000_0000_0800,
                0 <= factor <= 0x4ccc_cccc_cccc_cccc,
        ;
        assert(0 <= whole * factor) by (nonlinear_arith)
            requires
                0 <= whole,
                0 <= factor,
        ;
    }
    let varied: u128 = float::round_double(whole * factor) / SCALE;
    if varied < 0xffff_ffff_ffff_ffff {
        varied as u64
    } else {
        u64::MAX
    }
}

/// The pause before a repetition, in milliseconds: exponential, limited, and varied by up to a
/// fifth with the clock.
pub fn backoff_ms(cfg: &RetryConfig, attempt: u32) -> (r: u64)
    ensures
        exists|nanos: u32| r == #[trigger] backoff_of(*cfg, attempt, nanos),
{
    let nanos: u32 = match since_epoch(now()) {
        Some(d) => subsec_nanos(d),
        None => 0,
    };
    backoff_varied(cfg, attempt, nanos)
}

proof fn lemma_band_above(base: nat, whole: nat, factor: nat, exact: nat, product: nat)
    requires
        exact == whole * factor,
        10 * factor <= 12 * SCALE - SCALE / 200,
        float::DENSE * whole <= float::DENSE * base + base,
        float::DENSE * product <= float::DENSE * exact + exact,
    ensures
        product / SCALE as nat <= base * 12 / 10,
{
    let bf = (base * factor) as int;
    assert(0x20_0000_0000_0000 * exact <= 0x20_0000_0000_0001 * bf) by (nonlinear_arith)
        requires
            exact == whole * factor,
            bf == base * factor,
            0x20_0000_0000_0000 * whole <= 0x20_0000_0000_0001 * base,
    ;
    assert(10 * bf <= 0x2ffae147ae147ae15 * base) by (nonlinear_arith)
        requires
            bf == base * factor,
            10 * factor <= 0x2ffae147ae147ae15,
    ;
    let r = product / SCALE as nat;
    assert(r * SCALE <= product);
}

proof fn lemma_band_below(base: nat, whole: nat, factor: nat, exact: nat, product: nat)
    requires
        exact == whole * factor,
        EIGHT_TENTHS <= factor,
        float::DENSE * base <= float::DENSE * whole + base,
        float::DENSE * exact <= float::DENSE * product + exact,
        base <= u64::MAX,
    ensures
        base * 8 / 10 <= product / SCALE as nat + 1 + base / 0x8_0000_0000_0000,
        base * 8 / 10 <= u64::MAX,
{
    let bf = (base * factor) as int;
    assert(0x1f_ffff_ffff_ffff * bf <= 0x20_0000_0000_0000 * exact) by (nonlinear_arith)
        requires
            exact == whole * factor,
            bf == base * factor,
            0x1f_ffff_ffff_ffff * base <= 0x20_0000_0000_0000 * whole,
    ;
    assert(EIGHT_TENTHS * base <= bf) by (nonlinear_arith)
        requires
            bf == base * factor,
            EIGHT_TENTHS <= factor,
    ;
    let r = product / SCALE as nat;
    assert(product < (r + 1) * SCALE);
}

/// Where a base is a double, nothing is lost below: eight tenths of it, without the fraction, is a
/// double too.
proof fn lemma_band_exact(base: nat, factor: nat)
    requires
        base <= 0x10_0000_0000_0000,
        EIGHT_TENTHS <= factor,
        10 * factor <= 12 * SCALE,
    ensures
        base * 8 / 10 <= float::nearest(base * factor) / SCALE as nat,
{
    let exact = base * factor;
    let s = SCALE as nat;
    let z = (base * 8 / 10) as nat;
    let u = float::spacing(exact);
    float::lemma_spacing(exact);
    float::lemma_to_multiple(exact, u);
    assert(z * s <= exact) by (nonlinear_arith)
        requires
            10 * z <= 8 * base,
            8 * s <= 10 * factor,
            exact == base * factor,
    ;
    assert(10 * exact <= 0x10_0000_0000_0000 * (12 * s)) by (nonlinear_arith)
        requires
            exact == base * factor,
            base <= 0x10_0000_0000_0000,
            10 * factor <= 12 * s,
    ;
    assert(u < 0x8000_0000_0000_0000);
    lemma2_to64();
    lemma_pow2_adds(32, 30);
    lemma_pow2_unfold(63);
    assert(0x1_0000_0000 * 0x4000_0000 == SCALE);
    lemma_spacing_divides(exact, 62);
    let parts = choose|parts: nat| #[trigger] (parts * u) == s;
    assert(z * s == (z * parts) * u) by (nonlinear_arith)
        requires
            parts * u == s,
    ;
    assert((exact / u) * u >= z * s) by (nonlinear_arith)
        requires
            (z * parts) * u <= exact,
            z * s == (z * parts) * u,
            u > 0,
    ;
    assert(float::nearest(exact) >= z * s);
    assert(float::nearest(exact) / s >= z) by (nonlinear_arith)
        requires
            float::nearest(exact) >= z * s,
            s > 0,
    ;
}

/// A distance between doubles is a power of two, and divides every larger one.
proof fn lemma_spacing_divides(n: nat, places: nat)
    requires
        float::spacing(n) < pow2(places + 1),
    ensures
        exists|parts: nat| #[trigger] (parts * float::spacing(n)) == pow2(places),
    decreases n,
{
    let u = float::spacing(n);
    if n < float::DENSE {
        assert(pow2(places) * u == pow2(places)) by (nonlinear_arith)
            requires
                u == 1,
        ;
    } else {
        lemma_pow2_unfold(places + 1);
        float::lemma_spacing(n / 2);
        if places == 0 {
            lemma2_to64();
        } else {
            lemma_pow2_unfold(places);
            let half = float::spacing(n / 2);
            lemma_spacing_divides(n / 2, (places - 1) as nat);
            let parts = choose|parts: nat|
                #[trigger] (parts * half) == pow2((places - 1) as nat);
            assert(parts * u == pow2(places)) by (nonlinear_arith)
                requires
                    u == 2 * half,
                    parts * half == pow2((places - 1) as nat),
                    pow2(places) == 2 * pow2((places - 1) as nat),
            ;
        }
    }
}

/// Whatever the variation, a pause lies between eight and twelve tenths of its base, and the base
/// never exceeds the configured limit. Bases of more than 52 binary places are rounded to doubles,
/// so that the lower bound gives way there by what the rounding takes.
pub proof fn law_backoff_is_banded(cfg: RetryConfig, attempt: u32, nanos: u32)
    ensures
        0 <= backoff_base(cfg, attempt) <= cfg.backoff_max_ms,
        backoff_of(cfg, attempt, nanos) <= backoff_base(cfg, attempt) * 12 / 10,
        backoff_base(cfg, attempt) <= 0x10_0000_0000_0000 ==> backoff_base(cfg, attempt) * 8 / 10
            <= backoff_of(cfg, attempt, nanos),
        backoff_base(cfg, attempt) * 8 / 10 <= backoff_of(cfg, attempt, nanos) + 1 + backoff_base(
            cfg,
            attempt,
        ) / 0x8_0000_0000_0000,
{
    let base = backoff_base(cfg, attempt);
    let doublings = if attempt < 16 {
        attempt as nat
    } else {
        16
    };
    lemma_pow2_pos(doublings);
    assert(0 <= cfg.backoff_initial_ms * pow2(doublings)) by (nonlinear_arith)
        requires
            pow2(doublings) > 0,
            cfg.backoff_initial_ms >= 0,
    ;
    let whole = float::nearest(base as nat);
    let factor = variation(nanos);
    let exact = whole * factor;
    let product = float::nearest(exact);
    lemma_variation(nanos);
    float::lemma_nearest(base as nat);
    float::lemma_nearest(exact);
    lemma_band_above(base as nat, whole, factor, exact, product);
    lemma_band_below(base as nat, whole, factor, exact, product);
    if base <= 0x10_0000_0000_0000 {
        assert(float::spacing(base as nat) == 1);
        float::lemma_to_multiple(base as nat, 1);
        lemma_band_exact(base as nat, factor);
    }
}

/// A longer series of failures never shortens the base of the pause.
pub proof fn law_backoff_grows(cfg: RetryConfig, attempt: u32, later: u32)
    requires
        attempt <= later,
    ensures
        backoff_base(cfg, attempt) <= backoff_base(cfg, later),
{
    let a = if attempt < 16 {
        attempt as nat
    } else {
        16
    };
    let b = if later < 16 {
        later as nat
    } else {
        16
    };
    if a < b {
        lemma_pow2_strictly_increases(a, b);
    }
    assert(cfg.backoff_initial_ms * pow2(a) <= cfg.backoff_initial_ms * pow2(b))
        by (nonlinear_arith)
        requires
            pow2(a) <= pow2(b),
            cfg.backoff_initial_ms >= 0,
    ;
}

/// What a run through a chain waits for.
#[derive(Debug, Clone, Copy, PartialEq, Eq, Structural)]
pub enum Phase {
    Keys,
    Answer,
    Pause,
    Over,
}

/// What to do next.
#[derive(Debug, Clone, Copy, PartialEq, Eq, Structural)]
pub enum Step {
    /// Find the keys that can be used for the model at this place of the chain.
    FindKeys { model: usize },
    /// Send the request to that model with that key.
    Send { model: usize, key: usize },
    /// Pause before sending it again; so many repetitions went before.
    Pause { attempt: u32 },
    /// That model answered.
    Succeeded { model: usize },
    /// That model refused the request as wrong, with this status.
    Refused { model: usize, status: u16 },
    /// Nothing is left to try.
    Exhausted,
}

/// What happened.
#[derive(Debug)]
pub enum Event {
    /// So many keys can be used.
    Keys(usize),
    /// The provider answered with a status, whose text is `reason`; `detail` is the body of the
    /// answer where the status is a failure.
    Answer { status: u16, reason: String, detail: String },
    /// The provider did not answer, with this description.
    Silence(String),
    Paused,
}

/// A run through a chain of models.
#[derive(Debug)]
pub struct Run {
    /// The place in the chain.
    pub model: usize,
    pub key: usize,
    pub keys: usize,
    /// Repetitions with this key.
    pub attempt: u32,
    /// Requests sent altogether.
    pub attempts: u32,
    pub max_retries: u32,
    pub phase: Phase,
    /// What was tried, and how it ended.
    pub trail: Vec<Json>,
    pub last_err: String,
}

/// The model of a run.
#[verifier::ext_equal]
pub struct RunView {
    pub model: int,
    pub key: int,
    pub keys: int,
    pub attempt: u32,
    pub attempts: u32,
    pub max_retries: u32,
    pub phase: Phase,
    pub trail: Seq<JVal>,
    pub last_err: Seq<char>,
}

/// The model of an event.
pub enum EventView {
    Keys(int),
    Answer { status: u16, reason: Seq<char>, detail: Seq<char> },
    Silence(Seq<char>),
    Paused,
}

impl View for Event {
    type V = EventView;

    open spec fn view(&self) -> EventView {
        match self {
            Event::Keys(n) => EventView::Keys(*n as int),
            Event::Answer { status, reason, detail } => EventView::Answer {
                status: *status,
                reason: reason@,
                detail: detail@,
            },
            Event::Silence(e) => EventView::Silence(e@),
            Event::Paused => EventView::Paused,
        }
    }
}

impl View for Run {
    type V = RunView;

    open spec fn view(&self) -> RunView {
        RunView {
            model: self.model as int,
            key: self.key as int,
            keys: self.keys as int,
            attempt: self.attempt,
            attempts: self.attempts,
            max_retries: self.max_retries,
            phase: self.phase,
            trail: json::item_values(self.trail@),
            last_err: self.last_err@,
        }
    }
}

/// An entry of the trail: provider and model.
pub open spec fn trail_base(m: ModelView) -> JVal {
    JVal::empty_object().with("provider"@, JVal::Str(m.provider)).with(
        "model"@,
        JVal::Str(m.model),
    )
}

/// One more of a count, as far as 32 bits go.
pub open spec fn one_more(n: u32) -> u32 {
    if n < u32::MAX {
        (n + 1) as u32
    } else {
        n
    }
}

impl RunView {
    /// Whether the run is at a place that exists: within the chain, at one of the keys, and with
    /// no more repetitions than allowed.
    pub open spec fn sound(self, chain: nat) -> bool {
        &&& self.phase != Phase::Over ==> 0 <= self.model < chain
        &&& self.attempt <= self.max_retries
        &&& self.phase == Phase::Answer || self.phase == Phase::Pause ==> 0 <= self.key < self.keys
        &&& self.phase == Phase::Pause ==> self.attempt < self.max_retries
    }

    /// Whether the run waits for an event of this kind.
    pub open spec fn awaits(self, e: EventView) -> bool {
        match e {
            EventView::Keys(n) => self.phase == Phase::Keys && n >= 0,
            EventView::Answer { .. } => self.phase == Phase::Answer,
            EventView::Silence(_) => self.phase == Phase::Answer,
            EventView::Paused => self.phase == Phase::Pause,
        }
    }

    /// Goes on to the next model, if there is one.
    pub open spec fn next_model(self, chain: nat) -> (RunView, Step) {
        if self.model + 1 < chain {
            (
                RunView { model: self.model + 1, phase: Phase::Keys, ..self },
                Step::FindKeys { model: (self.model + 1) as usize },
            )
        } else {
            (RunView { phase: Phase::Over, ..self }, Step::Exhausted)
        }
    }

    /// Sends the request with a key.
    pub open spec fn send(self, key: int, attempt: u32) -> (RunView, Step) {
        (
            RunView {
                key,
                attempt,
                attempts: one_more(self.attempts),
                phase: Phase::Answer,
                ..self
            },
            Step::Send { model: self.model as usize, key: key as usize },
        )
    }

    /// After a failure that may pass: a pause while repetitions are left, else the next model.
    pub open spec fn pause_or_next(self, chain: nat) -> (RunView, Step) {
        if self.attempt < self.max_retries {
            (RunView { phase: Phase::Pause, ..self }, Step::Pause { attempt: self.attempt })
        } else {
            self.next_model(chain)
        }
    }

    /// The run after an event, and what to do next.
    pub open spec fn after(self, chain: Seq<ModelView>, e: EventView) -> (RunView, Step) {
        let m = chain[self.model];
        let base = trail_base(m);
        let keyed = base.with("key"@, JVal::Uint(self.key as u64));
        match e {
            EventView::Keys(n) => if n == 0 {
                let err = "kein nutzbarer API-Key für Provider '"@ + m.provider + "'"@;
                (RunView {
                    trail: self.trail.push(base.with("error"@, JVal::Str(err))),
                    last_err: err,
                    ..self
                }).next_model(chain.len())
            } else {
                (RunView { keys: n, ..self }).send(0, 0)
            },
            EventView::Answer { status, reason, detail } => if 200 <= status <= 299 {
                (
                    RunView {
                        trail: self.trail.push(keyed.with("status"@, JVal::Uint(status as u64))),
                        phase: Phase::Over,
                        ..self
                    },
                    Step::Succeeded { model: self.model as usize },
                )
            } else {
                let noted = RunView {
                    trail: self.trail.push(
                        keyed.with("status"@, JVal::Uint(status as u64)).with(
                            "error"@,
                            JVal::Str(text::clipped(detail, 200)),
                        ),
                    ),
                    last_err: reason + ": "@ + text::clipped(detail, 300),
                    ..self
                };
                match outcome_of(status) {
                    Outcome::Transient => noted.pause_or_next(chain.len()),
                    Outcome::KeyExhausted => if self.key + 1 < self.keys {
                        noted.send(self.key + 1, 0)
                    } else {
                        noted.next_model(chain.len())
                    },
                    Outcome::BadRequest => (
                        RunView { phase: Phase::Over, ..noted },
                        Step::Refused { model: self.model as usize, status },
                    ),
                }
            },
            EventView::Silence(err) => (RunView {
                trail: self.trail.push(keyed.with("error"@, JVal::Str(err))),
                last_err: err,
                ..self
            }).pause_or_next(chain.len()),
            EventView::Paused => self.send(self.key, (self.attempt + 1) as u32),
        }
    }

    /// The run before anything was tried.
    pub open spec fn start(max_retries: u32, chain: nat) -> RunView {
        RunView {
            model: 0,
            key: 0,
            keys: 0,
            attempt: 0,
            attempts: 0,
            max_retries,
            phase: if chain == 0 {
                Phase::Over
            } else {
                Phase::Keys
            },
            trail: Seq::empty(),
            last_err: "kein Versuch ausgeführt"@,
        }
    }
}

fn make_trail_base(m: &ModelEntry) -> (r: Json)
    ensures
        r@ == trail_base(m@),
{
    let mut r = Json::object();
    r.set("provider", Json::string(m.provider.as_str()));
    r.set("model", Json::string(m.model.as_str()));
    r
}

impl Run {
    /// Begins a run through a chain, with the number of repetitions allowed per key.
    pub fn begin(chain: &Vec<ModelEntry>, max_retries: u32) -> (r: (Run, Step))
        ensures
            r.0@ == RunView::start(max_retries, chain@.len()),
            r.0@.sound(chain@.len()),
            r.1 == if chain@.len() == 0 {
                Step::Exhausted
            } else {
                Step::FindKeys { model: 0 }
            },
    {
        let empty = chain.len() == 0;
        let run = Run {
            model: 0,
            key: 0,
            keys: 0,
            attempt: 0,
            attempts: 0,
            max_retries,
            phase: if empty {
                Phase::Over
            } else {
                Phase::Keys
            },
            trail: Vec::new(),
            last_err: "kein Versuch ausgeführt".to_owned(),
        };
        assert(run@.trail =~= Seq::empty());
        (
            run,
            if empty {
                Step::Exhausted
            } else {
                Step::FindKeys { model: 0 }
            },
        )
    }

    fn note(&mut self, entry: Json)
        ensures
            final(self)@ == (RunView { trail: old(self)@.trail.push(entry@), ..old(self)@ }),
    {
        let ghost was = json::item_values(self.trail@);
        let ghost v = entry@;
        self.trail.push(entry);
        assert(json::item_values(self.trail@) =~= was.push(v));
    }

    fn go_to_next_model(&mut self, chain: usize) -> (step: Step)
        requires
            old(self)@.model < chain,
        ensures
            (final(self)@, step) == old(self)@.next_model(chain as nat),
    {
        if self.model < chain - 1 {
            self.model = self.model + 1;
            self.phase = Phase::Keys;
            Step::FindKeys { model: self.model }
        } else {
            self.phase = Phase::Over;
            Step::Exhausted
        }
    }

    fn send_with(&mut self, key: usize, attempt: u32) -> (step: Step)
        ensures
            (final(self)@, step) == old(self)@.send(key as int, attempt),
    {
        self.key = key;
        self.attempt = attempt;
        self.attempts = if self.attempts < u32::MAX {
            self.attempts + 1
        } else {
            self.attempts
        };
        self.phase = Phase::Answer;
        Step::Send { model: self.model, key }
    }

    fn pause_or_go_on(&mut self, chain: usize) -> (step: Step)
        requires
            old(self)@.model < chain,
        ensures
            (final(self)@, step) == old(self)@.pause_or_next(chain as nat),
    {
        if self.attempt < self.max_retries {
            self.phase = Phase::Pause;
            Step::Pause { attempt: self.attempt }
        } else {
            self.go_to_next_model(chain)
        }
    }

    /// Takes in what happened and says what to do next. A failure that may pass is repeated with
    /// the same key after a pause, as often as allowed, and then the next model is tried. A key
    /// that does not serve is followed by the next key, and after the last one by the next model.
    /// A request that is wrong in itself ends the run.
    pub fn advance(&mut self, chain: &Vec<ModelEntry>, event: Event) -> (step: Step)
        requires
            old(self)@.sound(chain@.len()),
            old(self)@.awaits(event@),
        ensures
            (final(self)@, step) == old(self)@.after(router::model_views(chain@), event@),
            final(self)@.sound(chain@.len()),
    {
        let ghost views = router::model_views(chain@);
        let n: usize = chain.len();
        let m = &chain[self.model];
        assert(views[self.model as int] == m@);
        match event {
            Event::Keys(count) => {
                if count == 0 {
                    let mut err = "kein nutzbarer API-Key für Provider '".to_owned();
                    err.append(m.provider.as_str());
                    err.append("'");
                    let mut entry = make_trail_base(m);
                    entry.set("error", Json::string(err.as_str()));
                    self.note(entry);
                    self.last_err = err;
                    self.go_to_next_model(n)
                } else {
                    self.keys = count;
                    self.send_with(0, 0)
                }
            },
            Event::Answer { status, reason, detail } => {
                let mut entry = make_trail_base(m);
                entry.set("key", Json::uint(self.key as u64));
                entry.set("status", Json::uint(status as u64));
                if status >= 200 && status <= 299 {
                    self.note(entry);
                    self.phase = Phase::Over;
                    Step::Succeeded { model: self.model }
                } else {
                    let short = text::truncate(detail.as_str(), 200);
                    entry.set("error", Json::string(short.as_str()));
                    self.note(entry);
                    let mut err = reason;
                    err.append(": ");
                    let longer = text::truncate(detail.as_str(), 300);
                    err.append(longer.as_str());
                    self.last_err = err;
                    match classify_status(status) {
                        Outcome::Transient => self.pause_or_go_on(n),
                        Outcome::KeyExhausted => {
                            if self.key < self.keys - 1 {
                                let next: usize = self.key + 1;
                                self.send_with(next, 0)
                            } else {
                                self.go_to_next_model(n)
                            }
                        },
                        Outcome::BadRequest => {
                            self.phase = Phase::Over;
                            Step::Refused { model: self.model, status }
                        },
                    }
                }
            },
            Event::Silence(err) => {
                let mut entry = make_trail_base(m);
                entry.set("key", Json::uint(self.key as u64));
                entry.set("error", Json::string(err.as_str()));
                self.note(entry);
                self.last_err = err;
                self.pause_or_go_on(n)
            },
            Event::Paused => {
                let key: usize = self.key;
                let attempt: u32 = self.attempt + 1;
                self.send_with(key, attempt)
            },
        }
    }

    /// The trail as JSON text.
    pub fn trail_text(&self) -> (r: String)
        ensures
            r@ == json::json_text(JVal::Array(self@.trail)),
    {
        let mut items: Vec<Json> = Vec::new();
        let mut i: usize = 0;
        while i < self.trail.len()
            invariant
                i <= self.trail@.len(),
                items@.len() == i,
                forall|k: int| 0 <= k < i ==> (#[trigger] items@[k])@ == self.trail@[k]@,
            decreases self.trail.len() - i,
        {
            items.push(self.trail[i].copy());
            i += 1;
        }
        assert(json::item_values(items@) =~= self@.trail);
        let whole = Json::array(items);
        whole.text()
    }
}

/// Every event brings a run closer to its end: the rest of the chain gets shorter, or the rest
/// of the keys, or the rest of the repetitions, or the run goes from one phase to the next.
pub proof fn law_every_event_is_progress(run: RunView, chain: Seq<ModelView>, e: EventView)
    requires
        run.sound(chain.len()),
        run.awaits(e),
        e matches EventView::Keys(n) ==> n <= usize::MAX,
    ensures
        run.after(chain, e).0.phase == Phase::Over || decreases_to!(
            chain.len() - run.model,
            run.keys_left(),
            run.max_retries - run.attempt,
            run.phase_rank()
            =>
            chain.len() - run.after(chain, e).0.model,
            run.after(chain, e).0.keys_left(),
            run.max_retries - run.after(chain, e).0.attempt,
            run.after(chain, e).0.phase_rank()
        ),
{
}

impl RunView {
    /// How many keys are left to try with this model, the current one included; before they are
    /// known, more than there can be.
    pub open spec fn keys_left(self) -> int {
        if self.phase == Phase::Keys {
            usize::MAX + 1
        } else {
            self.keys - self.key
        }
    }

    /// A phase with a higher rank comes before one with a lower rank.
    pub open spec fn phase_rank(self) -> int {
        match self.phase {
            Phase::Keys => 2,
            Phase::Answer => 1,
            Phase::Pause => 0,
            Phase::Over => 0,
        }
    }
}

/// A key that does not serve is followed by the next key of the same model, as long as there is
/// one; the request is not given up.
pub proof fn law_dead_key_rotates(
    run: RunView,
    chain: Seq<ModelView>,
    status: u16,
    reason: Seq<char>,
    detail: Seq<char>,
)
    requires
        run.sound(chain.len()),
        run.phase == Phase::Answer,
        status == 401 || status == 402 || status == 403 || status == 429,
        run.key + 1 < run.keys,
    ensures
        ({
            let (next, step) = run.after(chain, EventView::Answer { status, reason, detail });
            &&& step == Step::Send { model: run.model as usize, key: (run.key + 1) as usize }
            &&& next.model == run.model
            &&& next.attempt == 0
        }),
{
}

/// A request that a provider calls wrong goes to no other model.
pub proof fn law_bad_request_stops(
    run: RunView,
    chain: Seq<ModelView>,
    status: u16,
    reason: Seq<char>,
    detail: Seq<char>,
)
    requires
        run.sound(chain.len()),
        run.phase == Phase::Answer,
        !(200 <= status <= 299),
        !(500 <= status <= 599),
        status != 401 && status != 402 && status != 403 && status != 408 && status != 429,
    ensures
        ({
            let (next, step) = run.after(chain, EventView::Answer { status, reason, detail });
            &&& step == Step::Refused { model: run.model as usize, status }
            &&& next.phase == Phase::Over
        }),
{
}

/// The run ends without an answer only at the last model of the chain.
pub proof fn law_gives_up_only_at_the_end(run: RunView, chain: Seq<ModelView>, e: EventView)
    requires
        run.sound(chain.len()),
        run.awaits(e),
        run.after(chain, e).1 == Step::Exhausted,
    ensures
        run.model == chain.len() - 1,
{
}

/// What a status leads to. Success ends the run with that model. A key that does not serve is
/// followed by the next key and, after the last one, by the next model. A failure that may pass is
/// repeated after a pause as often as allowed, and then the next model is tried. Only a status that
/// calls the request itself wrong ends the run with a refusal; with any other failure the run goes
/// on while a model is left.
pub proof fn law_status_decides(
    run: RunView,
    chain: Seq<ModelView>,
    status: u16,
    reason: Seq<char>,
    detail: Seq<char>,
)
    requires
        run.sound(chain.len()),
        run.phase == Phase::Answer,
    ensures
        ({
            let step = run.after(chain, EventView::Answer { status, reason, detail }).1;
            let dead_key = status == 401 || status == 402 || status == 403 || status == 429;
            let passing = status == 408 || 500 <= status <= 599;
            let fine = 200 <= status <= 299;
            &&& fine ==> step == Step::Succeeded { model: run.model as usize }
            &&& dead_key && run.key + 1 < run.keys ==> step == Step::Send {
                model: run.model as usize,
                key: (run.key + 1) as usize,
            }
            &&& passing && run.attempt < run.max_retries ==> step == Step::Pause {
                attempt: run.attempt,
            }
            &&& (dead_key && run.key + 1 == run.keys) || (passing && run.attempt
                == run.max_retries) ==> step == if run.model + 1 < chain.len() {
                Step::FindKeys { model: (run.model + 1) as usize }
            } else {
                Step::Exhausted
            }
            &&& (step is Refused) == (!fine && !dead_key && !passing)
            &&& !fine && !dead_key && !passing ==> step == Step::Refused {
                model: run.model as usize,
                status,
            }
        }),
{
}

/// What happens without a status. A provider that does not answer is asked again after a pause, as
/// often as allowed, and then the next model is tried. A model without a usable key is passed over,
/// and one with keys gets the request with the first. After a pause the same key is used again.
pub proof fn law_silence_is_repeated(run: RunView, chain: Seq<ModelView>, err: Seq<char>, keys: int)
    requires
        run.sound(chain.len()),
        keys >= 0,
    ensures
        ({
            let next = if run.model + 1 < chain.len() {
                Step::FindKeys { model: (run.model + 1) as usize }
            } else {
                Step::Exhausted
            };
            &&& run.phase == Phase::Answer && run.attempt < run.max_retries ==> run.after(
                chain,
                EventView::Silence(err),
            ).1 == Step::Pause { attempt: run.attempt }
            &&& run.phase == Phase::Answer && run.attempt == run.max_retries ==> run.after(
                chain,
                EventView::Silence(err),
            ).1 == next
            &&& run.phase == Phase::Keys && keys == 0 ==> run.after(chain, EventView::Keys(keys)).1
                == next
            &&& run.phase == Phase::Keys && keys > 0 ==> run.after(chain, EventView::Keys(keys)).1
                == Step::Send { model: run.model as usize, key: 0 }
            &&& run.phase == Phase::Pause ==> run.after(chain, EventView::Paused).1 == Step::Send {
                model: run.model as usize,
                key: run.key as usize,
            }
        }),
{
}

/// A run is where its last step says it is, and keeps count: every request that is sent counts as
/// one attempt and nothing else does; a pause changes neither model nor key; a repetition is one
/// more than before, and another key or model starts without repetitions.
pub proof fn law_run_follows_its_steps(run: RunView, chain: Seq<ModelView>, e: EventView)
    requires
        run.sound(chain.len()),
        run.awaits(e),
        chain.len() <= usize::MAX,
        run.keys <= usize::MAX,
        e matches EventView::Keys(n) ==> n <= usize::MAX,
    ensures
        ({
            let (next, step) = run.after(chain, e);
            &&& next.max_retries == run.max_retries
            &&& (step matches Step::FindKeys { model } ==> next.phase == Phase::Keys && next.model
                == model && next.attempts == run.attempts)
            &&& (step matches Step::Send { model, key } ==> next.phase == Phase::Answer
                && next.model == model && next.key == key && next.model == run.model && (
            run.attempts < u32::MAX ==> next.attempts == run.attempts + 1) && next.attempt == if e
                == EventView::Paused {
                run.attempt + 1
            } else {
                0
            })
            &&& (step matches Step::Pause { .. } ==> next.phase == Phase::Pause && next.model
                == run.model && next.key == run.key && next.keys == run.keys && next.attempt
                == run.attempt && next.attempts == run.attempts)
            &&& (step matches Step::Succeeded { .. } ==> next.phase == Phase::Over && next.attempts
                == run.attempts)
            &&& (step matches Step::Refused { .. } ==> next.phase == Phase::Over && next.attempts
                == run.attempts)
            &&& (step matches Step::Exhausted ==> next.phase == Phase::Over && next.attempts
                == run.attempts)
            &&& (e matches EventView::Keys(n) ==> (n > 0 ==> next.keys == n))
        }),
{
}

proof fn lemma_trail_names()
    ensures
        "provider"@ != "model"@,
        "provider"@ != "key"@,
        "provider"@ != "status"@,
        "provider"@ != "error"@,
        "model"@ != "key"@,
        "model"@ != "status"@,
        "model"@ != "error"@,
        "key"@ != "status"@,
        "key"@ != "error"@,
        "status"@ != "error"@,
{
    reveal_strlit("provider");
    reveal_strlit("model");
    reveal_strlit("key");
    reveal_strlit("status");
    reveal_strlit("error");
    assert("provider"@.len() == 8 && "model"@.len() == 5 && "key"@.len() == 3);
    assert("status"@.len() == 6 && "error"@.len() == 5 && "model"@[0] == 'm' && "error"@[0] == 'e');
}

/// The trail tells what was tried: every event but a pause and a list of keys adds one entry behind
/// the earlier ones, which names the provider and the model, the key where one was used, the status
/// where there was one, and the error where it failed. Of the last failure the run knows the words.
pub proof fn law_trail_tells_what_was_tried(run: RunView, chain: Seq<ModelView>, e: EventView)
    requires
        run.sound(chain.len()),
        run.awaits(e),
    ensures
        ({
            let next = run.after(chain, e).0;
            let m = chain[run.model];
            let entry = next.trail.last();
            let adds = match e {
                EventView::Keys(n) => n == 0,
                EventView::Paused => false,
                _ => true,
            };
            &&& !adds ==> next.trail == run.trail && next.last_err == run.last_err
            &&& adds ==> next.trail == run.trail.push(entry) && entry.text_at("provider"@) == Some(
                m.provider,
            ) && entry.text_at("model"@) == Some(m.model)
            &&& (e matches EventView::Keys(n) ==> (n == 0 ==> entry.get("key"@) is None
                && entry.text_at("error"@) == Some(next.last_err) && text::is_part(
                m.provider,
                next.last_err,
            )))
            &&& (e matches EventView::Silence(err) ==> entry.uint_at("key"@) == Some(
                run.key as u64,
            ) && entry.get("status"@) is None && entry.text_at("error"@) == Some(err)
                && next.last_err == err)
            &&& (e matches EventView::Answer { status, reason, detail } ==> entry.uint_at("key"@)
                == Some(run.key as u64) && entry.uint_at("status"@) == Some(status as u64) && (if 200
                <= status <= 299 {
                entry.get("error"@) is None && next.last_err == run.last_err
            } else {
                &&& entry.text_at("error"@) == Some(text::clipped(detail, 200))
                &&& next.last_err == reason + ": "@ + text::clipped(detail, 300)
            }))
        }),
{
    lemma_trail_names();
    let m = chain[run.model];
    let a = "kein nutzbarer API-Key für Provider '"@;
    text::lemma_part_between(a, m.provider, "'"@);
}

/// A pause starts at the configured length and doubles with each repetition, up to the sixteenth,
/// as long as the limit leaves room for it.
pub proof fn law_backoff_doubles(cfg: RetryConfig, attempt: u32)
    requires
        cfg.backoff_initial_ms <= cfg.backoff_max_ms,
    ensures
        backoff_base(cfg, 0) == cfg.backoff_initial_ms,
        attempt < 16 && 2 * backoff_base(cfg, attempt) <= cfg.backoff_max_ms ==> backoff_base(
            cfg,
            (attempt + 1) as u32,
        ) == 2 * backoff_base(cfg, attempt),
        attempt < 16 && 2 * backoff_base(cfg, attempt) > cfg.backoff_max_ms ==> backoff_base(
            cfg,
            (attempt + 1) as u32,
        ) == cfg.backoff_max_ms,
        attempt >= 16 ==> backoff_base(cfg, attempt) == backoff_base(cfg, 16),
{
    lemma2_to64();
    assert(cfg.backoff_initial_ms * 1 == cfg.backoff_initial_ms) by (nonlinear_arith);
    if attempt < 16 {
        lemma_pow2_unfold((attempt + 1) as nat);
        let p = pow2(attempt as nat) as int;
        let i = cfg.backoff_initial_ms as int;
        assert(i * (2 * p) == 2 * (i * p)) by (nonlinear_arith);
    }
}

proof fn lemma_factor(nanos: u32)
    ensures
        ({
            let k = (nanos % 400) as int;
            let f = 1000 * variation(nanos);
            (800 + k) * SCALE - 1_300_000 <= f <= (800 + k) * SCALE + 1_300_000
        }),
{
    let k = (nanos % 400) as nat;
    let n = k * SCALE as nat;
    let step = 1000 * float::spacing(n / 1000);
    float::lemma_spacing(n / 1000);
    float::lemma_to_multiple(n, step);
    assert(step <= 1_000_000);
    let sum = EIGHT_TENTHS as nat + thousandths(k);
    float::lemma_spacing(sum);
    let u = float::spacing(sum);
    assert(u == 512 || u == 1024) by {
        lemma_variation(nanos);
        reveal_with_fuel(float::spacing, 12);
    }
    float::lemma_to_multiple(sum, u);
}

/// How a pause varies: between eight and twelve tenths of its base, in steps of a thousandth that
/// the clock's nanoseconds choose. The pause is that share of the base in whole milliseconds, less
/// one at most.
pub proof fn law_backoff_follows_the_clock(cfg: RetryConfig, attempt: u32, nanos: u32)
    requires
        cfg.backoff_max_ms <= 0x100_0000_0000,
    ensures
        ({
            let share = backoff_base(cfg, attempt) * (800 + nanos % 400);
            let pause = backoff_of(cfg, attempt, nanos);
            1000 * pause <= share <= 1000 * (pause + 1)
        }),
{
    let base = backoff_base(cfg, attempt);
    law_backoff_is_banded(cfg, attempt, nanos);
    lemma_factor(nanos);
    lemma_variation(nanos);
    let factor = variation(nanos) as int;
    let k = (nanos % 400) as int;
    assert(float::spacing(base as nat) == 1);
    float::lemma_to_multiple(base as nat, 1);
    assert(float::nearest(base as nat) == base);
    let exact = base * factor;
    let product = float::nearest(exact as nat) as int;
    float::lemma_nearest(exact as nat);
    let m = 800 + k;
    let share = base * m;
    assert(1000 * exact <= share * 0x4000_0000_0000_0000 + base * 1_300_000) by (nonlinear_arith)
        requires
            exact == base * factor,
            share == base * m,
            base >= 0,
            1000 * factor <= m * 0x4000_0000_0000_0000 + 1_300_000,
    ;
    assert(1000 * exact >= share * 0x4000_0000_0000_0000 - base * 1_300_000) by (nonlinear_arith)
        requires
            exact == base * factor,
            share == base * m,
            base >= 0,
            1000 * factor >= m * 0x4000_0000_0000_0000 - 1_300_000,
    ;
    assert(share <= 0x100_0000_0000 * 1200) by (nonlinear_arith)
        requires
            share == base * m,
            0 <= base <= 0x100_0000_0000,
            0 <= m <= 1200,
    ;
    let q = product / SCALE as int;
    assert(q * SCALE <= product < (q + 1) * SCALE);
}

/// A run starts at the first model without anything tried, and is over at once where there is no
/// model.
pub proof fn law_run_starts_at_the_first(max_retries: u32, chain: nat)
    ensures
        ({
            let run = RunView::start(max_retries, chain);
            &&& run.model == 0 && run.attempts == 0 && run.attempt == 0 && run.trail.len() == 0
            &&& run.max_retries == max_retries
            &&& chain > 0 ==> run.phase == Phase::Keys
            &&& chain == 0 ==> run.phase == Phase::Over
            &&& run.last_err == "kein Versuch ausgeführt"@
            &&& run.sound(chain)
        }),
{
}

/// What a run waits for: keys of a model, any number of them; after a request, an answer or none;
/// after a pause, its end. A run that is over waits for nothing.
pub proof fn law_what_a_run_waits_for(run: RunView, e: EventView)
    ensures
        run.phase == Phase::Keys ==> (run.awaits(e) <==> (e matches EventView::Keys(n) && n >= 0)),
        run.phase == Phase::Answer ==> (run.awaits(e) <==> e is Answer || e is Silence),
        run.phase == Phase::Pause ==> (run.awaits(e) <==> e is Paused),
        run.phase == Phase::Over ==> !run.awaits(e),
{
}

} // verus!
