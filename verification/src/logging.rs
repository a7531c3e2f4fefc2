//! The request log and the answer caches.
use vstd::prelude::*;
use vstd::string::*;
use crate::float::Real;
use crate::text;

verus! {

/// What is recorded of one request.
#[derive(Debug)]
pub struct RequestLog {
    pub tool: String,
    pub session: Option<String>,
    pub task_type: String,
    pub model: String,
    pub provider: String,
    pub tier: u8,
    pub used_fallback: bool,
    pub degraded: bool,
    pub budget_pressure: Real,
    pub estimated_tokens: u64,
    pub prompt_tokens: u64,
    pub completion_tokens: u64,
    pub estimated_cost_usd: Real,
    pub real_cost_usd: Real,
    pub latency_ms: u64,
    pub status: u16,
    pub cache_hit: bool,
    pub attempts: u32,
    pub attempt_trail: Option<String>,
    pub stop_reason: Option<String>,
    pub error: Option<String>,
    /// The caller forced the model.
    pub forced: bool,
    /// The project that the caller named.
    pub project: Option<String>,
    /// The request expected tool calls.
    pub tools_expected: bool,
    /// The answer held a tool call.
    pub tool_call_present: bool,
}

/// The model of a log record.
#[verifier::ext_equal]
pub struct LogView {
    pub tool: Seq<char>,
    pub session: Option<Seq<char>>,
    pub task_type: Seq<char>,
    pub model: Seq<char>,
    pub provider: Seq<char>,
    pub tier: u8,
    pub used_fallback: bool,
    pub degraded: bool,
    pub budget_pressure: Real,
    pub estimated_tokens: u64,
    pub prompt_tokens: u64,
    pub completion_tokens: u64,
    pub estimated_cost_usd: Real,
    pub real_cost_usd: Real,
    pub latency_ms: u64,
    pub status: u16,
    pub cache_hit: bool,
    pub attempts: u32,
    pub attempt_trail: Option<Seq<char>>,
    pub stop_reason: Option<Seq<char>>,
    pub error: Option<Seq<char>>,
    pub forced: bool,
    pub project: Option<Seq<char>>,
    pub tools_expected: bool,
    pub tool_call_present: bool,
}

impl LogView {
    /// A record of nothing.
    pub open spec fn blank() -> LogView {
        LogView {
            tool: Seq::empty(),
            session: None,
            task_type: Seq::empty(),
            model: Seq::empty(),
            provider: Seq::empty(),
            tier: 0,
            used_fallback: false,
            degraded: false,
            budget_pressure: Real { bits: 0 },
            estimated_tokens: 0,
            prompt_tokens: 0,
            completion_tokens: 0,
            estimated_cost_usd: Real { bits: 0 },
            real_cost_usd: Real { bits: 0 },
            latency_ms: 0,
            status: 0,
            cache_hit: false,
            attempts: 0,
            attempt_trail: None,
            stop_reason: None,
            error: None,
            forced: false,
            project: None,
            tools_expected: false,
            tool_call_present: false,
        }
    }

    /// Whether the request was answered with a status of success.
    pub open spec fn succeeded(self) -> bool {
        200 <= self.status <= 299
    }

    /// Whether the request ended in an error.
    pub open spec fn failed(self) -> bool {
        self.status >= 400 || self.status == 0
    }

    /// The one word for how the request was routed.
    pub open spec fn label(self) -> Seq<char> {
        route_label(
            self.status as int,
            self.cache_hit,
            self.used_fallback,
            self.degraded,
            self.forced,
        )
    }
}

impl View for RequestLog {
    type V = LogView;

    open spec fn view(&self) -> LogView {
        LogView {
            tool: self.tool@,
            session: text::optional(self.session),
            task_type: self.task_type@,
            model: self.model@,
            provider: self.provider@,
            tier: self.tier,
            used_fallback: self.used_fallback,
            degraded: self.degraded,
            budget_pressure: self.budget_pressure,
            estimated_tokens: self.estimated_tokens,
            prompt_tokens: self.prompt_tokens,
            completion_tokens: self.completion_tokens,
            estimated_cost_usd: self.estimated_cost_usd,
            real_cost_usd: self.real_cost_usd,
            latency_ms: self.latency_ms,
            status: self.status,
            cache_hit: self.cache_hit,
            attempts: self.attempts,
            attempt_trail: text::optional(self.attempt_trail),
            stop_reason: text::optional(self.stop_reason),
            error: text::optional(self.error),
            forced: self.forced,
            project: text::optional(self.project),
            tools_expected: self.tools_expected,
            tool_call_present: self.tool_call_present,
        }
    }
}

impl Default for RequestLog {
    fn default() -> (r: RequestLog)
        ensures
            r@ == LogView::blank(),
    {
        RequestLog {
            tool: String::new(),
            session: None,
            task_type: String::new(),
            model: String::new(),
            provider: String::new(),
            tier: 0,
            used_fallback: false,
            degraded: false,
            budget_pressure: Real::zero(),
            estimated_tokens: 0,
            prompt_tokens: 0,
            completion_tokens: 0,
            estimated_cost_usd: Real::zero(),
            real_cost_usd: Real::zero(),
            latency_ms: 0,
            status: 0,
            cache_hit: false,
            attempts: 0,
            attempt_trail: None,
            stop_reason: None,
            error: None,
            forced: false,
            project: None,
            tools_expected: false,
            tool_call_present: false,
        }
    }
}

impl RequestLog {
    /// An equal record.
    pub fn copy(&self) -> (r: RequestLog)
        ensures
            r@ == self@,
    {
        RequestLog {
            tool: self.tool.clone(),
            session: text::copy_optional(&self.session),
            task_type: self.task_type.clone(),
            model: self.model.clone(),
            provider: self.provider.clone(),
            tier: self.tier,
            used_fallback: self.used_fallback,
            degraded: self.degraded,
            budget_pressure: self.budget_pressure,
            estimated_tokens: self.estimated_tokens,
            prompt_tokens: self.prompt_tokens,
            completion_tokens: self.completion_tokens,
            estimated_cost_usd: self.estimated_cost_usd,
            real_cost_usd: self.real_cost_usd,
            latency_ms: self.latency_ms,
            status: self.status,
            cache_hit: self.cache_hit,
            attempts: self.attempts,
            attempt_trail: text::copy_optional(&self.attempt_trail),
            stop_reason: text::copy_optional(&self.stop_reason),
            error: text::copy_optional(&self.error),
            forced: self.forced,
            project: text::copy_optional(&self.project),
            tools_expected: self.tools_expected,
            tool_call_present: self.tool_call_present,
        }
    }
}

/// The one word for how a request was routed. An error comes before a forced model, that before
/// a cached answer, that before a fallback, and that before a lowered tier.
pub open spec fn route_label(
    status: int,
    cache_hit: bool,
    fallback: bool,
    degraded: bool,
    forced: bool,
) -> Seq<char> {
    if !(200 <= status < 300) {
        "rejected"@
    } else if forced {
        "forced"@
    } else if cache_hit {
        "cached"@
    } else if fallback {
        "fallback"@
    } else if degraded {
        "degraded"@
    } else {
        "allowed"@
    }
}

/// The one word for how a request was routed.
pub fn route_result(
    status: i64,
    cache_hit: bool,
    fallback: bool,
    degraded: bool,
    forced: bool,
) -> (r: &'static str)
    ensures
        r@ == route_label(status as int, cache_hit, fallback, degraded, forced),
{
    if status < 200 || status >= 300 {
        "rejected"
    } else if forced {
        "forced"
    } else if cache_hit {
        "cached"
    } else if fallback {
        "fallback"
    } else if degraded {
        "degraded"
    } else {
        "allowed"
    }
}

/// A record in the log. Times are nanoseconds since the Unix epoch.
#[derive(Debug)]
pub struct LogRow {
    pub at: u128,
    pub log: RequestLog,
    /// The routing label that was recorded; older records have none.
    pub policy_result: Option<String>,
}

/// An answer in the exact-match cache.
#[derive(Debug)]
pub struct CacheRow {
    pub key: String,
    pub model: String,
    pub response: String,
    pub created: u128,
    pub expires: u128,
    pub hits: u64,
}

/// An answer in the semantic cache; the embedding is held as the bits of its coordinates.
#[derive(Debug)]
pub struct SemanticRow {
    pub scope: String,
    pub embedding: Vec<u32>,
    pub response: String,
    pub created: u128,
    pub expires: u128,
    pub hits: u64,
}

/// The request log and the answer caches, oldest entries first.
#[derive(Debug)]
pub struct Store {
    pub rows: Vec<LogRow>,
    pub cache: Vec<CacheRow>,
    pub semantic: Vec<SemanticRow>,
}

/// Nanoseconds in a second.
pub const SECOND: u128 = 1_000_000_000;

/// When an answer stored at `now` for `ttl_seconds` expires.
pub open spec fn expiry(now: u128, ttl_seconds: u64) -> int {
    if now + ttl_seconds * SECOND <= u128::MAX {
        now + ttl_seconds * SECOND
    } else {
        u128::MAX as int
    }
}

/// Whether `after` is `before` with one more record.
pub open spec fn appended(before: Store, after: Store, log: LogView, now: u128) -> bool {
    &&& after.rows@.len() == before.rows@.len() + 1
    &&& forall|i: int| 0 <= i < before.rows@.len() ==> after.rows@[i] == before.rows@[i]
    &&& after.rows@.last().at == now
    &&& after.rows@.last().log@ == log
    &&& text::optional(after.rows@.last().policy_result) == Some(log.label())
    &&& after.cache == before.cache
    &&& after.semantic == before.semantic
}

/// Whether `after` is `before` after a lookup in the cache: only the hit is counted.
pub open spec fn looked_up(before: Store, after: Store, key: Seq<char>, now: u128) -> bool {
    &&& after.rows == before.rows
    &&& after.semantic == before.semantic
    &&& match hit_position(before.cache@, key, now) {
        Some(i) => {
            let row = before.cache@[i];
            after.cache@ == before.cache@.update(
                i,
                (CacheRow {
                    hits: (if row.hits < u64::MAX {
                        row.hits + 1
                    } else {
                        row.hits as int
                    }) as u64,
                    ..row
                }),
            )
        },
        None => after.cache@ == before.cache@,
    }
}

/// Whether `after` is `before` with an answer under a key.
pub open spec fn stored(
    before: Store,
    after: Store,
    key: Seq<char>,
    model: Seq<char>,
    response: Seq<char>,
    ttl_seconds: u64,
    now: u128,
) -> bool {
    &&& after.rows == before.rows
    &&& after.semantic == before.semantic
    &&& after.cache@.len() > 0
    &&& after.cache@.drop_last() == before.cache@.filter(other_key(key))
    &&& ({
        let row = after.cache@.last();
        &&& row.key@ == key
        &&& row.model@ == model
        &&& row.response@ == response
        &&& row.created == now
        &&& row.expires == expiry(now, ttl_seconds)
        &&& row.hits == 0
    })
}

/// Whether `after` is `before` with an answer and its embedding under a scope.
pub open spec fn semantically_stored(
    before: Store,
    after: Store,
    scope: Seq<char>,
    embedding: Seq<u32>,
    response: Seq<char>,
    ttl_seconds: u64,
    now: u128,
) -> bool {
    &&& after.rows == before.rows
    &&& after.cache == before.cache
    &&& after.semantic@.len() > 0
    &&& after.semantic@.drop_last() == before.semantic@
    &&& ({
        let row = after.semantic@.last();
        &&& row.scope@ == scope
        &&& row.embedding@ == embedding
        &&& row.response@ == response
        &&& row.created == now
        &&& row.expires == expiry(now, ttl_seconds)
        &&& row.hits == 0
    })
}

/// The models of the log's records.
pub open spec fn logs_of(rows: Seq<LogRow>) -> Seq<LogView> {
    Seq::new(rows.len(), |i: int| rows[i].log@)
}

/// The rows whose key is another one.
pub open spec fn other_key(key: Seq<char>) -> spec_fn(CacheRow) -> bool {
    |row: CacheRow| row.key@ != key
}

/// The cached answers that have not expired at `now`.
pub open spec fn fresh(now: u128) -> spec_fn(CacheRow) -> bool {
    |row: CacheRow| row.expires > now
}

/// The semantically cached answers that have not expired at `now`.
pub open spec fn fresh_semantic(now: u128) -> spec_fn(SemanticRow) -> bool {
    |row: SemanticRow| row.expires > now
}

/// The position of the first row with a key that has not expired.
pub open spec fn hit_position(rows: Seq<CacheRow>, key: Seq<char>, now: u128) -> Option<int>
    decreases rows.len(),
{
    if rows.len() == 0 {
        None
    } else {
        match hit_position(rows.drop_last(), key, now) {
            Some(i) => Some(i),
            None => if rows.last().key@ == key && rows.last().expires > now {
                Some(rows.len() - 1)
            } else {
                None
            },
        }
    }
}

/// The answer that the cache gives for a key at `now`.
pub open spec fn cached_answer(rows: Seq<CacheRow>, key: Seq<char>, now: u128) -> Option<Seq<char>> {
    match hit_position(rows, key, now) {
        Some(i) => Some(rows[i].response@),
        None => None,
    }
}

/// The position of the oldest row, the first of several equally old ones.
pub open spec fn oldest(rows: Seq<CacheRow>) -> int
    recommends
        rows.len() > 0,
    decreases rows.len(),
{
    if rows.len() <= 1 {
        0
    } else {
        let before = oldest(rows.drop_last());
        if rows.last().created < rows[before].created {
            rows.len() - 1
        } else {
            before
        }
    }
}

/// The rows that are left when the oldest go until at most `max` are left.
pub open spec fn newest(rows: Seq<CacheRow>, max: nat) -> Seq<CacheRow>
    decreases rows.len(),
{
    if rows.len() <= max {
        rows
    } else if 0 <= oldest(rows) < rows.len() {
        newest(rows.remove(oldest(rows)), max)
    } else {
        rows
    }
}

/// The row of a scope that is most similar to the query among the first `n`, as their
/// similarities say; the first of several equally similar ones.
pub open spec fn most_similar(
    rows: Seq<SemanticRow>,
    similarities: Seq<Real>,
    scope: Seq<char>,
    now: u128,
    n: nat,
) -> Option<int>
    decreases n,
{
    if n == 0 {
        None
    } else {
        let before = most_similar(rows, similarities, scope, now, (n - 1) as nat);
        let row = rows[n - 1];
        if row.scope@ == scope && row.expires > now && (match before {
            Some(b) => similarities[b].lt(similarities[n - 1]),
            None => true,
        }) {
            Some(n - 1)
        } else {
            before
        }
    }
}

/// The position of the row that answers a query by similarity.
pub open spec fn semantic_hit(
    rows: Seq<SemanticRow>,
    similarities: Seq<Real>,
    scope: Seq<char>,
    threshold: Real,
    now: u128,
) -> Option<int> {
    match most_similar(rows, similarities, scope, now, rows.len()) {
        Some(i) => if threshold.le(similarities[i]) {
            Some(i)
        } else {
            None
        },
        None => None,
    }
}

impl Store {
    /// The models of the log's records, oldest first.
    pub open spec fn logs(self) -> Seq<LogView> {
        logs_of(self.rows@)
    }

    /// An empty log with empty caches.
    pub fn new() -> (r: Store)
        ensures
            r.rows@.len() == 0,
            r.cache@.len() == 0,
            r.semantic@.len() == 0,
    {
        Store { rows: Vec::new(), cache: Vec::new(), semantic: Vec::new() }
    }

    /// Appends a record, together with its routing label.
    pub fn insert(&mut self, log: RequestLog, now: u128)
        ensures
            appended(*old(self), *final(self), log@, now),
    {
        let label = route_result(
            log.status as i64,
            log.cache_hit,
            log.used_fallback,
            log.degraded,
            log.forced,
        );
        self.rows.push(LogRow { at: now, log, policy_result: Some(label.to_owned()) });
    }

    /// The last record: status, prompt and completion tokens, real cost, and whether the answer
    /// came from the cache.
    pub fn last_request(&self) -> (r: Option<(u16, u64, u64, Real, bool)>)
        ensures
            r == (if self.rows@.len() == 0 {
                None
            } else {
                let log = self.rows@.last().log;
                Some(
                    (
                        log.status,
                        log.prompt_tokens,
                        log.completion_tokens,
                        log.real_cost_usd,
                        log.cache_hit,
                    ),
                )
            }),
    {
        if self.rows.len() == 0 {
            return None;
        }
        let log = &self.rows[self.rows.len() - 1].log;
        Some(
            (
                log.status,
                log.prompt_tokens,
                log.completion_tokens,
                log.real_cost_usd,
                log.cache_hit,
            ),
        )
    }

    /// The cached answer for `key` that has not expired at `now`; counts the hit.
    pub fn cache_lookup(&mut self, key: &str, now: u128) -> (r: Option<String>)
        ensures
            match r {
                Some(s) => cached_answer(old(self).cache@, key@, now) == Some(s@),
                None => cached_answer(old(self).cache@, key@, now) is None,
            },
            looked_up(*old(self), *final(self), key@, now),
    {
        let ghost rows = self.cache@;
        let mut i: usize = 0;
        assert(hit_position(rows.subrange(0, 0), key@, now) is None);
        while i < self.cache.len()
            invariant
                i <= self.cache@.len(),
                *self == *old(self),
                rows == self.cache@,
                hit_position(rows.subrange(0, i as int), key@, now) is None,
            decreases self.cache.len() - i,
        {
            assert(rows.subrange(0, i + 1).drop_last() =~= rows.subrange(0, i as int));
            assert(rows.subrange(0, i + 1).last() == rows[i as int]);
            if self.cache[i].expires > now && text::same(self.cache[i].key.as_str(), key) {
                proof {
                    lemma_hit_prefix(rows, i + 1, key@, now);
                }
                let response = self.cache[i].response.clone();
                let hits: u64 = if self.cache[i].hits < u64::MAX {
                    self.cache[i].hits + 1
                } else {
                    self.cache[i].hits
                };
                let row = CacheRow {
                    key: self.cache[i].key.clone(),
                    model: self.cache[i].model.clone(),
                    response: self.cache[i].response.clone(),
                    created: self.cache[i].created,
                    expires: self.cache[i].expires,
                    hits,
                };
                self.cache.set(i, row);
                return Some(response);
            }
            i += 1;
        }
        assert(rows.subrange(0, i as int) =~= rows);
        None
    }

    /// Keeps an answer under `key` for `ttl_seconds`, in place of one that it held there.
    pub fn cache_store(
        &mut self,
        key: &str,
        model: &str,
        response: &str,
        ttl_seconds: u64,
        now: u128,
    )
        ensures
            stored(*old(self), *final(self), key@, model@, response@, ttl_seconds, now),
    {
        let ghost rows = self.cache@;
        let ghost keep = other_key(key@);
        let mut i: usize = 0;
        let ghost mut seen: int = 0;
        proof {
            reveal(Seq::filter);
            assert(rows.subrange(0, 0).filter(keep) =~= Seq::empty());
            assert(self.cache@ =~= rows.subrange(0, 0).filter(keep) + rows.subrange(
                0,
                rows.len() as int,
            ));
        }
        while i < self.cache.len()
            invariant
                i <= self.cache@.len(),
                0 <= seen <= rows.len(),
                keep == other_key(key@),
                i == rows.subrange(0, seen).filter(keep).len(),
                self.cache@ == rows.subrange(0, seen).filter(keep) + rows.subrange(
                    seen,
                    rows.len() as int,
                ),
                self.rows == old(self).rows,
                self.semantic == old(self).semantic,
            decreases self.cache.len() - i,
        {
            let ghost done = rows.subrange(0, seen).filter(keep);
            assert(seen < rows.len());
            assert(self.cache@[i as int] == rows[seen]);
            proof {
                reveal(Seq::filter);
                let more = rows.subrange(0, seen + 1);
                assert(more.drop_last() =~= rows.subrange(0, seen));
                assert(more.last() == rows[seen]);
            }
            if text::same(self.cache[i].key.as_str(), key) {
                self.cache.remove(i);
                assert(self.cache@ =~= rows.subrange(0, seen + 1).filter(keep) + rows.subrange(
                    seen + 1,
                    rows.len() as int,
                ));
            } else {
                i += 1;
                assert(self.cache@ =~= rows.subrange(0, seen + 1).filter(keep) + rows.subrange(
                    seen + 1,
                    rows.len() as int,
                ));
            }
            proof {
                seen = seen + 1;
            }
        }
        assert(seen == rows.len());
        assert(rows.subrange(0, seen) =~= rows);
        assert(self.cache@ =~= rows.filter(keep));
        let expires: u128 = now.saturating_add((ttl_seconds as u128) * SECOND);
        self.cache.push(
            CacheRow {
                key: key.to_owned(),
                model: model.to_owned(),
                response: response.to_owned(),
                created: now,
                expires,
                hits: 0,
            },
        );
        assert(self.cache@.drop_last() =~= rows.filter(keep));
    }

    /// Keeps an answer with its embedding under a scope for `ttl_seconds`.
    pub fn semantic_cache_store(
        &mut self,
        scope: &str,
        embedding: Vec<u32>,
        response: &str,
        ttl_seconds: u64,
        now: u128,
    )
        ensures
            semantically_stored(
                *old(self),
                *final(self),
                scope@,
                embedding@,
                response@,
                ttl_seconds,
                now,
            ),
    {
        let expires: u128 = now.saturating_add((ttl_seconds as u128) * SECOND);
        self.semantic.push(
            SemanticRow {
                scope: scope.to_owned(),
                embedding,
                response: response.to_owned(),
                created: now,
                expires,
                hits: 0,
            },
        );
        assert(self.semantic@.drop_last() =~= old(self).semantic@);
    }

    /// The answer of the unexpired entry of `scope` that is most similar to a query, where its
    /// similarity reaches `threshold`; counts the hit. `similarities` holds the similarity of
    /// each entry to the query.
    pub fn semantic_cache_lookup(
        &mut self,
        scope: &str,
        similarities: &Vec<Real>,
        threshold: Real,
        now: u128,
    ) -> (r: Option<String>)
        requires
            similarities@.len() == old(self).semantic@.len(),
        ensures
            final(self).rows == old(self).rows,
            final(self).cache == old(self).cache,
            match semantic_hit(old(self).semantic@, similarities@, scope@, threshold, now) {
                Some(i) => {
                    let row = old(self).semantic@[i];
                    let after = final(self).semantic@[i];
                    &&& r matches Some(s) && s@ == row.response@
                    &&& final(self).semantic@.len() == old(self).semantic@.len()
                    &&& forall|j: int|
                        0 <= j < old(self).semantic@.len() && j != i ==> final(self).semantic@[j]
                            == old(self).semantic@[j]
                    &&& after.scope == row.scope
                    &&& after.embedding@ == row.embedding@
                    &&& after.response == row.response
                    &&& after.created == row.created
                    &&& after.expires == row.expires
                    &&& after.hits == if row.hits < u64::MAX {
                        row.hits + 1
                    } else {
                        row.hits as int
                    }
                },
                None => r is None && final(self).semantic@ == old(self).semantic@,
            },
    {
        let ghost rows = self.semantic@;
        let mut best: Option<usize> = None;
        let mut i: usize = 0;
        while i < self.semantic.len()
            invariant
                i <= self.semantic@.len(),
                rows == self.semantic@,
                *self == *old(self),
                similarities@.len() == rows.len(),
                match best {
                    Some(b) => b < i && most_similar(rows, similarities@, scope@, now, i as nat)
                        == Some(b as int),
                    None => most_similar(rows, similarities@, scope@, now, i as nat) is None,
                },
            decreases self.semantic.len() - i,
        {
            if self.semantic[i].expires > now && text::same(
                self.semantic[i].scope.as_str(),
                scope,
            ) {
                match best {
                    Some(b) => {
                        if similarities[b].below(similarities[i]) {
                            best = Some(i);
                        }
                    },
                    None => {
                        best = Some(i);
                    },
                }
            }
            i += 1;
        }
        match best {
            Some(b) => {
                if threshold.at_most(similarities[b]) {
                    let response = self.semantic[b].response.clone();
                    let hits: u64 = if self.semantic[b].hits < u64::MAX {
                        self.semantic[b].hits + 1
                    } else {
                        self.semantic[b].hits
                    };
                    let row = SemanticRow {
                        scope: self.semantic[b].scope.clone(),
                        embedding: copy_bits(&self.semantic[b].embedding),
                        response: self.semantic[b].response.clone(),
                        created: self.semantic[b].created,
                        expires: self.semantic[b].expires,
                        hits,
                    };
                    self.semantic.set(b, row);
                    Some(response)
                } else {
                    None
                }
            },
            None => None,
        }
    }

    /// Drops what has expired at `now` from both caches, and says how many entries went.
    pub fn evict_expired_cache(&mut self, now: u128) -> (r: usize)
        requires
            old(self).cache@.len() + old(self).semantic@.len() <= usize::MAX,
        ensures
            final(self).rows == old(self).rows,
            final(self).cache@ == old(self).cache@.filter(fresh(now)),
            final(self).semantic@ == old(self).semantic@.filter(fresh_semantic(now)),
            r == (old(self).cache@.len() - final(self).cache@.len()) + (old(self).semantic@.len()
                - final(self).semantic@.len()),
    {
        let exact: usize = self.evict_exact(now);
        let semantic: usize = self.evict_semantic(now);
        exact + semantic
    }

    fn evict_exact(&mut self, now: u128) -> (r: usize)
        ensures
            final(self).rows == old(self).rows,
            final(self).semantic == old(self).semantic,
            final(self).cache@ == old(self).cache@.filter(fresh(now)),
            r == old(self).cache@.len() - final(self).cache@.len(),
    {
        let ghost rows = self.cache@;
        let ghost keep = fresh(now);
        let before: usize = self.cache.len();
        let mut i: usize = 0;
        let ghost mut seen: int = 0;
        proof {
            reveal(Seq::filter);
            assert(rows.subrange(0, 0).filter(keep) =~= Seq::empty());
            assert(self.cache@ =~= rows.subrange(0, 0).filter(keep) + rows.subrange(
                0,
                rows.len() as int,
            ));
        }
        while i < self.cache.len()
            invariant
                i <= self.cache@.len(),
                0 <= seen <= rows.len(),
                keep == fresh(now),
                i == rows.subrange(0, seen).filter(keep).len(),
                self.cache@ == rows.subrange(0, seen).filter(keep) + rows.subrange(
                    seen,
                    rows.len() as int,
                ),
                self.rows == old(self).rows,
                self.semantic == old(self).semantic,
            decreases self.cache.len() - i,
        {
            assert(seen < rows.len());
            assert(self.cache@[i as int] == rows[seen]);
            proof {
                reveal(Seq::filter);
                let more = rows.subrange(0, seen + 1);
                assert(more.drop_last() =~= rows.subrange(0, seen));
                assert(more.last() == rows[seen]);
            }
            if self.cache[i].expires > now {
                i += 1;
            } else {
                self.cache.remove(i);
            }
            assert(self.cache@ =~= rows.subrange(0, seen + 1).filter(keep) + rows.subrange(
                seen + 1,
                rows.len() as int,
            ));
            proof {
                seen = seen + 1;
            }
        }
        assert(seen == rows.len());
        assert(rows.subrange(0, seen) =~= rows);
        assert(self.cache@ =~= rows.filter(keep));
        proof {
            rows.lemma_filter_len(keep);
        }
        before - self.cache.len()
    }

    fn evict_semantic(&mut self, now: u128) -> (r: usize)
        ensures
            final(self).rows == old(self).rows,
            final(self).cache == old(self).cache,
            final(self).semantic@ == old(self).semantic@.filter(fresh_semantic(now)),
            r == old(self).semantic@.len() - final(self).semantic@.len(),
    {
        let ghost rows = self.semantic@;
        let ghost keep = fresh_semantic(now);
        let before: usize = self.semantic.len();
        let mut i: usize = 0;
        let ghost mut seen: int = 0;
        proof {
            reveal(Seq::filter);
            assert(rows.subrange(0, 0).filter(keep) =~= Seq::empty());
            assert(self.semantic@ =~= rows.subrange(0, 0).filter(keep) + rows.subrange(
                0,
                rows.len() as int,
            ));
        }
        while i < self.semantic.len()
            invariant
                i <= self.semantic@.len(),
                0 <= seen <= rows.len(),
                keep == fresh_semantic(now),
                i == rows.subrange(0, seen).filter(keep).len(),
                self.semantic@ == rows.subrange(0, seen).filter(keep) + rows.subrange(
                    seen,
                    rows.len() as int,
                ),
                self.rows == old(self).rows,
                self.cache == old(self).cache,
            decreases self.semantic.len() - i,
        {
            assert(seen < rows.len());
            assert(self.semantic@[i as int] == rows[seen]);
            proof {
                reveal(Seq::filter);
                let more = rows.subrange(0, seen + 1);
                assert(more.drop_last() =~= rows.subrange(0, seen));
                assert(more.last() == rows[seen]);
            }
            if self.semantic[i].expires > now {
                i += 1;
            } else {
                self.semantic.remove(i);
            }
            assert(self.semantic@ =~= rows.subrange(0, seen + 1).filter(keep) + rows.subrange(
                seen + 1,
                rows.len() as int,
            ));
            proof {
                seen = seen + 1;
            }
        }
        assert(seen == rows.len());
        assert(rows.subrange(0, seen) =~= rows);
        assert(self.semantic@ =~= rows.filter(keep));
        proof {
            rows.lemma_filter_len(keep);
        }
        before - self.semantic.len()
    }

    /// Drops the oldest cached answers until at most `max` are left, and says how many went.
    pub fn enforce_cache_cap(&mut self, max: usize) -> (r: usize)
        ensures
            final(self).rows == old(self).rows,
            final(self).semantic == old(self).semantic,
            final(self).cache@ == newest(old(self).cache@, max as nat),
            r == old(self).cache@.len() - final(self).cache@.len(),
    {
        let before: usize = self.cache.len();
        let mut removed: usize = 0;
        while self.cache.len() > max
            invariant
                self.rows == old(self).rows,
                self.semantic == old(self).semantic,
                removed + self.cache@.len() == before,
                newest(self.cache@, max as nat) == newest(old(self).cache@, max as nat),
            decreases self.cache.len(),
        {
            let mut best: usize = 0;
            let mut i: usize = 1;
            let ghost rows = self.cache@;
            assert(oldest(rows.subrange(0, 1)) == 0);
            while i < self.cache.len()
                invariant
                    1 <= i <= self.cache@.len(),
                    best < i,
                    rows == self.cache@,
                    best == oldest(rows.subrange(0, i as int)),
                decreases self.cache.len() - i,
            {
                let ghost more = rows.subrange(0, i + 1);
                assert(more.drop_last() =~= rows.subrange(0, i as int));
                assert(more.last() == rows[i as int]);
                assert(more[best as int] == rows[best as int]);
                if self.cache[i].created < self.cache[best].created {
                    best = i;
                }
                i += 1;
            }
            assert(rows.subrange(0, i as int) =~= rows);
            self.cache.remove(best);
            removed += 1;
        }
        removed
    }
}

/// A hit among the first rows is a hit among all.
proof fn lemma_hit_prefix(rows: Seq<CacheRow>, n: int, key: Seq<char>, now: u128)
    requires
        0 <= n <= rows.len(),
        hit_position(rows.subrange(0, n), key, now) is Some,
    ensures
        hit_position(rows, key, now) == hit_position(rows.subrange(0, n), key, now),
    decreases rows.len() - n,
{
    if n == rows.len() {
        assert(rows.subrange(0, n) =~= rows);
    } else {
        let more = rows.subrange(0, n + 1);
        assert(more.drop_last() =~= rows.subrange(0, n));
        lemma_hit_prefix(rows, n + 1, key, now);
    }
}

/// What one more row at the end changes about the answers.
proof fn lemma_answer_push(rows: Seq<CacheRow>, row: CacheRow, key: Seq<char>, now: u128)
    ensures
        cached_answer(rows.push(row), key, now) == match cached_answer(rows, key, now) {
            Some(a) => Some(a),
            None => if row.key@ == key && row.expires > now {
                Some(row.response@)
            } else {
                None
            },
        },
{
    let more = rows.push(row);
    assert(more.drop_last() =~= rows);
    lemma_hit_in_range(rows, key, now);
}

proof fn lemma_hit_in_range(rows: Seq<CacheRow>, key: Seq<char>, now: u128)
    ensures
        hit_position(rows, key, now) matches Some(i) ==> 0 <= i < rows.len() && rows[i].key@ == key
            && rows[i].expires > now,
    decreases rows.len(),
{
    if rows.len() > 0 {
        lemma_hit_in_range(rows.drop_last(), key, now);
    }
}

/// Rows of other keys do not answer a key.
proof fn lemma_no_answer(rows: Seq<CacheRow>, key: Seq<char>, now: u128)
    ensures
        cached_answer(rows.filter(other_key(key)), key, now) is None,
    decreases rows.len(),
{
    reveal(Seq::filter);
    if rows.len() > 0 {
        let kept = rows.drop_last().filter(other_key(key));
        lemma_no_answer(rows.drop_last(), key, now);
        lemma_answer_push(kept, rows.last(), key, now);
    }
}

/// Dropping the rows of one key leaves the answers of every other key.
proof fn lemma_other_answers(rows: Seq<CacheRow>, key: Seq<char>, other: Seq<char>, now: u128)
    requires
        other != key,
    ensures
        cached_answer(rows.filter(other_key(key)), other, now) == cached_answer(rows, other, now),
    decreases rows.len(),
{
    reveal(Seq::filter);
    if rows.len() > 0 {
        let rest = rows.drop_last();
        lemma_other_answers(rest, key, other, now);
        assert(rest.push(rows.last()) =~= rows);
        lemma_answer_push(rest, rows.last(), other, now);
        lemma_answer_push(rest.filter(other_key(key)), rows.last(), other, now);
    }
}

/// What was stored under a key is what a lookup gives until it expires, and from then on the
/// lookup gives nothing; the answers of all other keys stay as they were.
pub proof fn law_read_after_store(
    before: Store,
    after: Store,
    key: Seq<char>,
    model: Seq<char>,
    response: Seq<char>,
    ttl_seconds: u64,
    now: u128,
    other: Seq<char>,
    later: u128,
)
    requires
        stored(before, after, key, model, response, ttl_seconds, now),
    ensures
        cached_answer(after.cache@, key, later) == if later < expiry(now, ttl_seconds) {
            Some(response)
        } else {
            None
        },
        other != key ==> cached_answer(after.cache@, other, later) == cached_answer(
            before.cache@,
            other,
            later,
        ),
{
    let kept = before.cache@.filter(other_key(key));
    let row = after.cache@.last();
    assert(kept.push(row) =~= after.cache@);
    lemma_no_answer(before.cache@, key, later);
    lemma_answer_push(kept, row, key, later);
    if other != key {
        lemma_other_answers(before.cache@, key, other, later);
        lemma_answer_push(kept, row, other, later);
    }
}

/// Evicting what has expired changes no answer, then or later.
pub proof fn law_eviction_changes_no_answer(
    rows: Seq<CacheRow>,
    key: Seq<char>,
    now: u128,
    later: u128,
)
    requires
        now <= later,
    ensures
        cached_answer(rows.filter(fresh(now)), key, later) == cached_answer(rows, key, later),
    decreases rows.len(),
{
    reveal(Seq::filter);
    if rows.len() > 0 {
        let rest = rows.drop_last();
        law_eviction_changes_no_answer(rest, key, now, later);
        assert(rest.push(rows.last()) =~= rows);
        lemma_answer_push(rest, rows.last(), key, later);
        lemma_answer_push(rest.filter(fresh(now)), rows.last(), key, later);
    }
}

proof fn lemma_oldest(rows: Seq<CacheRow>)
    requires
        rows.len() > 0,
    ensures
        0 <= oldest(rows) < rows.len(),
        forall|i: int|
            0 <= i < rows.len() ==> rows[oldest(rows)].created <= (#[trigger] rows[i]).created,
    decreases rows.len(),
{
    if rows.len() > 1 {
        let rest = rows.drop_last();
        lemma_oldest(rest);
        assert forall|i: int| 0 <= i < rows.len() implies rows[oldest(rows)].created <= (
        #[trigger] rows[i]).created by {
            if i < rest.len() {
                assert(rest[i] == rows[i]);
            }
        }
    }
}

/// The cap leaves as many rows as it allows, all of them rows that were there, and no row that
/// went is newer than one that stayed.
pub proof fn law_cap_keeps_the_newest(rows: Seq<CacheRow>, max: nat)
    ensures
        newest(rows, max).len() == if rows.len() <= max {
            rows.len()
        } else {
            max
        },
        forall|kept: CacheRow|
            newest(rows, max).contains(kept) ==> #[trigger] rows.contains(kept),
        forall|kept: CacheRow, gone: CacheRow|
            #![trigger newest(rows, max).contains(kept), rows.contains(gone)]
            newest(rows, max).contains(kept) && rows.contains(gone) && !newest(rows, max).contains(
                gone,
            ) ==> gone.created <= kept.created,
    decreases rows.len(),
{
    if rows.len() > max {
        lemma_oldest(rows);
        let o = oldest(rows);
        let rest = rows.remove(o);
        law_cap_keeps_the_newest(rest, max);
        let out = newest(rows, max);
        assert(out == newest(rest, max));
        assert forall|kept: CacheRow| out.contains(kept) implies #[trigger] rows.contains(
            kept,
        ) by {
            assert(rest.contains(kept));
            let i = choose|i: int| 0 <= i < rest.len() && rest[i] == kept;
            if i < o {
                assert(rows[i] == kept);
            } else {
                assert(rows[i + 1] == kept);
            }
        }
        assert forall|kept: CacheRow, gone: CacheRow|
            #![trigger newest(rows, max).contains(kept), rows.contains(gone)]
            out.contains(kept) && rows.contains(gone) && !out.contains(
                gone,
            ) implies gone.created <= kept.created by {
            assert(rest.contains(kept));
            assert(rows.contains(kept));
            let i = choose|i: int| 0 <= i < rows.len() && rows[i] == kept;
            let g = choose|g: int| 0 <= g < rows.len() && rows[g] == gone;
            if g == o {
                assert(rows[o].created <= rows[i].created);
            } else {
                if g < o {
                    assert(rest[g] == gone);
                } else {
                    assert(rest[g - 1] == gone);
                }
                assert(rest.contains(gone));
            }
        }
    }
}

/// Whether a row can answer a query of a scope at `now`.
pub open spec fn eligible(row: SemanticRow, scope: Seq<char>, now: u128) -> bool {
    row.scope@ == scope && row.expires > now
}

proof fn lemma_most_similar(
    rows: Seq<SemanticRow>,
    similarities: Seq<Real>,
    scope: Seq<char>,
    now: u128,
    n: nat,
)
    requires
        n <= rows.len(),
        similarities.len() == rows.len(),
        forall|j: int| 0 <= j < n ==> !(#[trigger] similarities[j]).is_nan(),
    ensures
        match most_similar(rows, similarities, scope, now, n) {
            Some(i) => 0 <= i < n && eligible(rows[i], scope, now) && forall|j: int|
                0 <= j < n && eligible(#[trigger] rows[j], scope, now) ==> similarities[j].le(
                    similarities[i],
                ),
            None => forall|j: int| 0 <= j < n ==> !eligible(#[trigger] rows[j], scope, now),
        },
    decreases n,
{
    if n > 0 {
        lemma_most_similar(rows, similarities, scope, now, (n - 1) as nat);
        assert(!similarities[n - 1].is_nan());
    }
}

/// A lookup by similarity gives an unexpired entry of the scope that reaches the threshold, and
/// none of the scope is more similar; it gives nothing only where no such entry reaches the
/// threshold. The similarities have to be numbers.
pub proof fn law_semantic_hit_is_the_best(
    rows: Seq<SemanticRow>,
    similarities: Seq<Real>,
    scope: Seq<char>,
    threshold: Real,
    now: u128,
)
    requires
        similarities.len() == rows.len(),
        forall|j: int| 0 <= j < rows.len() ==> !(#[trigger] similarities[j]).is_nan(),
    ensures
        match semantic_hit(rows, similarities, scope, threshold, now) {
            Some(i) => {
                &&& 0 <= i < rows.len()
                &&& eligible(rows[i], scope, now)
                &&& threshold.le(similarities[i])
                &&& forall|j: int|
                    0 <= j < rows.len() && eligible(#[trigger] rows[j], scope, now)
                        ==> similarities[j].le(similarities[i])
            },
            None => forall|j: int|
                0 <= j < rows.len() && eligible(#[trigger] rows[j], scope, now) ==> !threshold.le(
                    similarities[j],
                ),
        },
{
    lemma_most_similar(rows, similarities, scope, now, rows.len());
}

/// A copy of the bits of an embedding.
pub fn copy_bits(bits: &Vec<u32>) -> (r: Vec<u32>)
    ensures
        r@ == bits@,
{
    let mut r: Vec<u32> = Vec::new();
    let mut i: usize = 0;
    while i < bits.len()
        invariant
            i <= bits@.len(),
            r@ == bits@.subrange(0, i as int),
        decreases bits.len() - i,
    {
        r.push(bits[i]);
        i += 1;
    }
    assert(bits@.subrange(0, i as int) =~= bits@);
    r
}

/// The word for how a request was routed: any status outside 200 to 299 is a rejection; of the
/// others a forced model comes before a cached answer, that before a fallback, and that before a
/// lowered tier.
pub proof fn law_labels(v: LogView)
    ensures
        v.status < 200 || v.status > 299 ==> v.label() == "rejected"@,
        200 <= v.status <= 299 && v.forced ==> v.label() == "forced"@,
        200 <= v.status <= 299 && !v.forced && v.cache_hit ==> v.label() == "cached"@,
        200 <= v.status <= 299 && !v.forced && !v.cache_hit && v.used_fallback ==> v.label()
            == "fallback"@,
        200 <= v.status <= 299 && !v.forced && !v.cache_hit && !v.used_fallback && v.degraded
            ==> v.label() == "degraded"@,
        200 <= v.status <= 299 && !v.forced && !v.cache_hit && !v.used_fallback && !v.degraded
            ==> v.label() == "allowed"@,
{
}

/// An answer lives as many seconds as it is kept for, counted in nanoseconds from when it was
/// stored, and for ever where that is beyond what can be counted.
pub proof fn law_expiry(now: u128, ttl_seconds: u64)
    ensures
        now + ttl_seconds * 1_000_000_000 <= u128::MAX ==> expiry(now, ttl_seconds) == now
            + ttl_seconds * 1_000_000_000,
        now + ttl_seconds * 1_000_000_000 > u128::MAX ==> expiry(now, ttl_seconds) == u128::MAX,
        now <= expiry(now, ttl_seconds) <= u128::MAX,
{
}

proof fn lemma_hit_is_first(rows: Seq<CacheRow>, key: Seq<char>, now: u128)
    ensures
        match hit_position(rows, key, now) {
            Some(i) => 0 <= i < rows.len() && rows[i].key@ == key && rows[i].expires > now
                && forall|j: int|
                0 <= j < i ==> (#[trigger] rows[j]).key@ != key || rows[j].expires <= now,
            None => forall|j: int|
                0 <= j < rows.len() ==> (#[trigger] rows[j]).key@ != key || rows[j].expires <= now,
        },
    decreases rows.len(),
{
    if rows.len() > 0 {
        let rest = rows.drop_last();
        lemma_hit_is_first(rest, key, now);
        assert forall|j: int| 0 <= j < rest.len() implies rest[j] == #[trigger] rows[j] by {}
    }
}

/// The cache answers a key with what the first entry holds that has this key and is not expired;
/// it has no answer only where every entry has another key or is expired.
pub proof fn law_cache_answers(rows: Seq<CacheRow>, key: Seq<char>, now: u128)
    ensures
        match cached_answer(rows, key, now) {
            Some(answer) => exists|i: int|
                0 <= i < rows.len() && (#[trigger] rows[i]).key@ == key && now < rows[i].expires
                    && rows[i].response@ == answer && forall|j: int|
                    0 <= j < i ==> (#[trigger] rows[j]).key@ != key || rows[j].expires <= now,
            None => forall|i: int|
                0 <= i < rows.len() ==> (#[trigger] rows[i]).key@ != key || rows[i].expires <= now,
        },
{
    lemma_hit_is_first(rows, key, now);
    if hit_position(rows, key, now) is Some {
        let i = hit_position(rows, key, now)->Some_0;
        assert(rows[i].key@ == key);
    }
}

/// A lookup changes nothing but the count of the entry that answers, which goes up by one.
pub proof fn law_lookup_only_counts(
    before: Store,
    after: Store,
    key: Seq<char>,
    now: u128,
    i: int,
)
    requires
        looked_up(before, after, key, now),
        0 <= i < before.cache@.len(),
    ensures
        after.rows == before.rows,
        after.semantic == before.semantic,
        after.cache@.len() == before.cache@.len(),
        ({
            let was = before.cache@[i];
            let row = after.cache@[i];
            let first = was.key@ == key && now < was.expires && forall|j: int|
                0 <= j < i ==> (#[trigger] before.cache@[j]).key@ != key || before.cache@[j].expires
                    <= now;
            &&& row.key == was.key && row.model == was.model && row.response == was.response
            &&& row.created == was.created && row.expires == was.expires
            &&& !first ==> row.hits == was.hits
            &&& first && was.hits < u64::MAX ==> row.hits == was.hits + 1
        }),
{
    lemma_hit_is_first(before.cache@, key, now);
    let hit = hit_position(before.cache@, key, now);
    if hit is Some && hit->Some_0 != i {
        let h = hit->Some_0;
        assert(before.cache@[h].key@ == key);
        assert(before.cache@[i].key@ != key || before.cache@[i].expires <= now || h < i);
    }
}

proof fn lemma_kept_was_there(rows: Seq<CacheRow>, f: spec_fn(CacheRow) -> bool, k: int)
    requires
        0 <= k < rows.filter(f).len(),
    ensures
        rows.contains(rows.filter(f)[k]),
    decreases rows.len(),
{
    reveal(Seq::filter);
    let rest = rows.drop_last();
    if k < rest.filter(f).len() {
        lemma_kept_was_there(rest, f, k);
        let i = choose|i: int| 0 <= i < rest.len() && rest[i] == rest.filter(f)[k];
        assert(rows[i] == rows.filter(f)[k]);
    } else {
        assert(rows[rows.len() - 1] == rows.filter(f)[k]);
    }
}

/// Storing an answer adds one entry, with this key, model and answer, made now and not used yet;
/// it takes the place of what was stored under the key, and every other entry stays.
pub proof fn law_storing_replaces(
    before: Store,
    after: Store,
    key: Seq<char>,
    model: Seq<char>,
    response: Seq<char>,
    ttl_seconds: u64,
    now: u128,
    row: CacheRow,
)
    requires
        stored(before, after, key, model, response, ttl_seconds, now),
    ensures
        after.cache@.last().key@ == key,
        after.cache@.last().model@ == model,
        after.cache@.last().response@ == response,
        after.cache@.last().created == now,
        after.cache@.last().hits == 0,
        row.key@ != key ==> (before.cache@.contains(row) <==> after.cache@.contains(row)),
        row.key@ == key && after.cache@.contains(row) ==> row == after.cache@.last(),
{
    broadcast use vstd::seq_lib::group_filter_ensures;

    let kept = before.cache@.filter(other_key(key));
    let last = after.cache@.last();
    assert(after.cache@ =~= kept.push(last));
    if before.cache@.contains(row) && row.key@ != key {
        assert(other_key(key)(row));
        assert(kept.contains(row));
        let k = choose|k: int| 0 <= k < kept.len() && kept[k] == row;
        assert(after.cache@[k] == row);
    }
    if after.cache@.contains(row) && row != last {
        let k = choose|k: int| 0 <= k < after.cache@.len() && after.cache@[k] == row;
        assert(kept[k] == row);
        lemma_kept_was_there(before.cache@, other_key(key), k);
        assert(other_key(key)(row));
    }
}

/// The log only grows: a new record comes behind the others, which stay as they are, with the time,
/// what is recorded and the word for its routing; the caches do not change.
pub proof fn law_log_only_grows(before: Store, after: Store, log: LogView, now: u128, i: int)
    requires
        appended(before, after, log, now),
        0 <= i < before.rows@.len(),
    ensures
        after.rows@.len() == before.rows@.len() + 1,
        after.rows@[i] == before.rows@[i],
        after.rows@.last().at == now,
        after.rows@.last().log@ == log,
        text::optional(after.rows@.last().policy_result) == Some(log.label()),
        after.cache == before.cache,
        after.semantic == before.semantic,
        after.logs() == before.logs().push(log),
{
    assert(after.logs() =~= before.logs().push(log));
}

/// What a record holds before anything is known.
pub proof fn law_blank_record()
    ensures
        ({
            let v = LogView::blank();
            &&& v.tool.len() == 0 && v.task_type.len() == 0 && v.model.len() == 0
            &&& v.provider.len() == 0 && v.session is None && v.project is None
            &&& v.tier == 0 && v.status == 0 && v.attempts == 0 && v.latency_ms == 0
            &&& v.estimated_tokens == 0 && v.prompt_tokens == 0 && v.completion_tokens == 0
            &&& v.estimated_cost_usd.bits == 0 && v.real_cost_usd.bits == 0
            &&& v.budget_pressure.bits == 0
            &&& v.attempt_trail is None && v.stop_reason is None && v.error is None
            &&& !v.used_fallback && !v.degraded && !v.cache_hit && !v.forced
            &&& !v.tools_expected && !v.tool_call_present
        }),
{
}

/// Eviction takes away exactly what has expired: an entry whose time has come or passed goes, and
/// every other one stays.
pub proof fn law_only_the_expired_go(
    rows: Seq<CacheRow>,
    row: CacheRow,
    others: Seq<SemanticRow>,
    other: SemanticRow,
    now: u128,
)
    ensures
        rows.filter(fresh(now)).contains(row) <==> rows.contains(row) && now < row.expires,
        others.contains(other) && now < other.expires ==> others.filter(
            fresh_semantic(now),
        ).contains(other),
        others.filter(fresh_semantic(now)).contains(other) ==> now < other.expires,
{
    broadcast use vstd::seq_lib::group_filter_ensures;

    let kept = rows.filter(fresh(now));
    if kept.contains(row) {
        let k = choose|k: int| 0 <= k < kept.len() && kept[k] == row;
        lemma_kept_was_there(rows, fresh(now), k);
        assert(fresh(now)(kept[k]));
    }
    if rows.contains(row) && now < row.expires {
        assert(fresh(now)(row));
    }
    let left = others.filter(fresh_semantic(now));
    if left.contains(other) {
        let k = choose|k: int| 0 <= k < left.len() && left[k] == other;
        assert(fresh_semantic(now)(left[k]));
    }
    if others.contains(other) && now < other.expires {
        assert(fresh_semantic(now)(other));
    }
}

/// Storing an answer with an embedding adds one entry of its scope, with this embedding and answer,
/// made now and not used yet; every other entry stays, and so do the log and the cache of keys.
pub proof fn law_semantic_store_adds(
    before: Store,
    after: Store,
    scope: Seq<char>,
    embedding: Seq<u32>,
    response: Seq<char>,
    ttl_seconds: u64,
    now: u128,
    i: int,
)
    requires
        semantically_stored(before, after, scope, embedding, response, ttl_seconds, now),
        0 <= i < before.semantic@.len(),
    ensures
        after.semantic@.len() == before.semantic@.len() + 1,
        after.semantic@[i] == before.semantic@[i],
        after.semantic@.last().scope@ == scope,
        after.semantic@.last().embedding@ == embedding,
        after.semantic@.last().response@ == response,
        after.semantic@.last().created == now,
        after.semantic@.last().expires == expiry(now, ttl_seconds),
        after.semantic@.last().hits == 0,
        after.rows == before.rows,
        after.cache == before.cache,
{
    assert(after.semantic@.drop_last()[i] == after.semantic@[i]);
}

/// Which statuses are a success and which a failure.
pub proof fn law_success_and_failure(v: LogView)
    ensures
        v.succeeded() <==> 200 <= v.status && v.status <= 299,
        v.failed() <==> v.status == 0 || v.status >= 400,
{
}

} // verus!
