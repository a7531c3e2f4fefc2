//! Figures derived from the request log.
use chrono::Datelike;
use vstd::prelude::*;
use vstd::relations::*;
use vstd::string::*;
use crate::float::Real;
use crate::logging::{LogRow, LogView, RequestLog, Store};
use crate::order::Ranking;
use crate::{logging, order, text};

verus! {

/// Marks that a record can show.
#[derive(Debug, Clone, Copy, PartialEq, Eq, Structural)]
pub enum Mark {
    Success,
    Failure,
    Fallback,
    Cached,
    Degraded,
    Forced,
    /// Was not answered with a status of success.
    Rejected,
    ForcedRejected,
    /// Was classified as private.
    Private,
    /// Was answered by the first choice, without anything special.
    Allowed,
    /// Expected a tool call, succeeded, and got none.
    ToolCallMissing,
}

/// Whether a record shows a mark.
pub open spec fn shows(mark: Mark, v: LogView) -> bool {
    match mark {
        Mark::Success => v.succeeded(),
        Mark::Failure => v.failed(),
        Mark::Fallback => v.used_fallback,
        Mark::Cached => v.cache_hit,
        Mark::Degraded => v.degraded,
        Mark::Forced => v.forced,
        Mark::Rejected => !v.succeeded(),
        Mark::ForcedRejected => v.forced && !v.succeeded(),
        Mark::Private => v.task_type == "private_sensitive"@,
        Mark::Allowed => v.succeeded() && !v.cache_hit && !v.used_fallback && !v.degraded
            && !v.forced,
        Mark::ToolCallMissing => v.tools_expected && !v.tool_call_present && v.succeeded(),
    }
}

/// The records that show a mark.
pub open spec fn showing(mark: Mark) -> spec_fn(LogView) -> bool {
    |v: LogView| shows(mark, v)
}

/// How many of the records show a mark.
pub open spec fn tally(logs: Seq<LogView>, mark: Mark) -> nat {
    logs.filter(showing(mark)).len()
}

/// Latencies that can be looked at together.
#[derive(Debug, Clone, Copy, PartialEq, Eq, Structural)]
pub enum Timing {
    /// Of all successful requests.
    All,
    /// Of those that a cache answered.
    Cache,
    /// Of those that a provider answered.
    Provider,
}

/// Whether a record holds an observed latency of a kind.
pub open spec fn observed(timing: Timing, v: LogView) -> bool {
    v.succeeded() && v.latency_ms > 0 && match timing {
        Timing::All => true,
        Timing::Cache => v.cache_hit,
        Timing::Provider => !v.cache_hit,
    }
}

/// The records that hold an observed latency of a kind.
pub open spec fn observing(timing: Timing) -> spec_fn(LogView) -> bool {
    |v: LogView| observed(timing, v)
}

/// The observed latencies of a kind, oldest first.
pub open spec fn latencies(logs: Seq<LogView>, timing: Timing) -> Seq<u64> {
    logs.filter(observing(timing)).map_values(|v: LogView| v.latency_ms)
}

/// The order of numbers by their size.
pub open spec fn at_most() -> spec_fn(u64, u64) -> bool {
    |a: u64, b: u64| a <= b
}

/// The values, smallest first.
pub open spec fn ascending(values: Seq<u64>) -> Seq<u64> {
    values.sort_by(at_most())
}

/// The position of the nearest rank of a percentage among `n` sorted values: that of the smallest
/// value such that it and the smaller ones make up the percentage.
pub open spec fn rank_index(n: nat, percent: nat) -> int {
    if percent == 0 {
        0
    } else {
        (n * percent + 99) / 100 - 1
    }
}

/// The value at the nearest rank of a percentage, 0 where there are no values.
pub open spec fn nearest_rank(values: Seq<u64>, percent: nat) -> u64 {
    if values.len() == 0 {
        0
    } else {
        ascending(values)[rank_index(values.len(), percent)]
    }
}

/// What records can be grouped by.
#[derive(Debug, Clone, Copy, PartialEq, Eq, Structural)]
pub enum GroupBy {
    /// Provider and model, of records that name a model.
    Model,
    /// Model and task type, of records that name a model.
    ModelTask,
    Project,
    /// The provider, of answers that a provider gave in an observed time.
    Provider,
    /// The task type, of answers that a provider gave in an observed time.
    Task,
    /// Provider and model, of answers that a provider gave in an observed time.
    TimedModel,
    /// The reason why the answer stopped, of successful requests.
    StopReason,
    /// The error, of requests that did not succeed.
    Rejection,
}

/// The text of a record's error: what was recorded, or the status.
pub open spec fn reason(v: LogView) -> Seq<char> {
    match v.error {
        Some(e) => e,
        None => "status "@ + text::decimal(v.status as nat),
    }
}

/// A text, or `(none)` where there is none.
pub open spec fn or_none(s: Option<Seq<char>>) -> Seq<char> {
    match s {
        Some(x) => x,
        None => "(none)"@,
    }
}

/// The group that a record belongs to, if any.
pub open spec fn group_key(by: GroupBy, v: LogView) -> Option<(Seq<char>, Seq<char>)> {
    let timed = observed(Timing::Provider, v);
    match by {
        GroupBy::Model => if v.model.len() > 0 {
            Some((v.provider, v.model))
        } else {
            None
        },
        GroupBy::ModelTask => if v.model.len() > 0 {
            Some((v.model, v.task_type))
        } else {
            None
        },
        GroupBy::Project => Some((or_none(v.project), Seq::empty())),
        GroupBy::Provider => if timed && v.provider.len() > 0 {
            Some((v.provider, Seq::empty()))
        } else {
            None
        },
        GroupBy::Task => if timed && v.task_type.len() > 0 {
            Some((v.task_type, Seq::empty()))
        } else {
            None
        },
        GroupBy::TimedModel => if timed && v.model.len() > 0 {
            Some((v.provider, v.model))
        } else {
            None
        },
        GroupBy::StopReason => if v.succeeded() {
            Some((or_none(v.stop_reason), Seq::empty()))
        } else {
            None
        },
        GroupBy::Rejection => if !v.succeeded() {
            Some((reason(v), Seq::empty()))
        } else {
            None
        },
    }
}

/// Whether one text alone tells the groups apart.
spec fn single_key(by: GroupBy) -> bool {
    by != GroupBy::Model && by != GroupBy::ModelTask && by != GroupBy::TimedModel
}

/// The records of a group.
pub open spec fn in_group(by: GroupBy, key: (Seq<char>, Seq<char>)) -> spec_fn(LogView) -> bool {
    |v: LogView| group_key(by, v) == Some(key)
}

/// The records of a group, oldest first.
pub open spec fn members(logs: Seq<LogView>, by: GroupBy, key: (Seq<char>, Seq<char>)) -> Seq<
    LogView,
> {
    logs.filter(in_group(by, key))
}

/// The position of the oldest record of a group.
pub open spec fn first_of(logs: Seq<LogView>, by: GroupBy, key: (Seq<char>, Seq<char>)) -> nat
    decreases logs.len(),
{
    if logs.len() == 0 || group_key(by, logs[0]) == Some(key) {
        0
    } else {
        1 + first_of(logs.drop_first(), by, key)
    }
}

/// Whether `keys` are the groups of the records, the busiest first, and of equally busy ones the
/// one with the oldest record first.
pub open spec fn ranked(logs: Seq<LogView>, by: GroupBy, keys: Seq<(Seq<char>, Seq<char>)>) -> bool {
    &&& forall|i: int|
        0 <= i < keys.len() ==> members(logs, by, #[trigger] keys[i]).len() > 0
    &&& forall|r: int, k: (Seq<char>, Seq<char>)|
        0 <= r < logs.len() && #[trigger] group_key(by, logs[r]) == Some(k)
            ==> #[trigger] keys.contains(k)
    &&& forall|i: int, j: int|
        0 <= i < j < keys.len() ==> #[trigger] busier(logs, by, keys[i], keys[j])
}

/// Whether a group comes before another.
pub open spec fn busier(
    logs: Seq<LogView>,
    by: GroupBy,
    a: (Seq<char>, Seq<char>),
    b: (Seq<char>, Seq<char>),
) -> bool {
    let m = members(logs, by, a).len();
    let n = members(logs, by, b).len();
    &&& a != b
    &&& m > n || (m == n && first_of(logs, by, a) < first_of(logs, by, b))
}

/// `slice::sort_unstable` on numbers: the same numbers, smallest first.
#[verifier::external_body]
fn sort_numbers(v: &mut Vec<u64>)
    ensures
        sorted_by(final(v)@, at_most()),
        final(v)@.to_multiset() == old(v)@.to_multiset(),
{
    v.sort_unstable();
}

/// The day of the month, from 1 on, of the UTC date at `secs` seconds since the Unix epoch.
pub uninterp spec fn month_day(secs: i64) -> u32;

/// `chrono::Datelike::day` of what `chrono::DateTime::from_timestamp` gives for `secs` seconds
/// since the Unix epoch: a number from 1 to 31 that depends on `secs` alone. The epoch is the
/// first of a month, so the first of the month of `secs` lies at or behind it.
#[verifier::external_body]
fn day_of_month(secs: i64) -> (d: u32)
    requires
        0 <= secs <= 253_402_300_799,
    ensures
        d == month_day(secs),
        1 <= d <= 31,
        (d - 1) * 86_400 <= secs,
{
    chrono::DateTime::<chrono::Utc>::from_timestamp(secs, 0).unwrap().day()
}

/// The records at the given positions.
pub open spec fn picked(logs: Seq<LogView>, at: Seq<usize>) -> Seq<LogView> {
    Seq::new(at.len(), |j: int| logs[at[j] as int])
}

/// Whether all positions are positions of records.
pub open spec fn within(at: Seq<usize>, n: nat) -> bool {
    forall|j: int| 0 <= j < at.len() ==> (#[trigger] at[j]) < n
}

/// Whether a record shows a mark.
fn has_mark(mark: Mark, log: &RequestLog) -> (r: bool)
    ensures
        r == shows(mark, log@),
{
    let ok = log.status >= 200 && log.status <= 299;
    let bad = log.status >= 400 || log.status == 0;
    match mark {
        Mark::Success => ok,
        Mark::Failure => bad,
        Mark::Fallback => log.used_fallback,
        Mark::Cached => log.cache_hit,
        Mark::Degraded => log.degraded,
        Mark::Forced => log.forced,
        Mark::Rejected => !ok,
        Mark::ForcedRejected => log.forced && !ok,
        Mark::Private => text::same(log.task_type.as_str(), "private_sensitive"),
        Mark::Allowed => ok && !log.cache_hit && !log.used_fallback && !log.degraded && !log.forced,
        Mark::ToolCallMissing => log.tools_expected && !log.tool_call_present && ok,
    }
}

/// Whether a record holds an observed latency of a kind.
fn is_observed(timing: Timing, log: &RequestLog) -> (r: bool)
    ensures
        r == observed(timing, log@),
{
    log.status >= 200 && log.status <= 299 && log.latency_ms > 0 && match timing {
        Timing::All => true,
        Timing::Cache => log.cache_hit,
        Timing::Provider => !log.cache_hit,
    }
}

/// The text of a record's error.
fn reason_of(log: &RequestLog) -> (r: String)
    ensures
        r@ == reason(log@),
{
    match &log.error {
        Some(e) => e.clone(),
        None => {
            let mut r = "status ".to_owned();
            let n = text::number(log.status as u64);
            r.append(n.as_str());
            r
        },
    }
}

fn text_or_none(s: &Option<String>) -> (r: String)
    ensures
        r@ == or_none(text::optional(*s)),
{
    match s {
        Some(x) => x.clone(),
        None => "(none)".to_owned(),
    }
}

/// The group that a record belongs to.
fn key_of(by: GroupBy, log: &RequestLog) -> (r: Option<(String, String)>)
    ensures
        match r {
            Some(k) => group_key(by, log@) == Some((k.0@, k.1@)),
            None => group_key(by, log@) is None,
        },
{
    let ok = log.status >= 200 && log.status <= 299;
    let timed = is_observed(Timing::Provider, log);
    let named = !log.model.as_str().is_empty();
    match by {
        GroupBy::Model => if named {
            Some((log.provider.clone(), log.model.clone()))
        } else {
            None
        },
        GroupBy::ModelTask => if named {
            Some((log.model.clone(), log.task_type.clone()))
        } else {
            None
        },
        GroupBy::Project => Some((text_or_none(&log.project), String::new())),
        GroupBy::Provider => if timed && !log.provider.as_str().is_empty() {
            Some((log.provider.clone(), String::new()))
        } else {
            None
        },
        GroupBy::Task => if timed && !log.task_type.as_str().is_empty() {
            Some((log.task_type.clone(), String::new()))
        } else {
            None
        },
        GroupBy::TimedModel => if timed && named {
            Some((log.provider.clone(), log.model.clone()))
        } else {
            None
        },
        GroupBy::StopReason => if ok {
            Some((text_or_none(&log.stop_reason), String::new()))
        } else {
            None
        },
        GroupBy::Rejection => if !ok {
            Some((reason_of(log), String::new()))
        } else {
            None
        },
    }
}

/// A group: its key and the positions of its records.
struct Group {
    first: String,
    second: String,
    rows: Vec<usize>,
}

impl Group {
    spec fn key(self) -> (Seq<char>, Seq<char>) {
        (self.first@, self.second@)
    }
}

spec fn keys_of(groups: Seq<Group>) -> Seq<(Seq<char>, Seq<char>)> {
    Seq::new(groups.len(), |i: int| groups[i].key())
}

/// Whether a group holds the records of its key among the first `n`.
spec fn holds(g: Group, logs: Seq<LogView>, by: GroupBy, n: nat) -> bool {
    let rows = g.rows@;
    &&& rows.len() > 0
    &&& within(rows, n)
    &&& n <= logs.len()
    &&& picked(logs, rows) == members(logs.subrange(0, n as int), by, g.key())
    &&& group_key(by, logs[rows[0] as int]) == Some(g.key())
    &&& forall|r: int| 0 <= r < rows[0] ==> group_key(by, #[trigger] logs[r]) != Some(g.key())
}

/// The order of groups by the number of their records, then by their position.
struct Busiest<'a> {
    groups: &'a Vec<Group>,
}

impl<'a> Ranking for Busiest<'a> {
    closed spec fn size(&self) -> nat {
        self.groups@.len()
    }

    closed spec fn before(&self, i: int, j: int) -> bool {
        let m = self.groups@[i].rows@.len();
        let n = self.groups@[j].rows@.len();
        m > n || (m == n && i < j)
    }

    proof fn lemma_strict(&self, i: int, j: int, k: int) {
    }

    fn is_before(&self, i: usize, j: usize) -> (r: bool) {
        let m: usize = self.groups[i].rows.len();
        let n: usize = self.groups[j].rows.len();
        m > n || (m == n && i < j)
    }
}

proof fn lemma_first(logs: Seq<LogView>, by: GroupBy, key: (Seq<char>, Seq<char>), i: int)
    requires
        0 <= i < logs.len(),
        group_key(by, logs[i]) == Some(key),
        forall|r: int| 0 <= r < i ==> group_key(by, #[trigger] logs[r]) != Some(key),
    ensures
        first_of(logs, by, key) == i,
    decreases i,
{
    if i > 0 {
        let rest = logs.drop_first();
        assert(group_key(by, logs[0]) != Some(key));
        assert forall|r: int| 0 <= r < i - 1 implies group_key(by, #[trigger] rest[r]) != Some(
            key,
        ) by {
            assert(group_key(by, logs[r + 1]) != Some(key));
        }
        lemma_first(rest, by, key, i - 1);
    }
}

/// One more record adds to the group it belongs to, and to no other.
proof fn lemma_members_step(logs: Seq<LogView>, by: GroupBy, key: (Seq<char>, Seq<char>), i: int)
    requires
        0 <= i < logs.len(),
    ensures
        members(logs.subrange(0, i + 1), by, key) == if group_key(by, logs[i]) == Some(key) {
            members(logs.subrange(0, i), by, key).push(logs[i])
        } else {
            members(logs.subrange(0, i), by, key)
        },
{
    reveal(Seq::filter);
    let more = logs.subrange(0, i + 1);
    assert(more.drop_last() =~= logs.subrange(0, i));
    assert(more.last() == logs[i]);
}

/// A group without a record so far has none.
proof fn lemma_no_members(logs: Seq<LogView>, by: GroupBy, key: (Seq<char>, Seq<char>), i: int)
    requires
        0 <= i <= logs.len(),
        forall|r: int| 0 <= r < i ==> group_key(by, #[trigger] logs[r]) != Some(key),
    ensures
        members(logs.subrange(0, i), by, key).len() == 0,
    decreases i,
{
    if i == 0 {
        reveal(Seq::filter);
    } else {
        lemma_no_members(logs, by, key, i - 1);
        lemma_members_step(logs, by, key, i - 1);
    }
}

/// The groups of the records, in the order of their oldest records.
#[verifier::spinoff_prover]
#[verifier::rlimit(40)]
fn collect(rows: &Vec<LogRow>, by: GroupBy) -> (gs: Vec<Group>)
    ensures
        ({
            let logs = logging::logs_of(rows@);
            &&& forall|g: int|
                0 <= g < gs@.len() ==> #[trigger] holds(gs@[g], logs, by, logs.len())
            &&& forall|g: int, h: int|
                0 <= g < h < gs@.len() ==> (#[trigger] gs@[g]).key() != (#[trigger] gs@[h]).key()
                    && gs@[g].rows@[0] < gs@[h].rows@[0]
            &&& forall|r: int, k: (Seq<char>, Seq<char>)|
                0 <= r < logs.len() && #[trigger] group_key(by, logs[r]) == Some(k)
                    ==> #[trigger] keys_of(gs@).contains(k)
        }),
{
    let ghost logs = logging::logs_of(rows@);
    let mut gs: Vec<Group> = Vec::new();
    let mut i: usize = 0;
    while i < rows.len()
        invariant
            i <= rows@.len(),
            logs == logging::logs_of(rows@),
            forall|g: int| 0 <= g < gs@.len() ==> #[trigger] holds(gs@[g], logs, by, i as nat),
            forall|g: int, h: int|
                0 <= g < h < gs@.len() ==> (#[trigger] gs@[g]).key() != (#[trigger] gs@[h]).key()
                    && gs@[g].rows@[0] < gs@[h].rows@[0],
            forall|r: int, k: (Seq<char>, Seq<char>)|
                0 <= r < i && #[trigger] group_key(by, logs[r]) == Some(k)
                    ==> #[trigger] keys_of(gs@).contains(k),
        decreases rows.len() - i,
    {
        let ghost was = gs@;
        assert(logs[i as int] == rows@[i as int].log@);
        match key_of(by, &rows[i].log) {
            Some((a, b)) => {
                let ghost key = (a@, b@);
                let mut p: usize = 0;
                while p < gs.len() && !(text::same(gs[p].first.as_str(), a.as_str()) && text::same(
                    gs[p].second.as_str(),
                    b.as_str(),
                ))
                    invariant
                        p <= gs@.len(),
                        gs@ == was,
                        key == (a@, b@),
                        forall|q: int| 0 <= q < p ==> (#[trigger] gs@[q]).key() != key,
                    decreases gs.len() - p,
                {
                    p += 1;
                }
                if p < gs.len() {
                    let mut list: Vec<usize> = Vec::new();
                    let mut c: usize = 0;
                    while c < gs[p].rows.len()
                        invariant
                            p < gs@.len(),
                            gs@ == was,
                            c <= gs@[p as int].rows@.len(),
                            list@ == gs@[p as int].rows@.subrange(0, c as int),
                        decreases gs[p as int].rows.len() - c,
                    {
                        list.push(gs[p].rows[c]);
                        c += 1;
                    }
                    assert(list@ =~= was[p as int].rows@);
                    list.push(i);
                    let ghost long = list@;
                    gs.set(p, Group { first: a, second: b, rows: list });
                    proof {
                        assert(holds(was[p as int], logs, by, i as nat));
                        lemma_members_step(logs, by, key, i as int);
                        assert(picked(logs, long) =~= picked(logs, was[p as int].rows@).push(
                            logs[i as int],
                        ));
                        assert(gs@[p as int].rows@ == long);
                        assert(gs@[p as int].key() == key);
                        assert(long[0] == was[p as int].rows@[0]);
                        assert(within(long, (i + 1) as nat));
                        assert(holds(gs@[p as int], logs, by, (i + 1) as nat));
                    }
                } else {
                    let ghost before_len = gs@.len();
                    proof {
                        assert forall|r: int| 0 <= r < i implies group_key(
                            by,
                            #[trigger] logs[r],
                        ) != Some(key) by {
                            if group_key(by, logs[r]) == Some(key) {
                                assert(keys_of(was).contains(key));
                                let q = choose|q: int|
                                    0 <= q < keys_of(was).len() && keys_of(was)[q] == key;
                                assert(was[q].key() == key);
                            }
                        }
                        lemma_no_members(logs, by, key, i as int);
                        lemma_members_step(logs, by, key, i as int);
                    }
                    let mut list: Vec<usize> = Vec::new();
                    list.push(i);
                    let ghost long = list@;
                    gs.push(Group { first: a, second: b, rows: list });
                    proof {
                        assert(picked(logs, long) =~= members(
                            logs.subrange(0, i + 1),
                            by,
                            key,
                        ));
                        assert forall|g: int| 0 <= g < was.len() implies (
                        #[trigger] was[g]).rows@[0] < i by {
                            assert(holds(was[g], logs, by, i as nat));
                        }
                        assert(gs@[p as int].rows@ == long);
                        assert(gs@[p as int].key() == key);
                        assert(holds(gs@[p as int], logs, by, (i + 1) as nat));
                    }
                }
                proof {
                    let now = gs@;
                    assert forall|g: int| 0 <= g < now.len() implies #[trigger] holds(
                        now[g],
                        logs,
                        by,
                        (i + 1) as nat,
                    ) by {
                        if g != p {
                            assert(holds(was[g], logs, by, i as nat));
                            assert(now[g] == was[g]);
                            assert(now[g].key() != key) by {
                                if g < p {
                                    assert(was[g].key() != key);
                                } else {
                                    assert(was[p as int].key() != was[g].key());
                                }
                            }
                            lemma_members_step(logs, by, now[g].key(), i as int);
                        }
                    }
                    assert forall|g: int, h: int| 0 <= g < h < now.len() implies (
                    #[trigger] now[g]).key() != (#[trigger] now[h]).key() && now[g].rows@[0]
                        < now[h].rows@[0] by {
                        if g < was.len() {
                            assert(holds(was[g], logs, by, i as nat));
                            assert(now[g].key() == was[g].key());
                            assert(now[g].rows@[0] == was[g].rows@[0]);
                            if h < was.len() {
                                assert(holds(was[h], logs, by, i as nat));
                                assert(now[h].key() == was[h].key());
                                assert(now[h].rows@[0] == was[h].rows@[0]);
                            }
                        }
                    }
                    assert forall|r: int, k: (Seq<char>, Seq<char>)|
                        0 <= r < i + 1 && #[trigger] group_key(by, logs[r]) == Some(
                            k,
                        ) implies #[trigger] keys_of(now).contains(k) by {
                        if r < i {
                            assert(keys_of(was).contains(k));
                            let q = choose|q: int|
                                0 <= q < keys_of(was).len() && keys_of(was)[q] == k;
                            assert(was[q].key() == k);
                            assert(keys_of(now)[q] == k);
                        } else {
                            assert(keys_of(now)[p as int] == k);
                        }
                    }
                }
            },
            None => {
                proof {
                    assert forall|g: int| 0 <= g < gs@.len() implies #[trigger] holds(
                        gs@[g],
                        logs,
                        by,
                        (i + 1) as nat,
                    ) by {
                        assert(holds(was[g], logs, by, i as nat));
                        lemma_members_step(logs, by, gs@[g].key(), i as int);
                    }
                }
            },
        }
        assert(forall|g: int|
            0 <= g < gs@.len() ==> #[trigger] holds(gs@[g], logs, by, (i + 1) as nat));
        i += 1;
    }
    gs
}

/// The groups of the records, the busiest first.
fn groups(rows: &Vec<LogRow>, by: GroupBy) -> (out: Vec<Group>)
    ensures
        ranked(logging::logs_of(rows@), by, keys_of(out@)),
        forall|g: int|
            0 <= g < out@.len() ==> within((#[trigger] out@[g]).rows@, rows@.len()) && picked(
                logging::logs_of(rows@),
                out@[g].rows@,
            ) == members(logging::logs_of(rows@), by, out@[g].key()),
{
    let ghost logs = logging::logs_of(rows@);
    let gs = collect(rows, by);
    let ranking = Busiest { groups: &gs };
    let order = order::arrange(&ranking, gs.len());
    let mut out: Vec<Group> = Vec::new();
    let mut i: usize = 0;
    while i < order.len()
        invariant
            i <= order@.len(),
            out@.len() == i,
            order::all_positions(order@, gs@.len()),
            forall|j: int|
                0 <= j < i ==> (#[trigger] out@[j]).key() == gs@[order@[j] as int].key()
                    && out@[j].rows@ == gs@[order@[j] as int].rows@,
        decreases order.len() - i,
    {
        let at: usize = order[i];
        let mut list: Vec<usize> = Vec::new();
        let mut c: usize = 0;
        while c < gs[at].rows.len()
            invariant
                at < gs@.len(),
                c <= gs@[at as int].rows@.len(),
                list@ == gs@[at as int].rows@.subrange(0, c as int),
            decreases gs[at as int].rows.len() - c,
        {
            list.push(gs[at].rows[c]);
            c += 1;
        }
        assert(list@ =~= gs@[at as int].rows@);
        out.push(Group { first: gs[at].first.clone(), second: gs[at].second.clone(), rows: list });
        i += 1;
    }
    proof {
        assert(logs.subrange(0, logs.len() as int) =~= logs);
        assert forall|g: int| 0 <= g < out@.len() implies within(
            (#[trigger] out@[g]).rows@,
            rows@.len(),
        ) && picked(logs, out@[g].rows@) == members(logs, by, out@[g].key()) && first_of(
            logs,
            by,
            out@[g].key(),
        ) == out@[g].rows@[0] && members(logs, by, out@[g].key()).len() == out@[g].rows@.len() by {
            let at = order@[g] as int;
            assert(holds(gs@[at], logs, by, logs.len()));
            lemma_first(logs, by, gs@[at].key(), gs@[at].rows@[0] as int);
            assert(picked(logs, gs@[at].rows@).len() == gs@[at].rows@.len());
        }
        let keys = keys_of(out@);
        assert forall|g: int| 0 <= g < keys.len() implies members(
            logs,
            by,
            #[trigger] keys[g],
        ).len() > 0 by {
            assert(holds(gs@[order@[g] as int], logs, by, logs.len()));
            assert(keys[g] == out@[g].key());
        }
        assert forall|r: int, k: (Seq<char>, Seq<char>)|
            0 <= r < logs.len() && #[trigger] group_key(by, logs[r]) == Some(
                k,
            ) implies #[trigger] keys.contains(k) by {
            assert(keys_of(gs@).contains(k));
            let q = choose|q: int| 0 <= q < keys_of(gs@).len() && keys_of(gs@)[q] == k;
            assert(order@.contains(q as usize));
            let j = choose|j: int| 0 <= j < order@.len() && order@[j] == q as usize;
            assert(keys[j] == out@[j].key());
        }
        assert forall|i: int, j: int| 0 <= i < j < keys.len() implies #[trigger] busier(
            logs,
            by,
            keys[i],
            keys[j],
        ) by {
            let a = order@[i] as int;
            let b = order@[j] as int;
            assert(ranking.before(a, b));
            assert(out@[i].key() == gs@[a].key());
            assert(out@[j].key() == gs@[b].key());
            assert(a != b);
            if a < b {
                assert(gs@[a].key() != gs@[b].key());
            } else {
                assert(gs@[b].key() != gs@[a].key());
            }
        }
    }
    out
}

/// The sum of the tiers of the records.
pub open spec fn tier_total(logs: Seq<LogView>) -> nat
    decreases logs.len(),
{
    if logs.len() == 0 {
        0
    } else {
        tier_total(logs.drop_last()) + logs.last().tier as nat
    }
}

/// The sum of the attempts of the records.
pub open spec fn attempt_total(logs: Seq<LogView>) -> nat
    decreases logs.len(),
{
    if logs.len() == 0 {
        0
    } else {
        attempt_total(logs.drop_last()) + logs.last().attempts as nat
    }
}

/// The real costs of the records, oldest first.
pub open spec fn costs_of(logs: Seq<LogView>) -> Seq<Real> {
    Seq::new(logs.len(), |i: int| logs[i].real_cost_usd)
}

/// The positions of all rows.
fn everything(n: usize) -> (at: Vec<usize>)
    ensures
        within(at@, n as nat),
        forall|logs: Seq<LogView>| logs.len() == n ==> #[trigger] picked(logs, at@) == logs,
{
    let mut at: Vec<usize> = Vec::new();
    let mut i: usize = 0;
    while i < n
        invariant
            i <= n,
            at@.len() == i,
            forall|j: int| 0 <= j < i ==> (#[trigger] at@[j]) == j,
        decreases n - i,
    {
        at.push(i);
        i += 1;
    }
    assert forall|logs: Seq<LogView>| logs.len() == n implies #[trigger] picked(logs, at@)
        == logs by {
        assert(picked(logs, at@) =~= logs);
    }
    at
}

/// How many of the rows at `at` show a mark.
fn count(rows: &Vec<LogRow>, at: &Vec<usize>, mark: Mark) -> (n: u64)
    requires
        within(at@, rows@.len()),
    ensures
        n == tally(picked(logging::logs_of(rows@), at@), mark),
{
    let ghost all = picked(logging::logs_of(rows@), at@);
    let ghost keep = showing(mark);
    let mut n: u64 = 0;
    let mut i: usize = 0;
    proof {
        reveal(Seq::filter);
    }
    while i < at.len()
        invariant
            i <= at@.len(),
            within(at@, rows@.len()),
            all == picked(logging::logs_of(rows@), at@),
            keep == showing(mark),
            n == all.subrange(0, i as int).filter(keep).len(),
            n <= i,
        decreases at.len() - i,
    {
        proof {
            reveal(Seq::filter);
            let more = all.subrange(0, i + 1);
            assert(more.drop_last() =~= all.subrange(0, i as int));
            assert(more.last() == rows@[at@[i as int] as int].log@);
        }
        if has_mark(mark, &rows[at[i]].log) {
            n += 1;
        }
        i += 1;
    }
    assert(all.subrange(0, i as int) =~= all);
    n
}

/// The observed latencies of a kind of the rows at `at`.
fn timings(rows: &Vec<LogRow>, at: &Vec<usize>, timing: Timing) -> (r: Vec<u64>)
    requires
        within(at@, rows@.len()),
    ensures
        r@ == latencies(picked(logging::logs_of(rows@), at@), timing),
{
    let ghost all = picked(logging::logs_of(rows@), at@);
    let mut r: Vec<u64> = Vec::new();
    let mut i: usize = 0;
    proof {
        reveal(Seq::filter);
        assert(latencies(all.subrange(0, 0), timing) =~= Seq::empty());
    }
    while i < at.len()
        invariant
            i <= at@.len(),
            within(at@, rows@.len()),
            all == picked(logging::logs_of(rows@), at@),
            r@ == latencies(all.subrange(0, i as int), timing),
        decreases at.len() - i,
    {
        let ghost was = r@;
        let ghost more = all.subrange(0, i + 1);
        proof {
            reveal(Seq::filter);
            assert(more.drop_last() =~= all.subrange(0, i as int));
            assert(more.last() == rows@[at@[i as int] as int].log@);
        }
        if is_observed(timing, &rows[at[i]].log) {
            r.push(rows[at[i]].log.latency_ms);
        }
        assert(r@ =~= latencies(more, timing));
        i += 1;
    }
    assert(all.subrange(0, i as int) =~= all);
    r
}

fn costs(rows: &Vec<LogRow>, at: &Vec<usize>) -> (r: Vec<Real>)
    requires
        within(at@, rows@.len()),
    ensures
        r@ == costs_of(picked(logging::logs_of(rows@), at@)),
{
    let mut r: Vec<Real> = Vec::new();
    let mut i: usize = 0;
    while i < at.len()
        invariant
            i <= at@.len(),
            within(at@, rows@.len()),
            r@.len() == i,
            forall|j: int|
                0 <= j < i ==> (#[trigger] r@[j]) == rows@[at@[j] as int].log.real_cost_usd,
        decreases at.len() - i,
    {
        r.push(rows[at[i]].log.real_cost_usd);
        i += 1;
    }
    assert(r@ =~= costs_of(picked(logging::logs_of(rows@), at@)));
    r
}

fn sum_tiers(rows: &Vec<LogRow>, at: &Vec<usize>) -> (n: u128)
    requires
        within(at@, rows@.len()),
    ensures
        n == tier_total(picked(logging::logs_of(rows@), at@)),
{
    let ghost all = picked(logging::logs_of(rows@), at@);
    let mut n: u128 = 0;
    let mut i: usize = 0;
    while i < at.len()
        invariant
            i <= at@.len(),
            within(at@, rows@.len()),
            all == picked(logging::logs_of(rows@), at@),
            n == tier_total(all.subrange(0, i as int)),
            n <= i * 255,
        decreases at.len() - i,
    {
        let ghost more = all.subrange(0, i + 1);
        assert(more.drop_last() =~= all.subrange(0, i as int));
        assert(more.last() == rows@[at@[i as int] as int].log@);
        n += rows[at[i]].log.tier as u128;
        i += 1;
    }
    assert(all.subrange(0, i as int) =~= all);
    n
}

fn sum_attempts(rows: &Vec<LogRow>, at: &Vec<usize>) -> (n: u128)
    requires
        within(at@, rows@.len()),
    ensures
        n == attempt_total(picked(logging::logs_of(rows@), at@)),
{
    let ghost all = picked(logging::logs_of(rows@), at@);
    let mut n: u128 = 0;
    let mut i: usize = 0;
    while i < at.len()
        invariant
            i <= at@.len(),
            within(at@, rows@.len()),
            all == picked(logging::logs_of(rows@), at@),
            n == attempt_total(all.subrange(0, i as int)),
            n <= i * 0xffff_ffff,
        decreases at.len() - i,
    {
        let ghost more = all.subrange(0, i + 1);
        assert(more.drop_last() =~= all.subrange(0, i as int));
        assert(more.last() == rows@[at@[i as int] as int].log@);
        n += rows[at[i]].log.attempts as u128;
        i += 1;
    }
    assert(all.subrange(0, i as int) =~= all);
    n
}

/// The value at the nearest rank of a percentage in a sorted list, 0 where it is empty.
pub fn percentile(sorted: &Vec<u64>, percent: u64) -> (r: u64)
    requires
        percent <= 100,
    ensures
        r == if sorted@.len() == 0 {
            0
        } else {
            sorted@[rank_index(sorted@.len(), percent as nat)]
        },
{
    let n: usize = sorted.len();
    if n == 0 {
        return 0;
    }
    proof {
        lemma_rank_index(n as nat, percent as nat);
    }
    if percent == 0 {
        return sorted[0];
    }
    let scaled: u128 = (n as u128) * (percent as u128) + 99;
    sorted[(scaled / 100 - 1) as usize]
}

/// A nearest rank is a position in the list.
pub proof fn lemma_rank_index(n: nat, percent: nat)
    by (nonlinear_arith)
    requires
        n > 0,
        percent <= 100,
    ensures
        0 <= rank_index(n, percent) < n,
        0 <= n * percent <= n * 100,
        percent > 0 ==> n * percent >= 1,
{
}

proof fn lemma_at_most_orders()
    ensures
        total_ordering(at_most()),
{
}

/// The values at the nearest ranks of two percentages.
fn two_ranks(values: Vec<u64>, low: u64, high: u64) -> (r: (u64, u64))
    requires
        low <= 100,
        high <= 100,
    ensures
        r.0 == nearest_rank(values@, low as nat),
        r.1 == nearest_rank(values@, high as nat),
{
    let mut sorted = values;
    let ghost given = values@;
    sort_numbers(&mut sorted);
    proof {
        lemma_at_most_orders();
        given.lemma_sort_by_ensures(at_most());
        vstd::seq_lib::lemma_sorted_unique(sorted@, ascending(given), at_most());
        given.to_multiset_ensures();
        sorted@.to_multiset_ensures();
    }
    (percentile(&sorted, low), percentile(&sorted, high))
}

/// Figures of one model.
#[derive(Debug)]
pub struct ModelStat {
    pub provider: String,
    pub model: String,
    pub requests: u64,
    pub successes: u64,
    pub errors: u64,
    pub fallbacks: u64,
    pub cache_hits: u64,
    pub tier_sum: u128,
    pub p50_latency_ms: u64,
    pub p95_latency_ms: u64,
    /// The real cost of each request.
    pub costs: Vec<Real>,
}

impl ModelStat {
    pub open spec fn key(self) -> (Seq<char>, Seq<char>) {
        (self.provider@, self.model@)
    }

    /// Whether these are the figures of the given records.
    pub open spec fn describes(self, logs: Seq<LogView>) -> bool {
        &&& self.requests == logs.len()
        &&& self.successes == tally(logs, Mark::Success)
        &&& self.errors == tally(logs, Mark::Failure)
        &&& self.fallbacks == tally(logs, Mark::Fallback)
        &&& self.cache_hits == tally(logs, Mark::Cached)
        &&& self.tier_sum == tier_total(logs)
        &&& self.p50_latency_ms == nearest_rank(latencies(logs, Timing::All), 50)
        &&& self.p95_latency_ms == nearest_rank(latencies(logs, Timing::All), 95)
        &&& self.costs@ == costs_of(logs)
    }
}

/// Figures of one model on one type of task.
#[derive(Debug)]
pub struct ModelTaskStat {
    pub model: String,
    pub task_type: String,
    pub requests: u64,
    pub successes: u64,
    pub errors: u64,
    pub fallbacks: u64,
    pub cache_hits: u64,
    pub attempt_sum: u128,
    pub tool_call_missing: u64,
}

impl ModelTaskStat {
    pub open spec fn key(self) -> (Seq<char>, Seq<char>) {
        (self.model@, self.task_type@)
    }

    /// Whether these are the figures of the given records.
    pub open spec fn describes(self, logs: Seq<LogView>) -> bool {
        &&& self.requests == logs.len()
        &&& self.successes == tally(logs, Mark::Success)
        &&& self.errors == tally(logs, Mark::Failure)
        &&& self.fallbacks == tally(logs, Mark::Fallback)
        &&& self.cache_hits == tally(logs, Mark::Cached)
        &&& self.attempt_sum == attempt_total(logs)
        &&& self.tool_call_missing == tally(logs, Mark::ToolCallMissing)
    }
}

/// How often something occurred.
#[derive(Debug)]
pub struct Occurrence {
    pub what: String,
    pub count: u64,
}

impl Occurrence {
    pub open spec fn key(self) -> (Seq<char>, Seq<char>) {
        (self.what@, Seq::empty())
    }
}

/// Whether a list holds the first `limit` groups, the busiest first, with the number of their
/// records.
pub open spec fn top_occurrences(
    logs: Seq<LogView>,
    by: GroupBy,
    s: Seq<Occurrence>,
    limit: nat,
) -> bool {
    exists|keys: Seq<(Seq<char>, Seq<char>)>|
        #![trigger ranked(logs, by, keys)]
        {
            &&& ranked(logs, by, keys)
            &&& s.len() == if keys.len() <= limit {
                keys.len()
            } else {
                limit
            }
            &&& forall|i: int|
                0 <= i < s.len() ==> (#[trigger] s[i]).key() == keys[i] && s[i].count == members(
                    logs,
                    by,
                    keys[i],
                ).len()
        }
}

/// Signals of quality that can be observed in the log.
#[derive(Debug)]
pub struct QualityStats {
    pub by_model_task: Vec<ModelTaskStat>,
    pub stop_reasons: Vec<Occurrence>,
    pub tool_call_missing: u64,
    pub error_clusters: Vec<Occurrence>,
}

/// Figures of one project.
#[derive(Debug)]
pub struct ProjectStat {
    pub project: String,
    pub requests: u64,
    pub rejected: u64,
    pub forced: u64,
    pub local_only: u64,
    /// The real cost of each request.
    pub costs: Vec<Real>,
}

impl ProjectStat {
    pub open spec fn key(self) -> (Seq<char>, Seq<char>) {
        (self.project@, Seq::empty())
    }

    /// Whether these are the figures of the given records.
    pub open spec fn describes(self, logs: Seq<LogView>) -> bool {
        &&& self.requests == logs.len()
        &&& self.rejected == tally(logs, Mark::Rejected)
        &&& self.forced == tally(logs, Mark::Forced)
        &&& self.local_only == tally(logs, Mark::Private)
        &&& self.costs@ == costs_of(logs)
    }
}

/// Counters of routing outcomes; one request can count in several.
#[derive(Debug)]
pub struct PolicyStats {
    pub allowed: u64,
    pub rejected: u64,
    pub degraded: u64,
    pub fallback: u64,
    pub cached: u64,
    pub forced: u64,
    pub forced_rejected: u64,
    pub local_only: u64,
    pub top_rejection_reasons: Vec<Occurrence>,
}

/// Latencies of one group of answers.
#[derive(Debug)]
pub struct LatencyStat {
    pub what: String,
    pub p50_ms: u64,
    pub p95_ms: u64,
    pub samples: u64,
}

impl LatencyStat {
    pub open spec fn key(self) -> (Seq<char>, Seq<char>) {
        (self.what@, Seq::empty())
    }

    /// Whether these are the figures of the given records.
    pub open spec fn describes(self, logs: Seq<LogView>) -> bool {
        &&& self.samples == logs.len()
        &&& self.p50_ms == nearest_rank(latencies(logs, Timing::All), 50)
        &&& self.p95_ms == nearest_rank(latencies(logs, Timing::All), 95)
    }
}

/// Latencies of providers, of task types, of the cache and of all providers together.
#[derive(Debug)]
pub struct LatencyStats {
    pub by_provider: Vec<LatencyStat>,
    pub by_task: Vec<LatencyStat>,
    pub cache_hit_p50_ms: u64,
    pub provider_p50_ms: u64,
}

/// The median latency of one model.
#[derive(Debug)]
pub struct ModelLatency {
    pub provider: String,
    pub model: String,
    pub p50_ms: u64,
}

impl ModelLatency {
    pub open spec fn key(self) -> (Seq<char>, Seq<char>) {
        (self.provider@, self.model@)
    }
}

/// Counters over the whole log.
#[derive(Debug)]
pub struct Overview {
    pub total_requests: u64,
    pub cache_hits: u64,
    pub error_count: u64,
    /// Requests of the last five minutes.
    pub recent: u64,
    pub p95_latency_ms: u64,
}

/// A record as the feed of recent requests shows it.
#[derive(Debug)]
pub struct Recent {
    /// The number of the record, from 1 on.
    pub id: u64,
    pub at: u128,
    pub log: RequestLog,
    pub result: String,
}

/// The requests of one hour.
#[derive(Debug)]
pub struct HourBucket {
    /// The start of the hour.
    pub hour: u128,
    pub requests: u64,
    /// The real cost of each request.
    pub costs: Vec<Real>,
}

/// Nanoseconds in an hour.
pub const HOUR: u128 = 3_600_000_000_000;

/// Nanoseconds in a day.
pub const DAY: u128 = 86_400_000_000_000;

/// The rows from an instant on, up to another.
pub open spec fn between(from: int, to: int) -> spec_fn(LogRow) -> bool {
    |row: LogRow| from <= row.at < to
}

/// The records from an instant on, up to another, oldest first.
pub open spec fn span(rows: Seq<LogRow>, from: int, to: int) -> Seq<LogView> {
    logging::logs_of(rows.filter(between(from, to)))
}

/// The start of the UTC day.
pub open spec fn day_start(now: u128) -> int {
    now - now % DAY
}

/// The start of the UTC month.
pub open spec fn month_start(now: u128) -> int {
    day_start(now) - (month_day((now / logging::SECOND) as i64) - 1) * DAY
}

/// No instant lies beyond this one.
pub open spec fn end_of_time() -> int {
    u128::MAX + 1
}

impl Store {
    /// The positions of the rows from an instant on, up to another.
    fn rows_between(&self, from: u128, to: Option<u128>) -> (at: Vec<usize>)
        ensures
            within(at@, self.rows@.len()),
            picked(self.logs(), at@) == span(
                self.rows@,
                from as int,
                match to {
                    Some(t) => t as int,
                    None => end_of_time(),
                },
            ),
    {
        let ghost upto = match to {
            Some(t) => t as int,
            None => end_of_time(),
        };
        let ghost rows = self.rows@;
        let ghost keep = between(from as int, upto);
        let mut at: Vec<usize> = Vec::new();
        let mut i: usize = 0;
        proof {
            reveal(Seq::filter);
            assert(picked(self.logs(), at@) =~= logging::logs_of(rows.subrange(0, 0).filter(keep)));
        }
        while i < self.rows.len()
            invariant
                i <= self.rows@.len(),
                rows == self.rows@,
                keep == between(from as int, upto),
                upto == (match to {
                    Some(t) => t as int,
                    None => end_of_time(),
                }),
                within(at@, i as nat),
                picked(self.logs(), at@) == logging::logs_of(
                    rows.subrange(0, i as int).filter(keep),
                ),
            decreases self.rows.len() - i,
        {
            let ghost was = picked(self.logs(), at@);
            let ghost more = rows.subrange(0, i + 1);
            proof {
                reveal(Seq::filter);
                assert(more.drop_last() =~= rows.subrange(0, i as int));
                assert(more.last() == rows[i as int]);
            }
            let early = match to {
                Some(t) => self.rows[i].at < t,
                None => true,
            };
            let ghost done = rows.subrange(0, i as int).filter(keep);
            assert(keep(rows[i as int]) == (rows[i as int].at >= from && early));
            if self.rows[i].at >= from && early {
                at.push(i);
                assert(more.filter(keep) == done.push(rows[i as int]));
                assert(picked(self.logs(), at@) =~= was.push(self.logs()[i as int]));
                assert(logging::logs_of(done.push(rows[i as int])) =~= logging::logs_of(done).push(
                    rows[i as int].log@,
                ));
            } else {
                assert(more.filter(keep) == done);
            }
            assert(picked(self.logs(), at@) =~= logging::logs_of(more.filter(keep)));
            i += 1;
        }
        assert(rows.subrange(0, i as int) =~= rows);
        at
    }

    /// The real cost of each request since the start of the UTC day.
    pub fn spent_today(&self, now: u128) -> (r: Vec<Real>)
        ensures
            r@ == costs_of(span(self.rows@, day_start(now), end_of_time())),
    {
        let at = self.rows_between(now - now % DAY, None);
        costs(&self.rows, &at)
    }

    /// The real cost of each request since the start of the UTC month.
    pub fn spent_this_month(&self, now: u128) -> (r: Vec<Real>)
        requires
            now / logging::SECOND <= 253_402_300_799,
        ensures
            r@ == costs_of(span(self.rows@, month_start(now), end_of_time())),
    {
        let secs: i64 = (now / logging::SECOND) as i64;
        let day: u32 = day_of_month(secs);
        let start: u128 = now - now % DAY;
        let back: u128 = ((day - 1) as u128) * DAY;
        assert(back <= start) by {
            let s = (now / logging::SECOND) as int;
            let days = (day - 1) as int;
            assert(days * 86_400 <= s);
            assert(s * 1_000_000_000 <= now);
            assert(days * 86_400_000_000_000 <= now);
            assert(now % DAY == now - DAY * (now / DAY)) by (nonlinear_arith)
                requires
                    DAY == 86_400_000_000_000,
            ;
            assert(now / DAY >= days) by (nonlinear_arith)
                requires
                    days * 86_400_000_000_000 <= now,
                    DAY == 86_400_000_000_000,
            ;
        }
        let at = self.rows_between(start - back, None);
        costs(&self.rows, &at)
    }

    /// Counters over the whole log.
    pub fn stats_overview(&self, now: u128) -> (r: Overview)
        ensures
            r.total_requests == self.rows@.len(),
            r.cache_hits == tally(self.logs(), Mark::Cached),
            r.error_count == tally(self.logs(), Mark::Failure),
            r.recent == span(self.rows@, now - 300 * logging::SECOND, end_of_time()).len(),
            r.p95_latency_ms == nearest_rank(latencies(self.logs(), Timing::All), 95),
    {
        let all = everything(self.rows.len());
        let since: u128 = if now >= 300 * logging::SECOND {
            now - 300 * logging::SECOND
        } else {
            0
        };
        let recent = self.rows_between(since, None);
        proof {
            if now < 300 * logging::SECOND {
                assert(between(0, end_of_time()) =~= between(
                    now - 300 * logging::SECOND,
                    end_of_time(),
                ));
            }
            assert(picked(self.logs(), recent@).len() == recent@.len());
        }
        let lat = timings(&self.rows, &all, Timing::All);
        let (p95, _) = two_ranks(lat, 95, 95);
        Overview {
            total_requests: self.rows.len() as u64,
            cache_hits: count(&self.rows, &all, Mark::Cached),
            error_count: count(&self.rows, &all, Mark::Failure),
            recent: recent.len() as u64,
            p95_latency_ms: p95,
        }
    }

    /// The latest requests, newest first, at most `limit`.
    pub fn recent_requests(&self, limit: usize) -> (r: Vec<Recent>)
        ensures
            r@.len() == if limit <= self.rows@.len() {
                limit as nat
            } else {
                self.rows@.len()
            },
            forall|i: int|
                0 <= i < r@.len() ==> {
                    let row = self.rows@[self.rows@.len() - 1 - i];
                    &&& (#[trigger] r@[i]).id == self.rows@.len() - i
                    &&& r@[i].at == row.at
                    &&& r@[i].log@ == row.log@
                    &&& r@[i].result@ == match text::optional(row.policy_result) {
                        Some(label) => label,
                        None => row.log@.label(),
                    }
                },
    {
        let n: usize = self.rows.len();
        let mut r: Vec<Recent> = Vec::new();
        while r.len() < n && r.len() < limit
            invariant
                n == self.rows@.len(),
                r@.len() <= n,
                r@.len() <= limit,
                forall|i: int|
                    0 <= i < r@.len() ==> {
                        let row = self.rows@[self.rows@.len() - 1 - i];
                        &&& (#[trigger] r@[i]).id == self.rows@.len() - i
                        &&& r@[i].at == row.at
                        &&& r@[i].log@ == row.log@
                        &&& r@[i].result@ == match text::optional(row.policy_result) {
                            Some(label) => label,
                            None => row.log@.label(),
                        }
                    },
            decreases n - r.len(),
        {
            let k: usize = n - 1 - r.len();
            let row = &self.rows[k];
            let result = match &row.policy_result {
                Some(label) => label.clone(),
                None => logging::route_result(
                    row.log.status as i64,
                    row.log.cache_hit,
                    row.log.used_fallback,
                    row.log.degraded,
                    row.log.forced,
                ).to_owned(),
            };
            r.push(Recent { id: (k as u64) + 1, at: row.at, log: row.log.copy(), result });
        }
        r
    }

    /// Figures of each model, the busiest first.
    pub fn model_stats(&self) -> (r: Vec<ModelStat>)
        ensures
            ranked(
                self.logs(),
                GroupBy::Model,
                Seq::new(r@.len(), |i: int| r@[i].key()),
            ),
            forall|i: int|
                0 <= i < r@.len() ==> (#[trigger] r@[i]).describes(
                    members(self.logs(), GroupBy::Model, r@[i].key()),
                ),
    {
        let gs = groups(&self.rows, GroupBy::Model);
        let mut r: Vec<ModelStat> = Vec::new();
        let mut i: usize = 0;
        while i < gs.len()
            invariant
                i <= gs@.len(),
                r@.len() == i,
                forall|g: int|
                    0 <= g < gs@.len() ==> within((#[trigger] gs@[g]).rows@, self.rows@.len())
                        && picked(self.logs(), gs@[g].rows@) == members(
                        self.logs(),
                        GroupBy::Model,
                        gs@[g].key(),
                    ),
                forall|j: int|
                    0 <= j < i ==> (#[trigger] r@[j]).key() == gs@[j].key() && r@[j].describes(
                        members(self.logs(), GroupBy::Model, r@[j].key()),
                    ),
            decreases gs.len() - i,
        {
            let at = &gs[i].rows;
            let lat = timings(&self.rows, at, Timing::All);
            let (p50, p95) = two_ranks(lat, 50, 95);
            assert(picked(self.logs(), at@).len() == at@.len());
            r.push(
                ModelStat {
                    provider: gs[i].first.clone(),
                    model: gs[i].second.clone(),
                    requests: at.len() as u64,
                    successes: count(&self.rows, at, Mark::Success),
                    errors: count(&self.rows, at, Mark::Failure),
                    fallbacks: count(&self.rows, at, Mark::Fallback),
                    cache_hits: count(&self.rows, at, Mark::Cached),
                    tier_sum: sum_tiers(&self.rows, at),
                    p50_latency_ms: p50,
                    p95_latency_ms: p95,
                    costs: costs(&self.rows, at),
                },
            );
            i += 1;
        }
        assert(Seq::new(r@.len(), |i: int| r@[i].key()) =~= keys_of(gs@));
        r
    }

    /// The first `limit` groups with the number of their records, the busiest first.
    fn occurrences(&self, by: GroupBy, limit: usize) -> (r: Vec<Occurrence>)
        requires
            single_key(by),
        ensures
            top_occurrences(self.logs(), by, r@, limit as nat),
    {
        let gs = groups(&self.rows, by);
        let mut r: Vec<Occurrence> = Vec::new();
        let mut i: usize = 0;
        while i < gs.len() && i < limit
            invariant
                i <= gs@.len(),
                i <= limit,
                r@.len() == i,
                single_key(by),
                forall|g: int|
                    0 <= g < gs@.len() ==> within((#[trigger] gs@[g]).rows@, self.rows@.len())
                        && picked(self.logs(), gs@[g].rows@) == members(
                        self.logs(),
                        by,
                        gs@[g].key(),
                    ),
                forall|g: int|
                    0 <= g < gs@.len() ==> members(
                        self.logs(),
                        by,
                        #[trigger] keys_of(gs@)[g],
                    ).len() > 0,
                forall|j: int|
                    0 <= j < i ==> (#[trigger] r@[j]).key() == gs@[j].key() && r@[j].count
                        == members(self.logs(), by, gs@[j].key()).len(),
            decreases gs.len() - i,
        {
            proof {
                let key = gs@[i as int].key();
                assert(keys_of(gs@)[i as int] == key);
                let m = members(self.logs(), by, key);
                self.logs().lemma_filter_pred(in_group(by, key), 0);
                assert(group_key(by, m[0]) == Some(key));
                assert(picked(self.logs(), gs@[i as int].rows@).len()
                    == gs@[i as int].rows@.len());
            }
            r.push(Occurrence { what: gs[i].first.clone(), count: gs[i].rows.len() as u64 });
            i += 1;
        }
        assert(ranked(self.logs(), by, keys_of(gs@)));
        assert forall|i: int| 0 <= i < r@.len() implies (#[trigger] r@[i]).key() == keys_of(
            gs@,
        )[i] && r@[i].count == members(self.logs(), by, keys_of(gs@)[i]).len() by {
            assert(keys_of(gs@)[i] == gs@[i].key());
        }
        r
    }

    /// Counters of routing outcomes, and the five most frequent reasons of rejection.
    pub fn policy_stats(&self) -> (r: PolicyStats)
        ensures
            r.allowed == tally(self.logs(), Mark::Allowed),
            r.rejected == tally(self.logs(), Mark::Rejected),
            r.degraded == tally(self.logs(), Mark::Degraded),
            r.fallback == tally(self.logs(), Mark::Fallback),
            r.cached == tally(self.logs(), Mark::Cached),
            r.forced == tally(self.logs(), Mark::Forced),
            r.forced_rejected == tally(self.logs(), Mark::ForcedRejected),
            r.local_only == tally(self.logs(), Mark::Private),
            top_occurrences(self.logs(), GroupBy::Rejection, r.top_rejection_reasons@, 5),
    {
        let all = everything(self.rows.len());
        PolicyStats {
            allowed: count(&self.rows, &all, Mark::Allowed),
            rejected: count(&self.rows, &all, Mark::Rejected),
            degraded: count(&self.rows, &all, Mark::Degraded),
            fallback: count(&self.rows, &all, Mark::Fallback),
            cached: count(&self.rows, &all, Mark::Cached),
            forced: count(&self.rows, &all, Mark::Forced),
            forced_rejected: count(&self.rows, &all, Mark::ForcedRejected),
            local_only: count(&self.rows, &all, Mark::Private),
            top_rejection_reasons: self.occurrences(GroupBy::Rejection, 5),
        }
    }

    /// Figures of each project, the busiest first; requests without a project run under
    /// `(none)`.
    pub fn project_stats(&self) -> (r: Vec<ProjectStat>)
        ensures
            ranked(
                self.logs(),
                GroupBy::Project,
                Seq::new(r@.len(), |i: int| r@[i].key()),
            ),
            forall|i: int|
                0 <= i < r@.len() ==> (#[trigger] r@[i]).describes(
                    members(self.logs(), GroupBy::Project, r@[i].key()),
                ),
    {
        let gs = groups(&self.rows, GroupBy::Project);
        let mut r: Vec<ProjectStat> = Vec::new();
        let mut i: usize = 0;
        while i < gs.len()
            invariant
                i <= gs@.len(),
                r@.len() == i,
                forall|g: int|
                    0 <= g < gs@.len() ==> within((#[trigger] gs@[g]).rows@, self.rows@.len())
                        && picked(self.logs(), gs@[g].rows@) == members(
                        self.logs(),
                        GroupBy::Project,
                        gs@[g].key(),
                    ),
                forall|g: int|
                    0 <= g < gs@.len() ==> members(
                        self.logs(),
                        GroupBy::Project,
                        #[trigger] keys_of(gs@)[g],
                    ).len() > 0,
                forall|j: int|
                    0 <= j < i ==> (#[trigger] r@[j]).key() == gs@[j].key() && r@[j].describes(
                        members(self.logs(), GroupBy::Project, r@[j].key()),
                    ),
            decreases gs.len() - i,
        {
            let at = &gs[i].rows;
            proof {
                let key = gs@[i as int].key();
                assert(keys_of(gs@)[i as int] == key);
                self.logs().lemma_filter_pred(in_group(GroupBy::Project, key), 0);
                assert(key.1 =~= Seq::<char>::empty());
                assert(picked(self.logs(), at@).len() == at@.len());
            }
            r.push(
                ProjectStat {
                    project: gs[i].first.clone(),
                    requests: at.len() as u64,
                    rejected: count(&self.rows, at, Mark::Rejected),
                    forced: count(&self.rows, at, Mark::Forced),
                    local_only: count(&self.rows, at, Mark::Private),
                    costs: costs(&self.rows, at),
                },
            );
            i += 1;
        }
        assert(Seq::new(r@.len(), |i: int| r@[i].key()) =~= keys_of(gs@));
        r
    }

    /// The median latency of each model that a provider answered for, cache hits left out.
    pub fn model_latency_p50(&self) -> (r: Vec<ModelLatency>)
        ensures
            ranked(
                self.logs(),
                GroupBy::TimedModel,
                Seq::new(r@.len(), |i: int| r@[i].key()),
            ),
            forall|i: int|
                0 <= i < r@.len() ==> (#[trigger] r@[i]).p50_ms == nearest_rank(
                    latencies(
                        members(self.logs(), GroupBy::TimedModel, r@[i].key()),
                        Timing::All,
                    ),
                    50,
                ),
    {
        let gs = groups(&self.rows, GroupBy::TimedModel);
        let mut r: Vec<ModelLatency> = Vec::new();
        let mut i: usize = 0;
        while i < gs.len()
            invariant
                i <= gs@.len(),
                r@.len() == i,
                forall|g: int|
                    0 <= g < gs@.len() ==> within((#[trigger] gs@[g]).rows@, self.rows@.len())
                        && picked(self.logs(), gs@[g].rows@) == members(
                        self.logs(),
                        GroupBy::TimedModel,
                        gs@[g].key(),
                    ),
                forall|j: int|
                    0 <= j < i ==> (#[trigger] r@[j]).key() == gs@[j].key() && r@[j].p50_ms
                        == nearest_rank(
                        latencies(
                            members(self.logs(), GroupBy::TimedModel, r@[j].key()),
                            Timing::All,
                        ),
                        50,
                    ),
            decreases gs.len() - i,
        {
            let lat = timings(&self.rows, &gs[i].rows, Timing::All);
            let (p50, _) = two_ranks(lat, 50, 50);
            r.push(
                ModelLatency {
                    provider: gs[i].first.clone(),
                    model: gs[i].second.clone(),
                    p50_ms: p50,
                },
            );
            i += 1;
        }
        assert(Seq::new(r@.len(), |i: int| r@[i].key()) =~= keys_of(gs@));
        r
    }

    /// The latencies of each group, the one with most samples first.
    fn grouped_latencies(&self, by: GroupBy) -> (r: Vec<LatencyStat>)
        requires
            single_key(by),
        ensures
            ranked(self.logs(), by, Seq::new(r@.len(), |i: int| r@[i].key())),
            forall|i: int|
                0 <= i < r@.len() ==> (#[trigger] r@[i]).describes(
                    members(self.logs(), by, r@[i].key()),
                ),
    {
        let gs = groups(&self.rows, by);
        let mut r: Vec<LatencyStat> = Vec::new();
        let mut i: usize = 0;
        while i < gs.len()
            invariant
                i <= gs@.len(),
                r@.len() == i,
                single_key(by),
                forall|g: int|
                    0 <= g < gs@.len() ==> within((#[trigger] gs@[g]).rows@, self.rows@.len())
                        && picked(self.logs(), gs@[g].rows@) == members(
                        self.logs(),
                        by,
                        gs@[g].key(),
                    ),
                forall|g: int|
                    0 <= g < gs@.len() ==> members(
                        self.logs(),
                        by,
                        #[trigger] keys_of(gs@)[g],
                    ).len() > 0,
                forall|j: int|
                    0 <= j < i ==> (#[trigger] r@[j]).key() == gs@[j].key() && r@[j].describes(
                        members(self.logs(), by, r@[j].key()),
                    ),
            decreases gs.len() - i,
        {
            let at = &gs[i].rows;
            proof {
                let key = gs@[i as int].key();
                assert(keys_of(gs@)[i as int] == key);
                self.logs().lemma_filter_pred(in_group(by, key), 0);
                assert(picked(self.logs(), at@).len() == at@.len());
            }
            let lat = timings(&self.rows, at, Timing::All);
            let (p50, p95) = two_ranks(lat, 50, 95);
            r.push(
                LatencyStat {
                    what: gs[i].first.clone(),
                    p50_ms: p50,
                    p95_ms: p95,
                    samples: at.len() as u64,
                },
            );
            i += 1;
        }
        assert(Seq::new(r@.len(), |i: int| r@[i].key()) =~= keys_of(gs@));
        r
    }

    /// Latencies of providers and task types without cache hits, and of the cache against the
    /// providers.
    pub fn latency_stats(&self) -> (r: LatencyStats)
        ensures
            ranked(
                self.logs(),
                GroupBy::Provider,
                Seq::new(r.by_provider@.len(), |i: int| r.by_provider@[i].key()),
            ),
            forall|i: int|
                0 <= i < r.by_provider@.len() ==> (#[trigger] r.by_provider@[i]).describes(
                    members(self.logs(), GroupBy::Provider, r.by_provider@[i].key()),
                ),
            ranked(
                self.logs(),
                GroupBy::Task,
                Seq::new(r.by_task@.len(), |i: int| r.by_task@[i].key()),
            ),
            forall|i: int|
                0 <= i < r.by_task@.len() ==> (#[trigger] r.by_task@[i]).describes(
                    members(self.logs(), GroupBy::Task, r.by_task@[i].key()),
                ),
            r.cache_hit_p50_ms == nearest_rank(latencies(self.logs(), Timing::Cache), 50),
            r.provider_p50_ms == nearest_rank(latencies(self.logs(), Timing::Provider), 50),
    {
        let all = everything(self.rows.len());
        let cache = timings(&self.rows, &all, Timing::Cache);
        let provider = timings(&self.rows, &all, Timing::Provider);
        let (cache_p50, _) = two_ranks(cache, 50, 50);
        let (provider_p50, _) = two_ranks(provider, 50, 50);
        LatencyStats {
            by_provider: self.grouped_latencies(GroupBy::Provider),
            by_task: self.grouped_latencies(GroupBy::Task),
            cache_hit_p50_ms: cache_p50,
            provider_p50_ms: provider_p50,
        }
    }

    /// Signals of quality: figures per model and task type, why answers stopped, missing tool
    /// calls, and the ten most frequent errors.
    pub fn quality_stats(&self) -> (r: QualityStats)
        ensures
            ranked(
                self.logs(),
                GroupBy::ModelTask,
                Seq::new(r.by_model_task@.len(), |i: int| r.by_model_task@[i].key()),
            ),
            forall|i: int|
                0 <= i < r.by_model_task@.len() ==> (#[trigger] r.by_model_task@[i]).describes(
                    members(self.logs(), GroupBy::ModelTask, r.by_model_task@[i].key()),
                ),
            top_occurrences(
                self.logs(),
                GroupBy::StopReason,
                r.stop_reasons@,
                usize::MAX as nat,
            ),
            r.tool_call_missing == tally(self.logs(), Mark::ToolCallMissing),
            top_occurrences(self.logs(), GroupBy::Rejection, r.error_clusters@, 10),
    {
        let gs = groups(&self.rows, GroupBy::ModelTask);
        let mut by: Vec<ModelTaskStat> = Vec::new();
        let mut i: usize = 0;
        while i < gs.len()
            invariant
                i <= gs@.len(),
                by@.len() == i,
                forall|g: int|
                    0 <= g < gs@.len() ==> within((#[trigger] gs@[g]).rows@, self.rows@.len())
                        && picked(self.logs(), gs@[g].rows@) == members(
                        self.logs(),
                        GroupBy::ModelTask,
                        gs@[g].key(),
                    ),
                forall|j: int|
                    0 <= j < i ==> (#[trigger] by@[j]).key() == gs@[j].key() && by@[j].describes(
                        members(self.logs(), GroupBy::ModelTask, by@[j].key()),
                    ),
            decreases gs.len() - i,
        {
            let at = &gs[i].rows;
            assert(picked(self.logs(), at@).len() == at@.len());
            by.push(
                ModelTaskStat {
                    model: gs[i].first.clone(),
                    task_type: gs[i].second.clone(),
                    requests: at.len() as u64,
                    successes: count(&self.rows, at, Mark::Success),
                    errors: count(&self.rows, at, Mark::Failure),
                    fallbacks: count(&self.rows, at, Mark::Fallback),
                    cache_hits: count(&self.rows, at, Mark::Cached),
                    attempt_sum: sum_attempts(&self.rows, at),
                    tool_call_missing: count(&self.rows, at, Mark::ToolCallMissing),
                },
            );
            i += 1;
        }
        assert(Seq::new(by@.len(), |i: int| by@[i].key()) =~= keys_of(gs@));
        let all = everything(self.rows.len());
        QualityStats {
            by_model_task: by,
            stop_reasons: self.occurrences(GroupBy::StopReason, usize::MAX),
            tool_call_missing: count(&self.rows, &all, Mark::ToolCallMissing),
            error_clusters: self.occurrences(GroupBy::Rejection, 10),
        }
    }

    /// The requests of each of the last `hours` UTC hours, the current one included, oldest
    /// first; an hour without requests is there too.
    pub fn budget_series(&self, hours: usize, now: u128) -> (r: Vec<HourBucket>)
        requires
            now / HOUR + 1 >= hours,
            now <= u128::MAX - HOUR,
        ensures
            r@.len() == hours,
            forall|i: int|
                0 <= i < hours ==> {
                    let start = (now - now % HOUR) - (hours - 1 - i) * HOUR;
                    let logs = span(self.rows@, start, start + HOUR);
                    &&& (#[trigger] r@[i]).hour == start
                    &&& r@[i].requests == logs.len()
                    &&& r@[i].costs@ == costs_of(logs)
                },
    {
        let mut r: Vec<HourBucket> = Vec::new();
        let this: u128 = now / HOUR;
        assert(now - now % HOUR == this * HOUR) by (nonlinear_arith)
            requires
                this == now / HOUR,
                HOUR == 3_600_000_000_000,
        ;
        while r.len() < hours
            invariant
                this == now / HOUR,
                now - now % HOUR == this * HOUR,
                this + 1 >= hours,
                this * HOUR <= now,
                now <= u128::MAX - HOUR,
                r@.len() <= hours,
                forall|i: int|
                    0 <= i < r@.len() ==> {
                        let start = (now - now % HOUR) - (hours - 1 - i) * HOUR;
                        let logs = span(self.rows@, start, start + HOUR);
                        &&& (#[trigger] r@[i]).hour == start
                        &&& r@[i].requests == logs.len()
                        &&& r@[i].costs@ == costs_of(logs)
                    },
            decreases hours - r.len(),
        {
            let back: u128 = (hours - 1 - r.len()) as u128;
            let ghost k = r@.len() as int;
            let nth: u128 = this - back;
            assert(nth * HOUR <= this * HOUR) by (nonlinear_arith)
                requires
                    0 <= nth <= this,
                    HOUR == 3_600_000_000_000,
            ;
            let start: u128 = nth * HOUR;
            assert(start == (now - now % HOUR) - (hours - 1 - k) * HOUR) by (nonlinear_arith)
                requires
                    start == nth * HOUR,
                    nth == this - back,
                    back == hours - 1 - k,
                    now - now % HOUR == this * HOUR,
            ;
            let at = self.rows_between(start, Some(start + HOUR));
            assert(picked(self.logs(), at@).len() == at@.len());
            r.push(
                HourBucket {
                    hour: start,
                    requests: at.len() as u64,
                    costs: costs(&self.rows, &at),
                },
            );
        }
        r
    }
}

/// A percentile is one of the values, a higher percentage gives no smaller one, and its rank is
/// the lowest that reaches the percentage.
pub proof fn law_percentiles(values: Seq<u64>, low: nat, high: nat)
    requires
        values.len() > 0,
        low <= high <= 100,
    ensures
        values.contains(nearest_rank(values, low)),
        nearest_rank(values, low) <= nearest_rank(values, high),
        100 * (rank_index(values.len(), low) + 1) >= values.len() * low,
        low > 0 ==> 100 * rank_index(values.len(), low) < values.len() * low,
{
    lemma_at_most_orders();
    values.lemma_sort_by_ensures(at_most());
    let sorted = ascending(values);
    values.to_multiset_ensures();
    sorted.to_multiset_ensures();
    lemma_rank_index(values.len(), low);
    lemma_rank_index(values.len(), high);
    let n = values.len();
    let a = rank_index(n, low);
    let b = rank_index(n, high);
    assert(n * low <= n * high) by (nonlinear_arith)
        requires
            low <= high,
    ;
    assert(a <= b);
    assert(sorted.contains(sorted[a]));
    if a < b {
        assert(at_most()(sorted[a], sorted[b]));
    }
}

/// A request counts as rejected exactly where its label says so.
pub proof fn law_rejected_as_labelled(v: LogView)
    ensures
        shows(Mark::Rejected, v) <==> v.label() == "rejected"@,
{
    reveal_strlit("rejected");
    reveal_strlit("forced");
    reveal_strlit("cached");
    reveal_strlit("fallback");
    reveal_strlit("degraded");
    reveal_strlit("allowed");
    assert("rejected"@.len() == 8 && "forced"@.len() == 6 && "cached"@.len() == 6);
    assert("allowed"@.len() == 7);
    assert("rejected"@[0] == 'r' && "fallback"@[0] == 'f' && "degraded"@[0] == 'd');
}

/// What the marks of a record mean, by its status and its flags. A status from 200 to 299 is a
/// success; one from 400 on, or none, is a failure.
pub proof fn law_marks(v: LogView)
    ensures
        ({
            let fine = 200 <= v.status <= 299;
            &&& shows(Mark::Success, v) <==> fine
            &&& shows(Mark::Failure, v) <==> v.status == 0 || v.status >= 400
            &&& shows(Mark::Rejected, v) <==> !fine
            &&& shows(Mark::Fallback, v) <==> v.used_fallback
            &&& shows(Mark::Cached, v) <==> v.cache_hit
            &&& shows(Mark::Degraded, v) <==> v.degraded
            &&& shows(Mark::Forced, v) <==> v.forced
            &&& shows(Mark::ForcedRejected, v) <==> v.forced && !fine
            &&& shows(Mark::Private, v) <==> v.task_type == "private_sensitive"@
            &&& shows(Mark::Allowed, v) <==> fine && !v.cache_hit && !v.used_fallback && !v.degraded
                && !v.forced
            &&& shows(Mark::ToolCallMissing, v) <==> fine && v.tools_expected
                && !v.tool_call_present
        }),
{
}

/// Records are counted one by one, each that shows the mark once.
pub proof fn law_tally(front: Seq<LogView>, v: LogView, back: Seq<LogView>, mark: Mark)
    ensures
        tally(Seq::empty(), mark) == 0,
        tally(front + seq![v] + back, mark) == tally(front, mark) + tally(back, mark) + (if shows(
            mark,
            v,
        ) {
            1int
        } else {
            0int
        }),
{
    reveal(Seq::filter);
    Seq::filter_distributes_over_add(front, seq![v], showing(mark));
    Seq::filter_distributes_over_add(front + seq![v], back, showing(mark));
    assert(seq![v].drop_last() =~= Seq::empty());
    assert(seq![v].last() == v);
    assert(seq![v].drop_last().filter(showing(mark)).len() == 0);
}

/// Which records tell a latency: those that succeeded in a time above 0; of these the cached ones
/// tell that of the cache and the others that of the providers.
pub proof fn law_observed(v: LogView)
    ensures
        ({
            let timed = 200 <= v.status <= 299 && v.latency_ms > 0;
            &&& observed(Timing::All, v) <==> timed
            &&& observed(Timing::Cache, v) <==> timed && v.cache_hit
            &&& observed(Timing::Provider, v) <==> timed && !v.cache_hit
        }),
{
}

/// How records are grouped, by their status and fields.
pub proof fn law_groups(v: LogView)
    ensures
        ({
            let none: Option<(Seq<char>, Seq<char>)> = None;
            let fine = 200 <= v.status <= 299;
            let timed = fine && v.latency_ms > 0 && !v.cache_hit;
            let empty: Seq<char> = Seq::empty();
            &&& group_key(GroupBy::Model, v) == if v.model.len() > 0 {
                Some((v.provider, v.model))
            } else {
                none
            }
            &&& group_key(GroupBy::ModelTask, v) == if v.model.len() > 0 {
                Some((v.model, v.task_type))
            } else {
                none
            }
            &&& group_key(GroupBy::Project, v) == match v.project {
                Some(p) => Some((p, empty)),
                None => Some(("(none)"@, empty)),
            }
            &&& group_key(GroupBy::Provider, v) == if timed && v.provider.len() > 0 {
                Some((v.provider, empty))
            } else {
                none
            }
            &&& group_key(GroupBy::Task, v) == if timed && v.task_type.len() > 0 {
                Some((v.task_type, empty))
            } else {
                none
            }
            &&& group_key(GroupBy::TimedModel, v) == if timed && v.model.len() > 0 {
                Some((v.provider, v.model))
            } else {
                none
            }
            &&& group_key(GroupBy::StopReason, v) == if fine {
                match v.stop_reason {
                    Some(r) => Some((r, empty)),
                    None => Some(("(none)"@, empty)),
                }
            } else {
                none
            }
            &&& group_key(GroupBy::Rejection, v) == if fine {
                none
            } else {
                match v.error {
                    Some(e) => Some((e, empty)),
                    None => Some(("status "@ + text::decimal(v.status as nat), empty)),
                }
            }
        }),
{
}

/// Groups are listed each once, those with more records first; no group is left out, and none is
/// empty.
pub proof fn law_busiest_groups_first(
    logs: Seq<LogView>,
    by: GroupBy,
    keys: Seq<(Seq<char>, Seq<char>)>,
    i: int,
    j: int,
    r: int,
)
    requires
        ranked(logs, by, keys),
        0 <= i < j < keys.len(),
        0 <= r < logs.len(),
    ensures
        keys[i] != keys[j],
        members(logs, by, keys[i]).len() >= members(logs, by, keys[j]).len() > 0,
        group_key(by, logs[r]) matches Some(k) ==> keys.contains(k),
{
    assert(busier(logs, by, keys[i], keys[j]));
    assert(members(logs, by, keys[j]).len() > 0);
}

/// The values that are at most `limit`.
pub open spec fn up_to(limit: u64) -> spec_fn(u64) -> bool {
    |v: u64| v <= limit
}

/// The values that are below `limit`.
pub open spec fn less_than(limit: u64) -> spec_fn(u64) -> bool {
    |v: u64| v < limit
}

proof fn lemma_filter_counts(s: Seq<u64>, f: spec_fn(u64) -> bool)
    ensures
        s.filter(f).to_multiset() == s.to_multiset().filter(f),
    decreases s.len(),
{
    broadcast use vstd::multiset::group_multiset_axioms;

    reveal(Seq::filter);
    if s.len() == 0 {
        s.to_multiset_ensures();
        s.filter(f).to_multiset_ensures();
        assert(s =~= Seq::empty());
        assert(s.filter(f) =~= Seq::empty());
        vstd::seq_lib::to_multiset_len(s);
        assert(s.to_multiset().len() == 0);
        assert forall|v: u64| s.to_multiset().count(v) == 0 by {
            vstd::seq_lib::to_multiset_contains(s, v);
        }
        assert(s.filter(f).to_multiset() =~= s.to_multiset().filter(f));
    } else {
        let rest = s.drop_last();
        lemma_filter_counts(rest, f);
        assert(s =~= rest.push(s.last()));
        vstd::seq_lib::to_multiset_build(rest, s.last());
        vstd::seq_lib::to_multiset_build(rest.filter(f), s.last());
        assert(s.filter(f).to_multiset() =~= s.to_multiset().filter(f));
    }
}

proof fn lemma_all_pass(s: Seq<u64>, f: spec_fn(u64) -> bool)
    ensures
        (forall|i: int| 0 <= i < s.len() ==> f(#[trigger] s[i])) ==> s.filter(f).len() == s.len(),
        (forall|i: int| 0 <= i < s.len() ==> !f(#[trigger] s[i])) ==> s.filter(f).len() == 0,
    decreases s.len(),
{
    reveal(Seq::filter);
    if s.len() > 0 {
        let rest = s.drop_last();
        lemma_all_pass(rest, f);
        assert forall|i: int| 0 <= i < rest.len() implies rest[i] == #[trigger] s[i] by {}
        if forall|i: int| 0 <= i < s.len() ==> f(#[trigger] s[i]) {
            assert forall|i: int| 0 <= i < rest.len() implies f(#[trigger] rest[i]) by {
                assert(f(s[i]));
            }
            assert(f(s[s.len() - 1]));
        }
        if forall|i: int| 0 <= i < s.len() ==> !f(#[trigger] s[i]) {
            assert forall|i: int| 0 <= i < rest.len() implies !f(#[trigger] rest[i]) by {
                assert(!f(s[i]));
            }
            assert(!f(s[s.len() - 1]));
        }
    }
}

/// What a percentile is: at least that percentage of the values lie at or below it, and fewer lie
/// below it. Without values it is 0.
pub proof fn law_percentile_divides_the_values(values: Seq<u64>, percent: nat)
    requires
        percent <= 100,
    ensures
        ({
            let p = nearest_rank(values, percent);
            &&& values.len() == 0 ==> p == 0
            &&& values.len() > 0 ==> values.contains(p)
            &&& values.len() > 0 ==> 100 * values.filter(up_to(p)).len() >= percent * values.len()
            &&& values.len() > 0 && percent > 0 ==> 100 * values.filter(less_than(p)).len()
                < percent * values.len()
            &&& values.len() > 0 && percent == 0 ==> values.filter(less_than(p)).len() == 0
        }),
{
    let n = values.len();
    if n > 0 {
        law_percentiles(values, percent, percent);
        lemma_at_most_orders();
        values.lemma_sort_by_ensures(at_most());
        let sorted = ascending(values);
        lemma_rank_index(n, percent);
        vstd::seq_lib::to_multiset_len(values);
        vstd::seq_lib::to_multiset_len(sorted);
        let a = rank_index(n, percent);
        let p = nearest_rank(values, percent);
        assert(p == sorted[a]);
        let low = sorted.subrange(0, a + 1);
        let high = sorted.subrange(a + 1, n as int);
        let front = sorted.subrange(0, a);
        let back = sorted.subrange(a, n as int);
        assert(sorted =~= low + high);
        assert(sorted =~= front + back);
        let f = up_to(p);
        let g = less_than(p);
        Seq::filter_distributes_over_add(low, high, f);
        Seq::filter_distributes_over_add(front, back, g);
        lemma_all_pass(low, f);
        lemma_all_pass(back, g);
        front.lemma_filter_len(g);
        assert forall|i: int| 0 <= i < low.len() implies f(#[trigger] low[i]) by {
            if i < a {
                assert(at_most()(sorted[i], sorted[a]));
            }
        }
        assert forall|i: int| 0 <= i < back.len() implies !g(#[trigger] back[i]) by {
            if i > 0 {
                assert(at_most()(sorted[a], sorted[a + i]));
            }
        }
        lemma_filter_counts(values, f);
        lemma_filter_counts(sorted, f);
        lemma_filter_counts(values, g);
        lemma_filter_counts(sorted, g);
        vstd::seq_lib::to_multiset_len(values.filter(f));
        vstd::seq_lib::to_multiset_len(sorted.filter(f));
        vstd::seq_lib::to_multiset_len(values.filter(g));
        vstd::seq_lib::to_multiset_len(sorted.filter(g));
        assert(percent * n == n * percent) by (nonlinear_arith);
    }
}

/// Totals add up record by record.
pub proof fn law_totals(front: Seq<LogView>, v: LogView, back: Seq<LogView>)
    ensures
        tier_total(Seq::empty()) == 0,
        attempt_total(Seq::empty()) == 0,
        tier_total(front + seq![v] + back) == tier_total(front) + v.tier + tier_total(back),
        attempt_total(front + seq![v] + back) == attempt_total(front) + v.attempts + attempt_total(
            back,
        ),
    decreases back.len(),
{
    let all = front + seq![v] + back;
    if back.len() == 0 {
        assert(all.drop_last() =~= front);
        assert(all.last() == v);
    } else {
        law_totals(front, v, back.drop_last());
        assert(all.drop_last() =~= front + seq![v] + back.drop_last());
        assert(all.last() == back.last());
    }
}

/// A day starts at a multiple of 24 hours and holds the instant; a month starts so many days
/// earlier as have passed of it.
pub proof fn law_day_and_month(now: u128)
    ensures
        day_start(now) <= now < day_start(now) + 86_400_000_000_000,
        day_start(now) % 86_400_000_000_000 == 0,
        month_start(now) == day_start(now) - (month_day((now / 1_000_000_000) as i64) - 1)
            * 86_400_000_000_000,
{
}

/// Which records fall into a span of time: those from its beginning on and before its end, in
/// their order.
pub proof fn law_span(front: Seq<LogRow>, row: LogRow, back: Seq<LogRow>, from: int, to: int)
    ensures
        span(Seq::empty(), from, to).len() == 0,
        span(front + seq![row] + back, from, to) == span(front, from, to) + (if from <= row.at
            && row.at < to {
            seq![row.log@]
        } else {
            Seq::empty()
        }) + span(back, from, to),
{
    reveal(Seq::filter);
    let f = between(from, to);
    Seq::filter_distributes_over_add(front, seq![row], f);
    Seq::filter_distributes_over_add(front + seq![row], back, f);
    assert(seq![row].drop_last() =~= Seq::empty());
    assert(seq![row].last() == row);
    assert(seq![row].drop_last().filter(f) =~= Seq::empty());
    assert(seq![row].filter(f) =~= if from <= row.at && row.at < to {
        seq![row]
    } else {
        Seq::empty()
    });
    assert(span(front + seq![row] + back, from, to) =~= span(front, from, to) + (if from <= row.at
        && row.at < to {
        seq![row.log@]
    } else {
        Seq::empty()
    }) + span(back, from, to));
}

proof fn lemma_same_filter(logs: Seq<LogView>, f: spec_fn(LogView) -> bool, g: spec_fn(LogView) -> bool)
    requires
        forall|v: LogView| #[trigger] f(v) == g(v),
    ensures
        logs.filter(f) == logs.filter(g),
    decreases logs.len(),
{
    reveal(Seq::filter);
    if logs.len() > 0 {
        lemma_same_filter(logs.drop_last(), f, g);
        assert(f(logs.last()) == g(logs.last()));
    }
}

/// What the counters of the marks count, by status and flags.
pub proof fn law_counters(logs: Seq<LogView>)
    ensures
        tally(logs, Mark::Success) == logs.filter(|v: LogView| 200 <= v.status <= 299).len(),
        tally(logs, Mark::Failure) == logs.filter(
            |v: LogView| v.status == 0 || v.status >= 400,
        ).len(),
        tally(logs, Mark::Rejected) == logs.filter(|v: LogView| !(200 <= v.status <= 299)).len(),
        tally(logs, Mark::Fallback) == logs.filter(|v: LogView| v.used_fallback).len(),
        tally(logs, Mark::Cached) == logs.filter(|v: LogView| v.cache_hit).len(),
        tally(logs, Mark::Forced) == logs.filter(|v: LogView| v.forced).len(),
        tally(logs, Mark::Private) == logs.filter(
            |v: LogView| v.task_type == "private_sensitive"@,
        ).len(),
        tally(logs, Mark::ToolCallMissing) == logs.filter(
            |v: LogView|
                v.tools_expected && !v.tool_call_present && 200 <= v.status <= 299,
        ).len(),
{
    lemma_same_filter(logs, showing(Mark::Success), |v: LogView| 200 <= v.status <= 299);
    lemma_same_filter(
        logs,
        showing(Mark::Failure),
        |v: LogView| v.status == 0 || v.status >= 400,
    );
    lemma_same_filter(logs, showing(Mark::Rejected), |v: LogView| !(200 <= v.status <= 299));
    lemma_same_filter(logs, showing(Mark::Fallback), |v: LogView| v.used_fallback);
    lemma_same_filter(logs, showing(Mark::Cached), |v: LogView| v.cache_hit);
    lemma_same_filter(logs, showing(Mark::Forced), |v: LogView| v.forced);
    lemma_same_filter(
        logs,
        showing(Mark::Private),
        |v: LogView| v.task_type == "private_sensitive"@,
    );
    lemma_same_filter(
        logs,
        showing(Mark::ToolCallMissing),
        |v: LogView| v.tools_expected && !v.tool_call_present && 200 <= v.status <= 299,
    );
}

/// Which latencies are looked at: those of successful requests that took a time, of all, of cached
/// or of forwarded ones, in their order.
pub proof fn law_latencies(logs: Seq<LogView>)
    ensures
        latencies(logs, Timing::All) == logs.filter(
            |v: LogView| 200 <= v.status <= 299 && v.latency_ms > 0,
        ).map_values(|v: LogView| v.latency_ms),
        latencies(logs, Timing::Cache) == logs.filter(
            |v: LogView| 200 <= v.status <= 299 && v.latency_ms > 0 && v.cache_hit,
        ).map_values(|v: LogView| v.latency_ms),
        latencies(logs, Timing::Provider) == logs.filter(
            |v: LogView| 200 <= v.status <= 299 && v.latency_ms > 0 && !v.cache_hit,
        ).map_values(|v: LogView| v.latency_ms),
{
    let all = |v: LogView| 200 <= v.status <= 299 && v.latency_ms > 0;
    let cache = |v: LogView| 200 <= v.status <= 299 && v.latency_ms > 0 && v.cache_hit;
    let provider = |v: LogView| 200 <= v.status <= 299 && v.latency_ms > 0 && !v.cache_hit;
    lemma_same_filter(logs, observing(Timing::All), all);
    lemma_same_filter(logs, observing(Timing::Cache), cache);
    lemma_same_filter(logs, observing(Timing::Provider), provider);
    assert(latencies(logs, Timing::All) =~= logs.filter(all).map_values(
        |v: LogView| v.latency_ms,
    ));
    assert(latencies(logs, Timing::Cache) =~= logs.filter(cache).map_values(
        |v: LogView| v.latency_ms,
    ));
    assert(latencies(logs, Timing::Provider) =~= logs.filter(provider).map_values(
        |v: LogView| v.latency_ms,
    ));
}

/// What the figures of a model say of its records: how many there are, how many succeeded, failed,
/// went to a fallback and came from the cache, the sum of their tiers, the middle and the 95th
/// percentile of their latencies, and what each has cost.
pub proof fn law_figures_of_a_model(s: ModelStat, logs: Seq<LogView>)
    requires
        s.describes(logs),
    ensures
        s.requests == logs.len(),
        s.successes == logs.filter(|v: LogView| 200 <= v.status <= 299).len(),
        s.errors == logs.filter(|v: LogView| v.status == 0 || v.status >= 400).len(),
        s.fallbacks == logs.filter(|v: LogView| v.used_fallback).len(),
        s.cache_hits == logs.filter(|v: LogView| v.cache_hit).len(),
        s.tier_sum == tier_total(logs),
        s.p50_latency_ms == nearest_rank(latencies(logs, Timing::All), 50),
        s.p95_latency_ms == nearest_rank(latencies(logs, Timing::All), 95),
        s.costs@.len() == logs.len(),
        forall|i: int| 0 <= i < logs.len() ==> #[trigger] s.costs@[i] == logs[i].real_cost_usd,
        s.key() == (s.provider@, s.model@),
{
    law_counters(logs);
}

/// What the figures of a model on a type of task say of its records.
pub proof fn law_figures_of_a_task(s: ModelTaskStat, logs: Seq<LogView>)
    requires
        s.describes(logs),
    ensures
        s.requests == logs.len(),
        s.successes == logs.filter(|v: LogView| 200 <= v.status <= 299).len(),
        s.errors == logs.filter(|v: LogView| v.status == 0 || v.status >= 400).len(),
        s.fallbacks == logs.filter(|v: LogView| v.used_fallback).len(),
        s.cache_hits == logs.filter(|v: LogView| v.cache_hit).len(),
        s.attempt_sum == attempt_total(logs),
        s.tool_call_missing == logs.filter(
            |v: LogView|
                v.tools_expected && !v.tool_call_present && 200 <= v.status <= 299,
        ).len(),
        s.key() == (s.model@, s.task_type@),
{
    law_counters(logs);
}

/// What the figures of a project say of its records.
pub proof fn law_figures_of_a_project(s: ProjectStat, logs: Seq<LogView>)
    requires
        s.describes(logs),
    ensures
        s.requests == logs.len(),
        s.rejected == logs.filter(|v: LogView| !(200 <= v.status <= 299)).len(),
        s.forced == logs.filter(|v: LogView| v.forced).len(),
        s.local_only == logs.filter(|v: LogView| v.task_type == "private_sensitive"@).len(),
        s.costs@.len() == logs.len(),
        forall|i: int| 0 <= i < logs.len() ==> #[trigger] s.costs@[i] == logs[i].real_cost_usd,
{
    law_counters(logs);
}

/// What the latencies of a group say of its records.
pub proof fn law_figures_of_latencies(s: LatencyStat, logs: Seq<LogView>)
    requires
        s.describes(logs),
    ensures
        s.samples == logs.len(),
        s.p50_ms == nearest_rank(latencies(logs, Timing::All), 50),
        s.p95_ms == nearest_rank(latencies(logs, Timing::All), 95),
{
}

/// A list of occurrences has at most as many entries as asked for, the more frequent first, and
/// where it has fewer none is left out.
pub proof fn law_occurrences(
    logs: Seq<LogView>,
    by: GroupBy,
    s: Seq<Occurrence>,
    limit: nat,
    i: int,
    j: int,
    r: int,
)
    requires
        top_occurrences(logs, by, s, limit),
        0 <= i < j < s.len(),
        0 <= r < logs.len(),
    ensures
        s.len() <= limit,
        s[i].count >= s[j].count > 0,
        s[i].what@ != s[j].what@,
        s[i].count == members(logs, by, (s[i].what@, Seq::empty())).len(),
        s.len() < limit ==> (group_key(by, logs[r]) matches Some(k) ==> exists|n: int|
            0 <= n < s.len() && (#[trigger] s[n]).what@ == k.0),
{
    let keys = choose|keys: Seq<(Seq<char>, Seq<char>)>|
        #![trigger ranked(logs, by, keys)]
        {
            &&& ranked(logs, by, keys)
            &&& s.len() == if keys.len() <= limit {
                keys.len()
            } else {
                limit
            }
            &&& forall|i: int|
                0 <= i < s.len() ==> (#[trigger] s[i]).key() == keys[i] && s[i].count == members(
                    logs,
                    by,
                    keys[i],
                ).len()
        };
    assert(s[i].key() == keys[i] && s[j].key() == keys[j]);
    law_busiest_groups_first(logs, by, keys, i, j, r);
    if s.len() < limit && group_key(by, logs[r]) is Some {
        let k = group_key(by, logs[r])->Some_0;
        let n = choose|n: int| 0 <= n < keys.len() && keys[n] == k;
        assert(s[n].key() == keys[n]);
    }
}

} // verus!
