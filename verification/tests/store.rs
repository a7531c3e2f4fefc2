//! The request log and the caches: what is kept, found again, evicted and reported.
use llmux::float::Real;
use llmux::logging::{route_result, CacheRow, RequestLog, SemanticRow, Store};
use llmux::stats::percentile;

const NOW: u128 = 1_700_000_000_000_000_000;
const SECOND: u128 = 1_000_000_000;
const HOUR: u128 = 3600 * SECOND;

fn double(x: f64) -> Real {
    Real::from_bits(x.to_bits())
}

fn float(r: Real) -> f64 {
    f64::from_bits(r.bits)
}

fn total(costs: &[Real]) -> f64 {
    costs.iter().map(|c| float(*c)).sum()
}

fn insert_cache(store: &mut Store, key: &str, expires: u128) {
    store.cache.push(CacheRow {
        key: key.into(),
        model: "m".into(),
        response: "{}".into(),
        created: expires,
        expires,
        hits: 0,
    });
}

fn bits(v: &[f32]) -> Vec<u32> {
    v.iter().map(|f| f.to_bits()).collect()
}

fn cosine(a: &[f32], b: &[u32]) -> f64 {
    let b: Vec<f32> = b.iter().map(|x| f32::from_bits(*x)).collect();
    if a.len() != b.len() || a.is_empty() {
        return 0.0;
    }
    let mut dot = 0.0f32;
    let mut na = 0.0f32;
    let mut nb = 0.0f32;
    for (x, y) in a.iter().zip(b.iter()) {
        dot += x * y;
        na += x * x;
        nb += y * y;
    }
    if na == 0.0 || nb == 0.0 {
        return 0.0;
    }
    (dot / (na.sqrt() * nb.sqrt())) as f64
}

fn lookup(store: &mut Store, scope: &str, query: &[f32], threshold: f64) -> Option<String> {
    let similar: Vec<Real> =
        store.semantic.iter().map(|r| double(cosine(query, &r.embedding))).collect();
    store.semantic_cache_lookup(scope, &similar, double(threshold), NOW)
}

#[test]
fn semantic_cache_hits_above_threshold_misses_below() {
    let mut s = Store::new();
    s.semantic.push(SemanticRow {
        scope: "p/m".into(),
        embedding: bits(&[1.0, 0.0, 0.0]),
        response: r#"{"cached":true}"#.into(),
        created: NOW + HOUR,
        expires: NOW + HOUR,
        hits: 0,
    });
    assert_eq!(
        lookup(&mut s, "p/m", &[0.99, 0.1, 0.0], 0.85).as_deref(),
        Some(r#"{"cached":true}"#)
    );
    assert!(lookup(&mut s, "p/m", &[0.0, 1.0, 0.0], 0.85).is_none());
    assert!(lookup(&mut s, "p/other", &[1.0, 0.0, 0.0], 0.85).is_none());
    assert_eq!(s.semantic[0].hits, 1);
}

#[test]
fn semantic_cache_store_and_evict() {
    let mut s = Store::new();
    s.semantic_cache_store("p/m", bits(&[0.0, 1.0]), r#"{"a":1}"#, 3600, NOW);
    assert_eq!(lookup(&mut s, "p/m", &[0.0, 1.0], 0.9).as_deref(), Some(r#"{"a":1}"#));
    s.semantic.push(SemanticRow {
        scope: "p/m".into(),
        embedding: bits(&[1.0, 0.0]),
        response: "{}".into(),
        created: 946_684_800 * SECOND,
        expires: 946_684_800 * SECOND,
        hits: 0,
    });
    assert_eq!(s.evict_expired_cache(NOW), 1);
    assert_eq!(s.semantic.len(), 1);
}

#[test]
fn the_most_similar_answer_wins() {
    let mut s = Store::new();
    s.semantic_cache_store("p/m", bits(&[1.0, 1.0]), "far", 3600, NOW);
    s.semantic_cache_store("p/m", bits(&[1.0, 0.1]), "near", 3600, NOW);
    assert_eq!(lookup(&mut s, "p/m", &[1.0, 0.0], 0.5).as_deref(), Some("near"));
}

#[test]
fn evict_expired_removes_only_stale_rows() {
    let mut s = Store::new();
    insert_cache(&mut s, "stale", 946_684_800 * SECOND);
    insert_cache(&mut s, "fresh", NOW + HOUR);
    let removed = s.evict_expired_cache(NOW);
    assert_eq!(removed, 1);
    assert_eq!(s.cache.len(), 1);
    assert!(s.cache_lookup("fresh", NOW).is_some());
}

#[test]
fn enforce_cap_bounds_table_to_newest() {
    let mut s = Store::new();
    for (i, key) in ["a", "b", "c"].iter().enumerate() {
        insert_cache(&mut s, key, NOW + HOUR + i as u128 * SECOND);
    }
    let removed = s.enforce_cache_cap(2);
    assert_eq!(removed, 1);
    assert_eq!(s.cache.len(), 2);
    assert!(s.cache_lookup("a", NOW).is_none());
    assert!(s.cache_lookup("c", NOW).is_some());
}

#[test]
fn stored_answers_are_found_until_they_expire() {
    let mut s = Store::new();
    s.cache_store("k", "m", "one", 60, NOW);
    s.cache_store("l", "m", "other", 60, NOW);
    s.cache_store("k", "m", "two", 60, NOW + SECOND);
    assert_eq!(s.cache.len(), 2);
    assert_eq!(s.cache_lookup("k", NOW + 60 * SECOND).as_deref(), Some("two"));
    assert_eq!(s.cache_lookup("k", NOW + 61 * SECOND), None);
    assert_eq!(s.cache_lookup("missing", NOW), None);
    let before = s.cache_lookup("k", NOW + 30 * SECOND);
    s.evict_expired_cache(NOW + 30 * SECOND);
    assert_eq!(s.cache_lookup("k", NOW + 30 * SECOND), before);
}

#[test]
fn policy_result_and_counts_reflect_routing_decisions() {
    let mut s = Store::new();
    let base = || RequestLog {
        model: "m".into(),
        provider: "p".into(),
        status: 200,
        ..Default::default()
    };
    s.insert(base(), NOW);
    s.insert(RequestLog { degraded: true, ..base() }, NOW);
    s.insert(RequestLog { forced: true, ..base() }, NOW);
    s.insert(
        RequestLog {
            status: 403,
            forced: true,
            error: Some("local-only".into()),
            ..Default::default()
        },
        NOW,
    );
    let rows = s.recent_requests(10);
    let results: Vec<&str> = rows.iter().map(|r| r.result.as_str()).collect();
    assert_eq!(results, vec!["rejected", "forced", "degraded", "allowed"]);

    let p = s.policy_stats();
    assert_eq!(p.allowed, 1);
    assert_eq!(p.degraded, 1);
    assert_eq!(p.forced, 2, "gehonorierter + abgelehnter Override");
    assert_eq!(p.forced_rejected, 1);
    assert_eq!(p.rejected, 1);
    assert_eq!(p.top_rejection_reasons.len(), 1);
    assert_eq!(p.top_rejection_reasons[0].what, "local-only");
}

#[test]
fn every_status_outside_2xx_counts_as_rejected() {
    let mut s = Store::new();
    s.insert(RequestLog { status: 302, forced: true, ..Default::default() }, NOW);
    s.insert(RequestLog { status: 200, ..Default::default() }, NOW);
    assert_eq!(s.recent_requests(2)[1].result, "rejected");
    let p = s.policy_stats();
    assert_eq!((p.rejected, p.forced_rejected), (1, 1));
    assert_eq!(p.top_rejection_reasons[0].what, "status 302");
    assert_eq!(s.project_stats()[0].rejected, 1);
}

#[test]
fn labels_follow_their_priority() {
    assert_eq!(route_result(200, false, false, false, false), "allowed");
    assert_eq!(route_result(200, false, false, true, false), "degraded");
    assert_eq!(route_result(200, false, true, true, false), "fallback");
    assert_eq!(route_result(200, true, true, true, false), "cached");
    assert_eq!(route_result(200, true, true, true, true), "forced");
    assert_eq!(route_result(299, false, false, false, false), "allowed");
    assert_eq!(route_result(300, true, true, true, true), "rejected");
}

#[test]
fn latency_stats_aggregate_by_provider_and_task() {
    let mut s = Store::new();
    let base = |task: &str, ms: u64| RequestLog {
        provider: "p1".into(),
        model: "m".into(),
        task_type: task.into(),
        status: 200,
        latency_ms: ms,
        ..Default::default()
    };
    s.insert(base("simple_text", 100), NOW);
    s.insert(base("simple_text", 300), NOW);
    s.insert(RequestLog { cache_hit: true, ..base("code_review", 50) }, NOW);

    let l = s.latency_stats();
    let p1 = l.by_provider.iter().find(|r| r.what == "p1").unwrap();
    assert_eq!(p1.samples, 2, "Cache-Treffer ist ausgeschlossen");
    assert!(p1.p50_ms >= 100);
    assert_eq!((p1.p50_ms, p1.p95_ms), (100, 300));
    assert!(l.by_task.iter().any(|r| r.what == "simple_text"));
    assert!(!l.by_task.iter().any(|r| r.what == "code_review"), "Cache-Zeile zählt nicht");
    assert_eq!(l.cache_hit_p50_ms, 50);
    assert!(l.provider_p50_ms >= 100);
}

#[test]
fn quality_stats_summarize_outcomes() {
    let mut s = Store::new();
    s.insert(
        RequestLog {
            model: "m".into(),
            task_type: "code_review".into(),
            status: 200,
            stop_reason: Some("tool_calls".into()),
            tools_expected: true,
            tool_call_present: true,
            ..Default::default()
        },
        NOW,
    );
    s.insert(
        RequestLog {
            model: "m".into(),
            task_type: "code_review".into(),
            status: 200,
            stop_reason: Some("stop".into()),
            tools_expected: true,
            tool_call_present: false,
            ..Default::default()
        },
        NOW,
    );
    s.insert(
        RequestLog {
            model: "m".into(),
            task_type: "simple_text".into(),
            status: 200,
            used_fallback: true,
            stop_reason: Some("stop".into()),
            ..Default::default()
        },
        NOW,
    );
    s.insert(
        RequestLog {
            model: "m".into(),
            task_type: "simple_text".into(),
            status: 502,
            error: Some("upstream 502".into()),
            ..Default::default()
        },
        NOW,
    );

    let q = s.quality_stats();
    assert_eq!(q.tool_call_missing, 1);
    let cr = q.by_model_task.iter().find(|r| r.task_type == "code_review").unwrap();
    assert_eq!(cr.requests, 2);
    assert_eq!(cr.tool_call_missing, 1);
    let st = q.by_model_task.iter().find(|r| r.task_type == "simple_text").unwrap();
    assert!((st.fallbacks as f64 / st.requests as f64 - 0.5).abs() < 1e-9);
    assert!((st.errors as f64 / st.requests as f64 - 0.5).abs() < 1e-9);
    let count = |reason: &str| {
        q.stop_reasons.iter().find(|r| r.what == reason).map(|r| r.count)
    };
    assert_eq!(count("stop"), Some(2));
    assert_eq!(count("tool_calls"), Some(1));
    assert!(q.error_clusters.iter().any(|r| r.what == "upstream 502"));
}

#[test]
fn project_stats_aggregate_by_scope() {
    let mut s = Store::new();
    let base = || RequestLog { project: Some("client-api".into()), status: 200, ..Default::default() };
    s.insert(RequestLog { real_cost_usd: double(0.05), ..base() }, NOW);
    s.insert(RequestLog { task_type: "private_sensitive".into(), ..base() }, NOW);
    s.insert(RequestLog { status: 502, error: Some("x".into()), ..base() }, NOW);
    s.insert(RequestLog { status: 200, ..Default::default() }, NOW);

    let stats = s.project_stats();
    let client = stats.iter().find(|p| p.project == "client-api").expect("client-api aggregiert");
    assert_eq!(client.requests, 3);
    assert_eq!(client.rejected, 1);
    assert_eq!(client.local_only, 1);
    assert!((total(&client.costs) - 0.05).abs() < 1e-9);
    assert!(stats.iter().any(|p| p.project == "(none)"));
}

#[test]
fn stats_api_reports_overview_and_recent_requests_with_auth() {
    let mut s = Store::new();
    let base = || RequestLog {
        tool: "aider".into(),
        task_type: "simple_text".into(),
        ..Default::default()
    };
    let served = || RequestLog {
        model: "m1".into(),
        provider: "p".into(),
        tier: 1,
        status: 200,
        ..base()
    };
    s.insert(
        RequestLog {
            prompt_tokens: 10,
            completion_tokens: 5,
            real_cost_usd: double(0.01),
            latency_ms: 100,
            ..served()
        },
        NOW,
    );
    s.insert(RequestLog { latency_ms: 5, cache_hit: true, ..served() }, NOW);
    s.insert(RequestLog { status: 502, error: Some("boom".into()), ..base() }, NOW);

    let ov = s.stats_overview(NOW);
    assert_eq!(ov.total_requests, 3);
    assert_eq!(ov.error_count, 1);
    assert!((ov.cache_hits as f64 / ov.total_requests as f64 - 1.0 / 3.0).abs() < 1e-9);
    assert_eq!(ov.p95_latency_ms, 100);
    assert_eq!(ov.recent, 3);
    assert_eq!(s.stats_overview(NOW + 301 * SECOND).recent, 0);

    let rq = s.recent_requests(2);
    assert_eq!(rq.len(), 2);
    assert_eq!(rq[0].log.status, 502);
    assert_eq!(rq[0].result, "rejected");
    assert_eq!(rq[0].log.error.as_deref(), Some("boom"));
    assert_eq!(rq[0].id, 3);
    assert_eq!(rq[1].result, "cached");
    assert!(rq[1].log.cache_hit);
}

#[test]
fn model_stats_count_per_model() {
    let mut s = Store::new();
    let base = |model: &str, status: u16, ms: u64| RequestLog {
        provider: "p".into(),
        model: model.into(),
        tier: 3,
        status,
        latency_ms: ms,
        real_cost_usd: double(0.5),
        ..Default::default()
    };
    s.insert(base("a", 200, 10), NOW);
    s.insert(base("b", 200, 30), NOW);
    s.insert(RequestLog { used_fallback: true, ..base("b", 200, 20) }, NOW);
    s.insert(base("b", 500, 99), NOW);
    let stats = s.model_stats();
    assert_eq!(stats.len(), 2);
    let b = &stats[0];
    assert_eq!((b.provider.as_str(), b.model.as_str()), ("p", "b"));
    assert_eq!((b.requests, b.successes, b.errors, b.fallbacks, b.cache_hits), (3, 2, 1, 1, 0));
    assert_eq!(b.tier_sum, 9);
    assert_eq!((b.p50_latency_ms, b.p95_latency_ms), (20, 30));
    assert!((total(&b.costs) - 1.5).abs() < 1e-9);
    let p50 = s.model_latency_p50();
    assert!(p50.iter().any(|m| m.model == "a" && m.p50_ms == 10));
}

#[test]
fn percentiles_are_nearest_rank() {
    assert_eq!(percentile(&Vec::new(), 50), 0);
    assert_eq!(percentile(&vec![5, 100], 95), 100);
    assert_eq!(percentile(&vec![100, 300], 50), 100);
    assert_eq!(percentile(&vec![100, 300], 51), 300);
    assert_eq!(percentile(&vec![1, 2, 3], 50), 2);
    let ranks: Vec<u64> = (1..=100).collect();
    assert_eq!(percentile(&ranks, 50), 50);
    assert_eq!(percentile(&ranks, 95), 95);
    assert_eq!(percentile(&ranks, 100), 100);
    assert_eq!(percentile(&ranks, 0), 1);
}

#[test]
fn spending_is_counted_per_utc_day_and_month() {
    let mut s = Store::new();
    let cost = |x: f64| RequestLog { real_cost_usd: double(x), ..Default::default() };
    // 1 700 000 000 is 14 November 2023, 22:13:20 UTC.
    s.insert(cost(8.0), NOW - 14 * 24 * HOUR);
    s.insert(cost(4.0), NOW - 13 * 24 * HOUR);
    s.insert(cost(2.0), NOW - 23 * HOUR);
    s.insert(cost(1.0), NOW - 22 * HOUR);
    assert_eq!(total(&s.spent_today(NOW)), 1.0);
    assert_eq!(total(&s.spent_this_month(NOW)), 7.0);
}

#[test]
fn the_budget_series_has_a_bucket_per_hour() {
    let mut s = Store::new();
    let cost = |x: f64| RequestLog { real_cost_usd: double(x), ..Default::default() };
    s.insert(cost(1.0), NOW - 24 * HOUR);
    s.insert(cost(2.0), NOW - 2 * HOUR);
    s.insert(cost(3.0), NOW);
    let series = s.budget_series(24, NOW);
    assert_eq!(series.len(), 24);
    assert_eq!(series[23].hour, NOW - NOW % HOUR);
    assert_eq!(series[0].hour, NOW - NOW % HOUR - 23 * HOUR);
    assert_eq!((series[23].requests, total(&series[23].costs)), (1, 3.0));
    assert_eq!((series[21].requests, total(&series[21].costs)), (1, 2.0));
    assert_eq!(series.iter().map(|b| b.requests).sum::<u64>(), 2);
}
