use mindcache::compress::{create_compressed_memory, extract_key_points, compression_summary};
use mindcache::decay::{
    age_bucket, analyze_age_distribution, get_decay_recommendations, plan_compression,
    select_purgeable, update_policy, AgeBucket, DecayPolicy, DecayStats,
};
use mindcache::models::{DecayStatus, MemoryItem, QueryFilter};
use mindcache::pagination::PaginatedResponse;
use mindcache::query::{build_recall_query, SqlParam};
use mindcache::rank::top_k;
use mindcache::schema::{get_migrations, latest_version, pending_migrations};
use mindcache::service::{
    apply_update, batch_tokens, prepare_memory, search_filter, search_keywords,
    user_memory_stats, MemoryUpdate, UNSET_TIME,
};
use mindcache::session::generate_summary_text;
use mindcache::text::{is_compression_stop_word, is_stop_word, tokenize};
use mindcache::batch::BatchResponse;
use mindcache::decay::{next_phase, quota_evictions, DecayPhase, PhaseOutcome};
use mindcache::session::{
    select_sessions, session_analytics, sessions_to_summarize, topic_term_stats, Session,
};
use mindcache::validation::{MindCacheConfig, RequestValidator, ValidationError};


const HOUR: i64 = 3600;
const NOW: i64 = 1_700_000_000;

fn memory(id: &str, session: &str, content: &str, importance: u32, created_at: i64) -> MemoryItem {
    MemoryItem {
        id: id.to_string(),
        user_id: "test_user".to_string(),
        session_id: session.to_string(),
        content: content.to_string(),
        importance,
        created_at,
        ..Default::default()
    }
}

#[test]
fn test_decay_policy_update() {
    let mut policy = DecayPolicy::default();
    let new_policy = DecayPolicy {
        max_age_hours: 48,
        importance_threshold: 500,
        max_memories_per_user: 5000,
        compression_enabled: false,
        auto_summarize_sessions: false,
    };

    assert!(update_policy(&mut policy, new_policy));
    assert_eq!(policy.max_age_hours, 48);
    assert_eq!(policy.importance_threshold, 500);
    assert!(!policy.compression_enabled);

    let bad = DecayPolicy {
        max_age_hours: 0,
        ..DecayPolicy::default()
    };
    assert!(!update_policy(&mut policy, bad));
    assert_eq!(policy.max_age_hours, 48);
}

#[test]
fn test_compression_summary_generation() {
    let memories = vec![
        memory("a", "session1", "First memory about trading stocks", 200, NOW - 2 * HOUR),
        memory("b", "session1", "Second memory about market analysis", 300, NOW - HOUR),
    ];

    let summary = compression_summary(&memories, &vec![0, 1]);
    assert!(summary.contains("[COMPRESSED]"));
    assert!(summary.contains("2 memories"));
    assert!(summary.contains("trading") || summary.contains("market"));
    assert_eq!(
        summary,
        "[COMPRESSED] 2 memories over 1 hours: Second memory about market analysis | First memory about trading stocks"
    );
}

#[test]
fn compression_excerpts_are_cut_at_fifty_chars() {
    let long = "x".repeat(60);
    let memories = vec![memory("a", "s", &long, 100, NOW)];
    let summary = compression_summary(&memories, &vec![0]);
    assert_eq!(summary, format!("[COMPRESSED] 1 memories: {}...", "x".repeat(50)));
}

#[test]
fn test_key_points_extraction() {
    let memories = vec![
        memory("a", "s", "Trading stocks in the market today with analysis", 500, NOW),
        memory("b", "s", "Stock market analysis shows positive trading trends", 500, NOW),
    ];

    let key_points = extract_key_points(&memories, &vec![0, 1]);

    assert!(
        key_points.contains(&"trading".to_string())
            || key_points.contains(&"market".to_string())
            || key_points.contains(&"analysis".to_string())
    );
    assert!(!key_points.contains(&"the".to_string()));
    assert!(!key_points.contains(&"in".to_string()));
    // most frequent first, ties in order of first appearance
    assert_eq!(key_points, vec!["trading", "market", "analysis", "stocks", "today"]);
}

#[test]
fn test_stop_word_detection() {
    assert!(is_compression_stop_word("the"));
    assert!(is_compression_stop_word("and"));
    assert!(is_compression_stop_word("in"));
    assert!(!is_compression_stop_word("trading"));
    assert!(!is_compression_stop_word("analysis"));
}

#[test]
fn general_stop_words() {
    assert!(is_stop_word("a"));
    assert!(is_stop_word("they"));
    assert!(!is_stop_word("The"));
    assert!(!is_stop_word("market"));
}

#[test]
fn topic_tokens_keep_dashes_and_drop_stop_words() {
    let tokens = tokenize("The quick-brown fox_x jumps, OVER the lazy dog!", true);
    assert_eq!(tokens, vec!["quick-brown", "fox_x", "jumps", "over", "lazy", "dog"]);
    let points = tokenize("The quick-brown fox jumps", false);
    assert_eq!(points, vec!["quickbrown", "jumps"]);
}

#[test]
fn test_create_compressed_memory() {
    let memories = vec![
        memory("mem1", "session1", "First memory", 200, NOW - 2 * HOUR),
        memory("mem2", "session1", "Second memory", 300, NOW - HOUR),
    ];

    let compressed = create_compressed_memory(&memories, &vec![1, 0], "parent".to_string(), NOW);

    assert!(compressed.is_compressed);
    assert_eq!(compressed.compressed_from.len(), 2);
    assert!(compressed.compressed_from.contains(&"mem1".to_string()));
    assert!(compressed.compressed_from.contains(&"mem2".to_string()));
    assert_eq!(compressed.compressed_from, vec!["mem1", "mem2"]);
    assert_eq!(compressed.importance, 250);
    assert!(compressed.content.contains("[COMPRESSED]"));
    assert_eq!(compressed.created_at, NOW - 2 * HOUR);
    assert_eq!(compressed.updated_at, NOW);
    assert_eq!(compressed.expires_at, None);
    assert_eq!(compressed.metadata[0], ("type".to_string(), "compressed".to_string()));
    assert_eq!(compressed.metadata[1], ("original_count".to_string(), "2".to_string()));
    assert_eq!(
        compressed.metadata[2],
        ("key_points".to_string(), "[\"memory\",\"first\",\"second\"]".to_string())
    );
    assert_eq!(
        compressed.metadata[3],
        ("date_range_start".to_string(), "2023-11-14T20:13:20+00:00".to_string())
    );
    assert_eq!(
        compressed.metadata[4],
        ("date_range_end".to_string(), "2023-11-14T21:13:20+00:00".to_string())
    );
}

fn cold(id: &str, session: &str, importance: u32) -> MemoryItem {
    memory(id, session, "cold memory about trading", importance, NOW - 25 * HOUR)
}

#[test]
fn compression_replaces_groups_of_three_or_more() {
    let policy = DecayPolicy {
        max_age_hours: 24,
        importance_threshold: 300,
        compression_enabled: true,
        ..DecayPolicy::default()
    };
    let mut items: Vec<MemoryItem> = (0..5).map(|i| cold(&format!("m{}", i), "s1", 200)).collect();
    items.push(cold("other1", "s2", 200));
    items.push(cold("other2", "s2", 200));
    items.push(cold("keep", "s1", 900));
    items.push(memory("fresh", "s1", "fresh", 100, NOW));
    let plan = plan_compression(&items, &policy, NOW);
    assert_eq!(plan.inserts.len(), 1);
    let parent = &plan.inserts[0];
    assert!(parent.is_compressed);
    assert_eq!(parent.compressed_from, vec!["m0", "m1", "m2", "m3", "m4"]);
    assert_eq!(parent.session_id, "s1");
    assert_eq!(parent.importance, 200);
    assert_eq!(plan.delete_ids, vec!["m0", "m1", "m2", "m3", "m4"]);
}

#[test]
fn purge_selects_old_unimportant() {
    let policy = DecayPolicy {
        max_age_hours: 24,
        importance_threshold: 300,
        ..DecayPolicy::default()
    };
    let items = vec![
        cold("a", "s", 200),
        cold("b", "s", 300),
        memory("c", "s", "new", 100, NOW - HOUR),
        memory("d", "s", "edge", 100, NOW - 24 * HOUR),
    ];
    assert_eq!(select_purgeable(&items, &policy, NOW), vec![0, 3]);
}

#[test]
fn decay_stats_lifecycle() {
    let mut stats = DecayStats::begin("run".to_string(), NOW);
    assert_eq!(stats.status, DecayStatus::Running);
    stats.memories_expired = 2;
    stats.memories_compressed = 3;
    stats.finish(7, NOW + 5);
    assert_eq!(stats.status, DecayStatus::Completed);
    assert_eq!(stats.storage_saved_bytes, 5 * 1024);
    assert_eq!(stats.total_memories_after, 7);
    assert_eq!(stats.completed_at, Some(NOW + 5));

    let mut failed = DecayStats::begin("run2".to_string(), NOW);
    failed.phase_failed("Compression failed: disk".to_string());
    failed.finish(0, NOW);
    assert_eq!(failed.status, DecayStatus::Failed);
    assert_eq!(failed.error_message, Some("Compression failed: disk".to_string()));
}

#[test]
fn test_age_distribution_analysis() {
    let distribution = analyze_age_distribution(&vec![], NOW);
    assert_eq!(distribution.day + distribution.older, 0);

    let created = vec![NOW, NOW - 25 * HOUR, NOW - 200 * HOUR, NOW - 800 * HOUR, NOW - 3000 * HOUR, NOW - 9000 * HOUR, NOW + HOUR];
    let d = analyze_age_distribution(&created, NOW);
    assert_eq!((d.day, d.week, d.month, d.quarter, d.year, d.older), (1, 1, 1, 1, 1, 2));
    assert_eq!(age_bucket(NOW - 24 * HOUR, NOW), AgeBucket::Day);
    assert_eq!(age_bucket(NOW - 9000 * HOUR, NOW).label(), "1y+");
}

#[test]
fn test_decay_recommendations() {
    let policy = DecayPolicy::default();
    let empty = analyze_age_distribution(&vec![], NOW);
    let recommendations = get_decay_recommendations(empty, &policy);
    assert_eq!(recommendations.total_memories, 0);
    assert_eq!(recommendations.old_memory_percent, 0);
    assert!(recommendations.recommendations.is_empty());

    let old = analyze_age_distribution(&vec![NOW - 9000 * HOUR, NOW - 9000 * HOUR, NOW - 3000 * HOUR, NOW], NOW);
    let r = get_decay_recommendations(old, &policy);
    assert_eq!(r.old_memory_percent, 75);
    assert_eq!(r.estimated_cleanup_count, 3);
    assert_eq!(r.suggested_max_age_hours, Some(360));
    assert_eq!(r.recommendations, vec!["Consider running decay process - over 50% of memories are old"]);
}

#[test]
fn pagination_walk_visits_every_row_once() {
    let rows: Vec<u32> = (0..25).collect();
    let first = PaginatedResponse::paginate(rows.clone(), 10, 0);
    assert_eq!(first.data, (0..10).collect::<Vec<u32>>());
    assert_eq!((first.page, first.per_page, first.total_count, first.total_pages), (0, 10, 25, 3));
    assert!(first.has_next && !first.has_prev);
    let middle = PaginatedResponse::paginate(rows.clone(), 10, 10);
    assert_eq!(middle.page, 1);
    assert!(middle.has_next && middle.has_prev);
    let last = PaginatedResponse::paginate(rows.clone(), 10, 20);
    assert_eq!(last.data, (20..25).collect::<Vec<u32>>());
    assert!(!last.has_next && last.has_prev);
    let beyond = PaginatedResponse::paginate(rows.clone(), 10, 30);
    assert!(beyond.is_empty());
    assert_eq!(beyond.total_count, 25);
    let mut walked = Vec::new();
    for k in 0..3 {
        walked.extend(PaginatedResponse::paginate(rows.clone(), 10, k * 10).data);
    }
    assert_eq!(walked, rows);
}

#[test]
fn scenario_filter_composition_pages() {
    // five rows, pages of two: the first page has a next page and the total
    let page = PaginatedResponse::from_page(vec!["a", "b"], 5, Some(2), Some(0));
    assert_eq!(page.total_count, 5);
    assert!(page.has_next);
    assert_eq!(page.total_pages, 3);
}

#[test]
fn recall_query_binds_expiry_and_filters() {
    let filter = QueryFilter {
        user_id: Some("u".to_string()),
        keywords: Some(vec!["apple".to_string(), "pear".to_string()]),
        min_importance: Some(700),
        limit: Some(10),
        offset: Some(0),
        ..Default::default()
    };
    let q = build_recall_query(&filter, NOW);
    assert_eq!(
        q.count_sql,
        "SELECT COUNT(*) FROM memories WHERE is_compressed = 0 AND (expires_at IS NULL OR expires_at > ?1) AND user_id = ?2 AND importance >= ?3 AND memories.rowid IN (SELECT rowid FROM memories_fts WHERE memories_fts MATCH ?4)"
    );
    assert!(q.select_sql.ends_with("ORDER BY created_at DESC, importance DESC, id ASC LIMIT ?5 OFFSET ?6"));
    assert_eq!(q.params.len(), 6);
    assert!(matches!(q.params[0], SqlParam::Instant(NOW)));
    assert!(matches!(&q.params[3], SqlParam::Text(t) if t == "apple OR pear"));
    assert!(matches!(q.params[4], SqlParam::Int(10)));
}

#[test]
fn migrations_are_ordered_and_pending() {
    let m = get_migrations();
    assert_eq!(m.len(), 1);
    assert_eq!(m[0].version, 1);
    assert_eq!(m[0].description, "Initial schema");
    assert!(m[0].up_sql.contains("CREATE TABLE IF NOT EXISTS memories"));
    assert_eq!(latest_version(&m), 1);
    assert_eq!(pending_migrations(&m, 0), vec![0]);
    assert!(pending_migrations(&m, 1).is_empty());
}

#[test]
fn save_stamps_and_clamps() {
    let m = MemoryItem {
        id: String::new(),
        user_id: "u".to_string(),
        session_id: "s".to_string(),
        content: "Short TTL".to_string(),
        importance: 500,
        ttl_hours: Some(1),
        created_at: UNSET_TIME,
        ..Default::default()
    };
    let p = prepare_memory(m, NOW, "fresh".to_string());
    assert_eq!(p.id, "fresh");
    assert_eq!(p.created_at, NOW);
    assert_eq!(p.updated_at, NOW);
    assert_eq!(p.expires_at, Some(NOW + HOUR));
    assert_eq!(p.content, "Short TTL");

    let clearing = MemoryUpdate {
        content: None,
        importance: Some(2000),
        metadata: None,
        ttl_hours: Some(None),
    };
    let u = apply_update(p, clearing, NOW + 10);
    assert_eq!(u.importance, 1000);
    assert_eq!(u.ttl_hours, None);
    assert_eq!(u.expires_at, None);
    assert_eq!(u.updated_at, NOW + 10);
    assert_eq!(u.id, "fresh");
}

#[test]
fn batch_cost_rounds_up() {
    assert_eq!(batch_tokens(0), 1);
    assert_eq!(batch_tokens(1), 1);
    assert_eq!(batch_tokens(10), 1);
    assert_eq!(batch_tokens(11), 2);
    assert_eq!(batch_tokens(1000), 100);
}

#[test]
fn search_splits_on_white_space() {
    assert_eq!(search_keywords("  apple  pie\tnow "), vec!["apple", "pie", "now"]);
    assert!(search_filter("u", "   ", Some(10), None).is_none());
    let f = search_filter("u", "apple pie", Some(10), Some(5)).unwrap();
    assert_eq!(f.keywords, Some(vec!["apple".to_string(), "pie".to_string()]));
    assert_eq!(f.limit, Some(10));
    assert_eq!(f.offset, Some(5));
}

#[test]
fn user_stats_buckets() {
    let items = vec![
        memory("a", "s", "x", 100, NOW - 10),
        memory("b", "s", "x", 300, NOW),
        memory("c", "s", "x", 500, NOW - 5),
        memory("d", "s", "x", 700, NOW - 20),
        memory("e", "s", "x", 900, NOW - 1),
    ];
    let st = user_memory_stats(&items);
    assert_eq!(st.total_memories, 5);
    assert_eq!(st.avg_importance, 500);
    assert_eq!((st.very_low, st.low, st.medium, st.high), (1, 1, 2, 1));
    assert_eq!(st.oldest_memory, Some(NOW - 20));
    assert_eq!(st.newest_memory, Some(NOW));
}

#[test]
fn session_summary_text() {
    let items = vec![
        memory("a", "s", "Bought apples", 800, NOW - 3 * 86400),
        memory("b", "s", "Sold pears", 500, NOW - 86400),
        memory("c", "s", "Checked prices", 200, NOW),
    ];
    let text = generate_summary_text(&items, &vec!["apples".to_string(), "pears".to_string()]);
    assert_eq!(
        text,
        "Session contains 3 memories over 3 days. Key topics: apples, pears. Notable memories include: \"Bought apples\"; \"Sold pears\"; \"Checked prices\" 1 high-importance items, 1 medium-importance items"
    );
}

#[test]
fn ranking_is_stable() {
    assert_eq!(top_k(&vec![3, 5, 5, 1], 3), vec![1, 2, 0]);
    assert_eq!(top_k(&vec![], 3), Vec::<usize>::new());
}

#[test]
fn scenario_ttl_expiry_is_hidden() {
    let m = MemoryItem {
        user_id: "u".to_string(),
        session_id: "s".to_string(),
        content: "Short TTL".to_string(),
        importance: 500,
        ttl_hours: Some(1),
        created_at: UNSET_TIME,
        ..Default::default()
    };
    let saved = prepare_memory(m, NOW, "x".to_string());
    assert_eq!(saved.expires_at, Some(NOW + HOUR));
    // a recall at any later instant binds that instant to the expiry predicate
    let q = build_recall_query(&QueryFilter::for_user_with_keywords("u", vec![]), NOW + 2 * HOUR);
    assert!(q.count_sql.contains("(expires_at IS NULL OR expires_at > ?1)"));
    assert!(matches!(q.params[0], SqlParam::Instant(t) if t == NOW + 2 * HOUR));
}

#[test]
fn scenario_batch_partial_failure() {
    let validator = RequestValidator::new(MindCacheConfig::default());
    let mut items: Vec<MemoryItem> = (0..3)
        .map(|i| memory(&format!("ok{}", i), "s", "valid", 500, NOW))
        .collect();
    items.push(MemoryItem { user_id: String::new(), ..memory("bad1", "s", "valid", 500, NOW) });
    items.push(memory("bad2", "s", "valid", 2000, NOW));
    let mut response = BatchResponse::<String>::new();
    for m in &items {
        match validator.validate_memory_item(m) {
            Ok(()) => response.add_success(m.id.clone()),
            Err(_) => response.add_error("invalid".to_string()),
        }
    }
    assert_eq!(response.success_count, 3);
    assert_eq!(response.error_count, 2);
    let (ok, total) = response.success_ratio();
    assert!((ok as f32 / total as f32 - 0.6).abs() < 1e-6);
}

#[test]
fn scenario_rate_limiting() {
    let config = MindCacheConfig {
        max_requests_per_minute: 5,
        enable_request_limits: true,
        ..Default::default()
    };
    let mut validator = RequestValidator::new_at(config, NOW);
    for _ in 0..5 {
        assert!(validator.validate_request_at(1, NOW + 10).is_ok());
    }
    assert!(matches!(
        validator.validate_request_at(1, NOW + 20),
        Err(ValidationError::RateLimitExceeded)
    ));
}

#[test]
fn sessions_with_five_old_memories_are_summarized() {
    let mut old: Vec<MemoryItem> = (0..5).map(|i| memory(&format!("a{}", i), "busy", "x", 500, NOW)).collect();
    old.extend((0..4).map(|i| memory(&format!("b{}", i), "quiet", "x", 500, NOW)));
    assert_eq!(sessions_to_summarize(&old), vec!["busy"]);
}

#[test]
fn topic_term_statistics() {
    let items = vec![
        memory("a", "s", "apple pie apple", 500, NOW),
        memory("b", "s", "apple tart", 500, NOW),
    ];
    let stats = topic_term_stats(&items);
    assert_eq!(
        stats,
        vec![
            ("apple".to_string(), 3, 2),
            ("pie".to_string(), 1, 1),
            ("tart".to_string(), 1, 1),
        ]
    );
}

#[test]
fn session_analytics_aggregates() {
    let s = |id: &str, count: usize, last: i64| Session {
        id: id.to_string(),
        user_id: "u".to_string(),
        name: None,
        created_at: last,
        last_active: last,
        memory_count: count,
        tags: vec![],
        metadata: vec![],
    };
    let sessions = vec![s("a", 3, NOW), s("b", 5, NOW - 86400), s("c", 5, NOW - 10)];
    let a = session_analytics("u", &sessions);
    assert_eq!(a.total_sessions, 3);
    assert_eq!(a.total_memories, 13);
    assert_eq!(a.most_active_session, Some(2));
    assert_eq!(a.most_recent_session, Some(0));
    assert_eq!(
        a.activity_by_day,
        vec![("2023-11-14".to_string(), 8), ("2023-11-13".to_string(), 5)]
    );
}

#[test]
fn quota_evicts_least_important_then_oldest() {
    let items = vec![
        memory("a", "s", "x", 500, NOW - 10),
        memory("b", "s", "x", 100, NOW),
        memory("c", "s", "x", 100, NOW - 50),
        memory("d", "s", "x", 900, NOW - 100),
    ];
    assert_eq!(quota_evictions(&items, 2), vec![2, 1]);
    assert!(quota_evictions(&items, 4).is_empty());
}

#[test]
fn decay_phases_run_in_order_and_record() {
    let policy = DecayPolicy { compression_enabled: false, ..DecayPolicy::default() };
    assert_eq!(next_phase(DecayPhase::Purge, &policy), DecayPhase::Summarize);
    let mut stats = DecayStats::begin("r".to_string(), NOW);
    stats.record(DecayPhase::CountBefore, PhaseOutcome::Done(10));
    stats.record(DecayPhase::Expire, PhaseOutcome::Done(2));
    stats.record(DecayPhase::Purge, PhaseOutcome::Done(1));
    stats.record(DecayPhase::Compress, PhaseOutcome::Failed("locked".to_string()));
    assert_eq!(stats.total_memories_before, 10);
    assert_eq!(stats.memories_expired, 3);
    assert_eq!(stats.status, DecayStatus::Failed);
    assert_eq!(stats.error_message, Some("Compression failed: locked".to_string()));
}

#[test]
fn cross_session_search_orders_by_activity() {
    let s = |id: &str, last: i64| Session {
        id: id.to_string(),
        user_id: "u".to_string(),
        name: None,
        created_at: last,
        last_active: last,
        memory_count: 1,
        tags: vec![],
        metadata: vec![],
    };
    let sessions = vec![s("a", NOW - 50), s("b", NOW), s("c", NOW - 5), s("d", NOW)];
    let matched = vec![
        memory("m1", "c", "apple", 500, NOW),
        memory("m2", "a", "apple", 500, NOW),
        memory("m3", "d", "apple", 500, NOW),
        memory("m4", "c", "apple", 500, NOW),
    ];
    assert_eq!(select_sessions(&sessions, &matched), vec![3, 2, 0]);
    assert!(select_sessions(&sessions, &vec![]).is_empty());
}

#[test]
fn user_age_histogram_buckets() {
    let items = vec![
        memory("a", "s", "x", 500, NOW + HOUR),
        memory("b", "s", "x", 500, NOW - 24 * HOUR),
        memory("c", "s", "x", 500, NOW - 100 * HOUR),
        memory("d", "s", "x", 500, NOW - 700 * HOUR),
        memory("e", "s", "x", 500, NOW - 8000 * HOUR),
        memory("f", "s", "x", 500, NOW - 9000 * HOUR),
    ];
    let h = mindcache::service::user_age_histogram(&items, NOW);
    assert_eq!((h.day, h.week, h.month, h.year, h.older), (2, 1, 1, 1, 1));
}

#[test]
fn date_range_upper_bound_is_exclusive() {
    let filter = QueryFilter::date_range("u", NOW - HOUR, NOW);
    let q = build_recall_query(&filter, NOW);
    assert!(q.count_sql.contains("created_at >= ?3 AND created_at < ?4"));
}

#[test]
fn session_summary_is_built_in_chronological_order() {
    let items = vec![
        memory("c", "s", "Checked prices", 200, NOW),
        memory("a", "s", "Bought apples", 800, NOW - 3 * 86400),
        memory("b", "s", "Sold pears", 500, NOW - 86400),
    ];
    let topics = vec!["apples".to_string()];
    let summary = mindcache::session::session_summary("s", &items, &topics, NOW + 5).unwrap();
    assert_eq!(summary.date_range, (NOW - 3 * 86400, NOW));
    assert_eq!(summary.importance_score, 500);
    assert_eq!(summary.memory_count, 3);
    assert_eq!(summary.session_id, "s");
    assert_eq!(summary.user_id, "test_user");
    assert_eq!(summary.key_topics, topics);
    assert_eq!(summary.created_at, NOW + 5);
    assert!(summary.summary_text.starts_with("Session contains 3 memories over 3 days. Key topics: apples."));
    assert!(mindcache::session::session_summary("s", &vec![], &topics, NOW).is_err());
}

#[test]
fn compression_leaves_small_folders_alone() {
    let policy = DecayPolicy {
        max_age_hours: 24,
        importance_threshold: 300,
        ..DecayPolicy::default()
    };
    let items = vec![cold("x1", "s1", 200), cold("x2", "s1", 200)];
    let plan = plan_compression(&items, &policy, NOW);
    assert!(plan.inserts.is_empty());
    assert!(plan.delete_ids.is_empty());
}
