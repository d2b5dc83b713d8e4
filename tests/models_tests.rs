use mindcache::batch::BatchResponse;
use mindcache::models::{clamp_importance, DecayStatus, MemoryItem, QueryFilter};
use mindcache::pagination::PaginatedResponse;
use mindcache::validation::{MindCacheConfig, RateLimiter, RequestValidator, ValidationError};

#[test]
fn test_paginated_response() {
    let response = PaginatedResponse::<String>::empty();
    assert!(response.is_empty());
    assert_eq!(response.len(), 0);
    assert_eq!(response.total_count, 0);

    let response = PaginatedResponse {
        data: vec!["item1".to_string(), "item2".to_string()],
        total_count: 10,
        page: 0,
        per_page: 2,
        total_pages: 5,
        has_next: true,
        has_prev: false,
    };

    assert!(!response.is_empty());
    assert_eq!(response.len(), 2);
    assert!(response.has_next);
    assert!(!response.has_prev);
}

#[test]
fn test_decay_status() {
    assert_eq!(DecayStatus::Running.to_string(), "running");
    assert_eq!(DecayStatus::Completed.to_string(), "completed");
    assert_eq!(DecayStatus::Failed.to_string(), "failed");

    assert_eq!(
        DecayStatus::from_str("running").unwrap().to_string(),
        "running"
    );
    assert_eq!(
        DecayStatus::from_str("COMPLETED").unwrap().to_string(),
        "completed"
    );
    assert!(DecayStatus::from_str("invalid").is_err());
}

#[test]
fn tests_test_config_validation() {
    let valid_config = MindCacheConfig {
        database_path: "./test.db".to_string(),
        default_memory_ttl_hours: Some(720),
        max_memories_per_user: 10000,
        importance_threshold: 300,
        max_requests_per_minute: 1000,
        max_batch_size: 100,
        ..Default::default()
    };
    assert!(valid_config.validate().is_ok());

    let invalid_ttl = MindCacheConfig {
        default_memory_ttl_hours: Some(0),
        ..Default::default()
    };
    assert!(invalid_ttl.validate().is_err());

    let invalid_threshold = MindCacheConfig {
        importance_threshold: 1500,
        ..Default::default()
    };
    assert!(invalid_threshold.validate().is_err());

    let invalid_batch_size = MindCacheConfig {
        max_batch_size: 0,
        ..Default::default()
    };
    assert!(invalid_batch_size.validate().is_err());
}

#[test]
fn mod_test_config_validation() {
    let mut config = MindCacheConfig::default();
    assert!(config.validate().is_ok());

    config.default_memory_ttl_hours = Some(0);
    assert!(config.validate().is_err());

    config.default_memory_ttl_hours = Some(24);
    config.importance_threshold = 1500;
    assert!(config.validate().is_err());
}

#[test]
fn mod_test_rate_limiter() {
    let mut limiter = RateLimiter::new(10, 60);

    assert!(limiter.try_acquire(5));
    assert!(limiter.try_acquire(5));

    assert!(!limiter.try_acquire(1));
}

#[test]
fn tests_test_rate_limiter() {
    let mut limiter = RateLimiter::new(5, 60);

    assert!(limiter.try_acquire(3));
    assert!(limiter.try_acquire(2));

    assert!(!limiter.try_acquire(1));
}

#[test]
fn rate_limiter_refills_by_whole_minutes() {
    let mut limiter = RateLimiter::new_at(5, 60, 1_000);
    assert!(limiter.try_acquire_at(5, 1_000));
    assert!(!limiter.try_acquire_at(1, 1_059));
    // one minute later the bucket refills at its rate, capped at capacity
    assert!(limiter.try_acquire_at(5, 1_060));
    assert!(!limiter.try_acquire_at(1, 1_060));
    // ten minutes later the bucket is capped at its capacity
    assert!(limiter.try_acquire_at(5, 1_660));
    assert_eq!(limiter.tokens, 0);
}

fn valid_memory() -> MemoryItem {
    MemoryItem {
        user_id: "test_user".to_string(),
        session_id: "test_session".to_string(),
        content: "Valid content".to_string(),
        importance: 500,
        ..Default::default()
    }
}

#[test]
fn mod_test_request_validator() {
    let config = MindCacheConfig {
        enable_request_limits: true,
        max_requests_per_minute: 10,
        max_batch_size: 5,
        ..Default::default()
    };

    let mut validator = RequestValidator::new(config);

    assert!(validator.validate_request(1).is_ok());

    assert!(validator.validate_batch_size(3).is_ok());
    assert!(validator.validate_batch_size(10).is_err());

    assert!(validator.validate_memory_item(&valid_memory()).is_ok());
}

#[test]
fn tests_test_request_validator() {
    let config = MindCacheConfig {
        enable_request_limits: true,
        max_requests_per_minute: 10,
        max_batch_size: 5,
        ..Default::default()
    };

    let mut validator = RequestValidator::new(config);

    assert!(validator.validate_request(1).is_ok());

    assert!(validator.validate_batch_size(3).is_ok());
    assert!(validator.validate_batch_size(10).is_err());

    assert!(validator.validate_memory_item(&valid_memory()).is_ok());

    let invalid_memory = MemoryItem {
        user_id: "".to_string(),
        session_id: "test_session".to_string(),
        content: "Valid content".to_string(),
        importance: 1500,
        ..Default::default()
    };

    assert!(validator.validate_memory_item(&invalid_memory).is_err());
}

#[test]
fn validator_reports_each_error_kind() {
    let config = MindCacheConfig {
        enable_request_limits: true,
        max_requests_per_minute: 2,
        max_batch_size: 5,
        max_memories_per_user: 3,
        ..Default::default()
    };
    let mut validator = RequestValidator::new_at(config, 0);
    assert!(validator.validate_request_at(2, 0).is_ok());
    assert!(matches!(
        validator.validate_request_at(1, 0),
        Err(ValidationError::RateLimitExceeded)
    ));
    assert!(matches!(
        validator.validate_batch_size(6),
        Err(ValidationError::BatchSizeExceeded { size: 6, max: 5 })
    ));
    assert!(validator.validate_user_quota(2).is_ok());
    assert!(matches!(
        validator.validate_user_quota(3),
        Err(ValidationError::UserQuotaExceeded { current: 3, max: 3 })
    ));
    let bad_filter = QueryFilter {
        limit: Some(0),
        ..Default::default()
    };
    assert!(matches!(
        validator.validate_query_filter(&bad_filter),
        Err(ValidationError::InvalidInput { .. })
    ));
}

#[test]
fn limits_off_never_rate_limit() {
    let config = MindCacheConfig {
        enable_request_limits: false,
        max_requests_per_minute: 1,
        ..Default::default()
    };
    let mut validator = RequestValidator::new(config);
    for _ in 0..10 {
        assert!(validator.validate_request(1).is_ok());
    }
}

#[test]
fn test_batch_response() {
    let mut response = BatchResponse::<String>::new();

    assert!(response.is_empty());
    assert!(!response.has_errors());
    let (ok, total) = response.success_ratio();
    assert_eq!(if total == 0 { 0.0 } else { ok as f32 / total as f32 }, 0.0);

    response.add_success("result1".to_string());
    response.add_success("result2".to_string());
    response.add_error("error1".to_string());

    assert!(!response.is_empty());
    assert!(response.has_errors());
    assert_eq!(response.success_count, 2);
    assert_eq!(response.error_count, 1);
    let (ok, total) = response.success_ratio();
    assert_eq!(ok as f32 / total as f32, 2.0 / 3.0);
}

#[test]
fn test_memory_item_validation() {
    let mut memory = MemoryItem {
        user_id: "test_user".to_string(),
        session_id: "test_session".to_string(),
        content: "Valid content".to_string(),
        ..Default::default()
    };

    assert!(memory.validate().is_ok());
    assert!(memory.validate_custom().is_ok());

    memory.content = "   ".to_string();
    assert!(memory.validate_custom().is_err());

    memory.content = "Valid content".to_string();
    memory.importance = 1500;
    assert!(memory.validate().is_err());

    memory.importance = 800;
    memory.is_compressed = true;
    assert!(memory.validate_custom().is_err());

    memory.compressed_from = vec!["mem1".to_string(), "mem2".to_string()];
    assert!(memory.validate_custom().is_ok());
}

#[test]
fn metadata_size_is_bounded() {
    let mut memory = valid_memory();
    memory.metadata = vec![("k".to_string(), "v".repeat(9_999))];
    assert!(memory.validate_custom().is_ok());
    memory.metadata.push(("x".to_string(), String::new()));
    assert!(memory.validate_custom().is_err());
}

#[test]
fn test_query_filter_helpers() {
    let filter = QueryFilter::for_user_with_keywords(
        "user123",
        vec!["trading".to_string(), "stocks".to_string()],
    );

    assert_eq!(filter.user_id, Some("user123".to_string()));
    assert_eq!(
        filter.keywords,
        Some(vec!["trading".to_string(), "stocks".to_string()])
    );

    let session_filter = QueryFilter::for_session("user123", "session456");
    assert_eq!(session_filter.user_id, Some("user123".to_string()));
    assert_eq!(session_filter.session_id, Some("session456".to_string()));

    let importance_filter = QueryFilter::high_importance("user123", 800);
    assert_eq!(importance_filter.min_importance, Some(800));
}

#[test]
fn importance_is_clamped() {
    assert_eq!(clamp_importance(-5), 0);
    assert_eq!(clamp_importance(2000), 1000);
    assert_eq!(clamp_importance(420), 420);
}

#[test]
fn batch_stops_at_first_error_when_asked() {
    let outcomes = vec![Ok("a".to_string()), Err("bad".to_string()), Ok("c".to_string())];
    let mut strict = BatchResponse::<String>::new();
    for o in outcomes.clone() {
        if !mindcache::batch::record_outcome(&mut strict, o, true) {
            break;
        }
    }
    assert_eq!((strict.success_count, strict.error_count), (1, 1));
    let mut lenient = BatchResponse::<String>::new();
    for o in outcomes {
        if !mindcache::batch::record_outcome(&mut lenient, o, false) {
            break;
        }
    }
    assert_eq!((lenient.success_count, lenient.error_count), (2, 1));
}

#[test]
fn validation_error_messages() {
    assert_eq!(
        ValidationError::RateLimitExceeded.to_string(),
        "Rate limit exceeded. Try again later."
    );
    assert_eq!(
        ValidationError::BatchSizeExceeded { size: 12, max: 10 }.to_string(),
        "Batch size too large: 12. Maximum allowed: 10"
    );
    assert_eq!(
        ValidationError::InvalidInput { message: "content_empty".to_string() }.to_string(),
        "Invalid input: content_empty"
    );
    assert_eq!(
        ValidationError::UserQuotaExceeded { current: 3, max: 3 }.to_string(),
        "User quota exceeded: 3/3"
    );
}

#[test]
fn performance_monitor_keeps_latest_samples() {
    let mut monitor = mindcache::monitor::PerformanceMonitor::new(2);
    monitor.record_query_time(10);
    monitor.record_query_time(20);
    monitor.record_save_time(5);
    let metrics = monitor.get_metrics();
    assert_eq!(metrics.avg_query_time_ms, 15);
    assert_eq!(metrics.avg_save_time_ms, 5);
    monitor.record_query_time(40);
    assert_eq!(monitor.query_times, vec![20, 40]);
    assert_eq!(monitor.get_metrics().avg_query_time_ms, 30);
    monitor.reset();
    assert_eq!(monitor.get_metrics().avg_query_time_ms, 0);
    assert_eq!(monitor.get_metrics().query_samples, 0);
}
