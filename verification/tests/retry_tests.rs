use robin::{Config, EnqueuedJob, Error, NoJobDequeued, QueueIdentifier, RetryCount};
use robin::redis_queue::queue_key;
use robin::RedisConfig;

#[test]
fn increment_counts_up_from_never_retried() {
    let rc = RetryCount::NeverRetried;
    let rc1 = rc.increment();
    assert_eq!(rc1, RetryCount::Count(1));
    let rc2 = rc1.increment();
    assert_eq!(rc2, RetryCount::Count(2));
    let rc3 = rc2.increment();
    assert_eq!(rc3, RetryCount::Count(3));
}

#[test]
fn limit_boundary_allows_exactly_limit_retries() {
    let config = Config { retry_count_limit: 2 };
    assert!(!RetryCount::NeverRetried.limit_reached(&config));
    assert!(!RetryCount::Count(1).limit_reached(&config));
    assert!(!RetryCount::Count(2).limit_reached(&config));
    assert!(RetryCount::Count(3).limit_reached(&config));
}

#[test]
fn limit_zero_still_allows_a_counted_job_at_zero() {
    let config = Config { retry_count_limit: 0 };
    assert!(!RetryCount::NeverRetried.limit_reached(&config));
    assert!(!RetryCount::Count(0).limit_reached(&config));
    assert!(RetryCount::Count(1).limit_reached(&config));
}

#[test]
fn job_record_getters() {
    let j = EnqueuedJob::new("a".to_string(), "b".to_string(), RetryCount::Count(5));
    assert_eq!(j.name(), "a");
    assert_eq!(j.args(), "b");
    assert_eq!(*j.retry_count(), RetryCount::Count(5));
}

#[test]
fn queue_names() {
    assert_eq!(QueueIdentifier::Main.redis_queue_name(), "main");
    assert_eq!(QueueIdentifier::Retry.redis_queue_name(), "retry");
}

#[test]
fn keys_are_namespaced_and_distinct() {
    assert_eq!(queue_key("robin_", QueueIdentifier::Main), "robin__main");
    assert_eq!(queue_key("robin_", QueueIdentifier::Retry), "robin__retry");
    assert_eq!(queue_key("app", QueueIdentifier::Main), "app_main");
    assert_ne!(
        queue_key("ns", QueueIdentifier::Main),
        queue_key("ns", QueueIdentifier::Retry)
    );
    // Identical inputs give the identical key.
    assert_eq!(
        queue_key("ns", QueueIdentifier::Main),
        queue_key("ns", QueueIdentifier::Main)
    );
}

#[test]
fn default_redis_config() {
    let c = RedisConfig::default();
    assert_eq!(c.namespace, "robin_");
    assert_eq!(c.url, "redis://127.0.0.1/");
}

#[test]
fn dequeue_outcome_from_error() {
    let out = NoJobDequeued::from(Error::UnknownRedisError("boom".to_string()));
    assert!(matches!(
        out,
        NoJobDequeued::BecauseError(Error::UnknownRedisError(_))
    ));
}
