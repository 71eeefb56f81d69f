use robin::{
    DequeueTimeout, EnqueuedJob, JobQueue, MemoryQueue, NoJobDequeued, QueueIdentifier, RetryCount,
};

fn job(name: &str, args: &str, rc: RetryCount) -> EnqueuedJob {
    EnqueuedJob::new(name.to_string(), args.to_string(), rc)
}

#[test]
fn enqueue_then_dequeue_returns_the_exact_job() {
    let mut q = MemoryQueue::new(&()).unwrap();
    q.enqueue(
        job("send_email", "{\"to\":\"a@b.com\"}", RetryCount::NeverRetried),
        QueueIdentifier::Main,
    )
    .unwrap();
    let got = q.dequeue(&DequeueTimeout(5), QueueIdentifier::Main).unwrap();
    assert_eq!(got.name(), "send_email");
    assert_eq!(got.args(), "{\"to\":\"a@b.com\"}");
    assert_eq!(*got.retry_count(), RetryCount::NeverRetried);
}

#[test]
fn dequeue_is_first_in_first_out() {
    let mut q = MemoryQueue::new(&()).unwrap();
    q.enqueue(job("first", "1", RetryCount::NeverRetried), QueueIdentifier::Main).unwrap();
    q.enqueue(job("second", "2", RetryCount::Count(1)), QueueIdentifier::Main).unwrap();
    q.enqueue(job("third", "3", RetryCount::Count(2)), QueueIdentifier::Main).unwrap();
    let a = q.dequeue(&DequeueTimeout(1), QueueIdentifier::Main).unwrap();
    let b = q.dequeue(&DequeueTimeout(1), QueueIdentifier::Main).unwrap();
    let c = q.dequeue(&DequeueTimeout(1), QueueIdentifier::Main).unwrap();
    assert_eq!(a.name(), "first");
    assert_eq!(b.name(), "second");
    assert_eq!(c.name(), "third");
    assert_eq!(*b.retry_count(), RetryCount::Count(1));
}

#[test]
fn dequeue_on_empty_queue_is_the_timeout_outcome() {
    let mut q = MemoryQueue::new(&()).unwrap();
    let r = q.dequeue(&DequeueTimeout(1), QueueIdentifier::Retry);
    assert!(matches!(r, Err(NoJobDequeued::BecauseTimeout)));
}

#[test]
fn size_counts_enqueues_and_delete_all_clears() {
    let mut q = MemoryQueue::new(&()).unwrap();
    assert_eq!(q.size(QueueIdentifier::Main).unwrap(), 0);
    for i in 0..3u32 {
        q.enqueue(job("j", "", RetryCount::Count(i)), QueueIdentifier::Main).unwrap();
    }
    assert_eq!(q.size(QueueIdentifier::Main).unwrap(), 3);
    assert_eq!(q.size(QueueIdentifier::Retry).unwrap(), 0);
    q.delete_all(QueueIdentifier::Main).unwrap();
    assert_eq!(q.size(QueueIdentifier::Main).unwrap(), 0);
}

#[test]
fn queues_are_independent() {
    let mut q = MemoryQueue::new(&()).unwrap();
    q.enqueue(job("m", "", RetryCount::NeverRetried), QueueIdentifier::Main).unwrap();
    q.enqueue(job("r", "", RetryCount::NeverRetried), QueueIdentifier::Retry).unwrap();
    q.delete_all(QueueIdentifier::Main).unwrap();
    assert_eq!(q.size(QueueIdentifier::Main).unwrap(), 0);
    assert_eq!(q.size(QueueIdentifier::Retry).unwrap(), 1);
    let got = q.dequeue(&DequeueTimeout(1), QueueIdentifier::Retry).unwrap();
    assert_eq!(got.name(), "r");
}

#[test]
fn send_email_scenario() {
    let mut q = MemoryQueue::new(&()).unwrap();
    q.enqueue(
        job("send_email", "{\"to\":\"a@b.com\"}", RetryCount::NeverRetried),
        QueueIdentifier::Main,
    )
    .unwrap();
    assert_eq!(q.size(QueueIdentifier::Main).unwrap(), 1);
    let got = q.dequeue(&DequeueTimeout(5), QueueIdentifier::Main).unwrap();
    assert_eq!(got.name(), "send_email");
    assert_eq!(got.args(), "{\"to\":\"a@b.com\"}");
    assert_eq!(*got.retry_count(), RetryCount::NeverRetried);
    assert_eq!(q.size(QueueIdentifier::Main).unwrap(), 0);
}

#[test]
fn untouched_retry_queue_times_out() {
    let mut q = MemoryQueue::new(&()).unwrap();
    let r = q.dequeue(&DequeueTimeout(1), QueueIdentifier::Retry);
    assert!(matches!(r, Err(NoJobDequeued::BecauseTimeout)));
    assert!(q.dequeue(&DequeueTimeout(1), QueueIdentifier::Retry).is_err());
}

#[test]
fn retry_flow_reenqueues_with_incremented_count() {
    let mut q = MemoryQueue::new(&()).unwrap();
    q.enqueue(job("flaky", "x", RetryCount::NeverRetried), QueueIdentifier::Main).unwrap();
    let failed = q.dequeue(&DequeueTimeout(1), QueueIdentifier::Main).unwrap();
    // The caller decides to retry: a new record, never an in-place change.
    let retried = EnqueuedJob::new(
        failed.name().to_string(),
        failed.args().to_string(),
        failed.retry_count().increment(),
    );
    q.enqueue(retried, QueueIdentifier::Retry).unwrap();
    let got = q.dequeue(&DequeueTimeout(1), QueueIdentifier::Retry).unwrap();
    assert_eq!(got.name(), "flaky");
    assert_eq!(*got.retry_count(), RetryCount::Count(1));
}
