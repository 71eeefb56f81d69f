//! The job data model: the retry counter, the configuration it is checked
//! against, and the serializable job record.

use vstd::prelude::*;

verus! {

/// The number of times a job has been retried, if ever.
#[derive(Debug, Copy, Clone, PartialEq, Eq, Structural)]
pub enum RetryCount {
    /// The job has never been retried.
    NeverRetried,
    /// The job has been retried the given number of times.
    Count(u32),
}

/// The configuration this core reads: how many times a job may be retried
/// before it counts as exhausted.
#[derive(Debug, Clone)]
pub struct Config {
    pub retry_count_limit: u32,
}

/// What `increment` returns: `NeverRetried` becomes `Count(1)`, and a count
/// goes up by one.
pub open spec fn spec_increment(rc: RetryCount) -> RetryCount {
    match rc {
        RetryCount::NeverRetried => RetryCount::Count(1),
        RetryCount::Count(n) => RetryCount::Count((n + 1) as u32),
    }
}

/// What `limit_reached` returns: the limit is exceeded only strictly after
/// the configured threshold, so a job may be retried exactly `limit` times.
pub open spec fn spec_limit_reached(rc: RetryCount, limit: u32) -> bool {
    match rc {
        RetryCount::NeverRetried => false,
        RetryCount::Count(n) => n > limit,
    }
}

/// `increment` applied `k` times to `NeverRetried`.
pub open spec fn increment_n(k: nat) -> RetryCount
    decreases k,
{
    if k == 0 {
        RetryCount::NeverRetried
    } else {
        spec_increment(increment_n((k - 1) as nat))
    }
}

impl RetryCount {
    /// Increment the retry counter by one.
    pub fn increment(&self) -> (r: RetryCount)
        requires
            *self matches RetryCount::Count(n) ==> n < u32::MAX,
        ensures
            r == spec_increment(*self),
    {
        match *self {
            RetryCount::NeverRetried => RetryCount::Count(1),
            RetryCount::Count(n) => RetryCount::Count(n + 1),
        }
    }

    /// `true` if the retry limit in the config has been exceeded, `false`
    /// otherwise.
    pub fn limit_reached(&self, config: &Config) -> (r: bool)
        ensures
            r == spec_limit_reached(*self, config.retry_count_limit),
    {
        match *self {
            RetryCount::NeverRetried => false,
            RetryCount::Count(n) => n > config.retry_count_limit,
        }
    }
}

/// Incrementing `k` times starting from `NeverRetried` yields `Count(k)` for
/// every `k >= 1`, and zero applications leave `NeverRetried`.
pub proof fn lemma_increment_n(k: nat)
    requires
        k <= u32::MAX,
    ensures
        k == 0 ==> increment_n(k) == RetryCount::NeverRetried,
        k >= 1 ==> increment_n(k) == RetryCount::Count(k as u32),
    decreases k,
{
    if k >= 1 {
        lemma_increment_n((k - 1) as nat);
    }
}

/// The retry-limit boundary: `Count(n)` has not exceeded the limit while
/// `n <= limit`, and has once `n > limit`, so a job may execute `limit + 1`
/// total attempts before being abandoned; `NeverRetried` never has.
pub proof fn lemma_limit_boundary(n: u32, limit: u32)
    ensures
        n <= limit ==> !spec_limit_reached(RetryCount::Count(n), limit),
        n > limit ==> spec_limit_reached(RetryCount::Count(n), limit),
        !spec_limit_reached(RetryCount::NeverRetried, limit),
{
}

/// The mathematical content of a job record: its name, its argument payload,
/// and its retry state.
pub ghost struct EnqueuedJobView {
    pub name: Seq<char>,
    pub args: Seq<char>,
    pub retry_count: RetryCount,
}

/// The data structure that gets serialized and put into the backend store.
/// `name` and `args` are never mutated after creation; on retry the caller
/// builds a new record with an incremented `retry_count`.
#[derive(Debug)]
pub struct EnqueuedJob {
    name: String,
    args: String,
    retry_count: RetryCount,
}

impl View for EnqueuedJob {
    type V = EnqueuedJobView;

    closed spec fn view(&self) -> EnqueuedJobView {
        EnqueuedJobView { name: self.name@, args: self.args@, retry_count: self.retry_count }
    }
}

impl EnqueuedJob {
    /// Build a job record from its three fields.
    pub fn new(name: String, args: String, retry_count: RetryCount) -> (r: EnqueuedJob)
        ensures
            r@ == (EnqueuedJobView { name: name@, args: args@, retry_count }),
    {
        EnqueuedJob { name, args, retry_count }
    }

    /// Get the name.
    pub fn name(&self) -> (r: &str)
        ensures
            r@ == self@.name,
    {
        self.name.as_str()
    }

    /// Get the arguments.
    pub fn args(&self) -> (r: &str)
        ensures
            r@ == self@.args,
    {
        self.args.as_str()
    }

    /// Get the retry count.
    pub fn retry_count(&self) -> (r: &RetryCount)
        ensures
            *r == self@.retry_count,
    {
        &self.retry_count
    }
}

} // verus!
