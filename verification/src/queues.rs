//! The queue-selection scheme, the dequeue outcome taxonomy, and the
//! backend-agnostic queue contract.

use vstd::prelude::*;
use crate::jobs::EnqueuedJob;

verus! {

/// The errors this core surfaces to its callers.
#[derive(Debug, Clone)]
pub enum Error {
    /// The backend rejected a request, was unreachable, or the transport
    /// failed.
    RedisError(String),
    /// A stored payload could not be parsed back into a job record.
    SerializationError(String),
    /// The backend replied with something of an unexpected shape.
    UnknownRedisError(String),
}

/// The result type of queue operations that can fail on the backend.
pub type RobinResult<T> = Result<T, Error>;

/// Reasons why attempting to dequeue a job didn't yield a job.
#[derive(Debug)]
pub enum NoJobDequeued {
    /// The timeout was hit: no job became available within the wait. Not an
    /// error; the caller will most likely retry dequeueing.
    BecauseTimeout,
    /// Because there was some error.
    BecauseError(Error),
}

impl From<Error> for NoJobDequeued {
    fn from(error: Error) -> (r: NoJobDequeued) {
        NoJobDequeued::BecauseError(error)
    }
}

impl vstd::std_specs::convert::FromSpecImpl<Error> for NoJobDequeued {
    open spec fn obeys_from_spec() -> bool {
        true
    }

    open spec fn from_spec(error: Error) -> NoJobDequeued {
        NoJobDequeued::BecauseError(error)
    }
}

/// The different logical queues.
#[derive(Debug, Copy, Clone, PartialEq, Eq, Structural)]
pub enum QueueIdentifier {
    /// The main queue all new jobs are put into.
    Main,
    /// If a job from the main queue fails it gets put into the retry queue
    /// and retried later.
    Retry,
}

/// The backend key suffix each identifier maps to: `"main"` or `"retry"`.
pub open spec fn spec_queue_name(iden: QueueIdentifier) -> Seq<char> {
    match iden {
        QueueIdentifier::Main => seq!['m', 'a', 'i', 'n'],
        QueueIdentifier::Retry => seq!['r', 'e', 't', 'r', 'y'],
    }
}

impl QueueIdentifier {
    /// Convert the identifier to the string used for the backend key.
    pub fn redis_queue_name(&self) -> (r: String)
        ensures
            r@ == spec_queue_name(*self),
    {
        match *self {
            QueueIdentifier::Main => {
                let s = "main";
                proof {
                    reveal_strlit("main");
                    assert(s@ =~= spec_queue_name(QueueIdentifier::Main));
                }
                s.to_owned()
            },
            QueueIdentifier::Retry => {
                let s = "retry";
                proof {
                    reveal_strlit("retry");
                    assert(s@ =~= spec_queue_name(QueueIdentifier::Retry));
                }
                s.to_owned()
            },
        }
    }
}

/// How long a dequeue may block waiting for a job, in seconds.
#[derive(Debug, Copy, Clone, PartialEq, Eq, Structural)]
pub struct DequeueTimeout(pub usize);

/// Trait that represents a backend that can be used to store jobs.
///
/// Implementations state their own contracts; this trait fixes the shape of
/// the boundary surface: construction from backend configuration, appending a
/// job to the tail of a named logical queue, removing one from its head with
/// a bounded wait, clearing a queue, and asking its length.
pub trait JobQueue where Self: Sized {
    /// The type required to configure the queue.
    type Config;

    /// Create a new queue with the given config.
    fn new(init: &Self::Config) -> (r: RobinResult<Self>);

    /// Push a job onto the tail of the named logical queue.
    fn enqueue(&mut self, enq_job: EnqueuedJob, iden: QueueIdentifier) -> (r: RobinResult<()>);

    /// Pull the job at the head of the named logical queue, blocking up to
    /// the timeout if it is empty.
    fn dequeue(&mut self, timeout: &DequeueTimeout, iden: QueueIdentifier) -> (r: Result<
        EnqueuedJob,
        NoJobDequeued,
    >);

    /// Delete all jobs from the named logical queue.
    fn delete_all(&mut self, iden: QueueIdentifier) -> (r: RobinResult<()>);

    /// Get the number of jobs in the named logical queue.
    fn size(&mut self, iden: QueueIdentifier) -> (r: RobinResult<usize>);
}

} // verus!
