//! A minimal, backend-pluggable job queue.
//!
//! Producers serialize named jobs with arguments into a logical queue; a
//! consumer dequeues them, optionally blocking with a timeout. Failed jobs are
//! tracked with a retry counter and routed to a secondary queue by the caller.
//! The queue contract is the [`queues::JobQueue`] trait; the one networked
//! backend is [`redis_queue::RedisQueue`], a list store reached over a
//! connection, and [`memory_queue::MemoryQueue`] is an in-process backend with
//! the same behaviour, useful for tests and as the verified model of a queue.

pub mod codec;
pub mod jobs;
pub mod memory_queue;
pub mod queues;
pub mod redis_queue;

pub use codec::deserialize_job;
pub use codec::serialize_job;
pub use jobs::Config;
pub use jobs::EnqueuedJob;
pub use jobs::RetryCount;
pub use memory_queue::MemoryQueue;
pub use queues::DequeueTimeout;
pub use queues::Error;
pub use queues::JobQueue;
pub use queues::NoJobDequeued;
pub use queues::QueueIdentifier;
pub use queues::RobinResult;
pub use redis_queue::RedisConfig;
pub use redis_queue::RedisQueue;
