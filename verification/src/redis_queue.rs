//! The list-backed queue over a Redis connection.
//!
//! Jobs are stored as serialized strings in ordered lists keyed by
//! `namespace + "_" + queue name`. Appending uses RPUSH, dequeueing a
//! blocking BLPOP with the caller's timeout. Everything the backend returns
//! flows through [`interpret_reply`], a verified function with an exact
//! contract; only the network calls themselves are trusted wrappers.

use vstd::prelude::*;
use vstd::string::StringExecFns;
use redis::Commands;
use crate::codec::{deserialize_job, serialize_job, spec_parse_job};
use crate::jobs::EnqueuedJob;
use crate::queues::{spec_queue_name, DequeueTimeout, Error, JobQueue, NoJobDequeued,
    QueueIdentifier, RobinResult};

verus! {

#[verifier::external_type_specification]
#[verifier::external_body]
pub struct ExRedisClient(redis::Client);

#[verifier::external_type_specification]
#[verifier::external_body]
pub struct ExRedisConnection(redis::Connection);

/// The arguments required to create a new `RedisQueue`.
#[derive(Debug, Clone, Eq, PartialEq, Hash)]
pub struct RedisConfig {
    pub url: String,
    pub namespace: String,
}

impl Default for RedisConfig {
    /// The default local address and namespace prefix, used when
    /// configuration is absent.
    fn default() -> (c: RedisConfig)
        ensures
            c.namespace@ == "robin_"@,
            c.url@ == "redis://127.0.0.1/"@,
    {
        RedisConfig { namespace: "robin_".to_owned(), url: "redis://127.0.0.1/".to_owned() }
    }
}

/// The full backend key of a logical queue under a namespace:
/// `namespace + "_" + suffix`.
pub open spec fn spec_redis_key(namespace: Seq<char>, iden: QueueIdentifier) -> Seq<char> {
    namespace + seq!['_'] + spec_queue_name(iden)
}

/// Derive the backend key for a logical queue: a pure function of the
/// namespace and the identifier alone.
pub fn queue_key(namespace: &str, iden: QueueIdentifier) -> (r: String)
    ensures
        r@ == spec_redis_key(namespace@, iden),
{
    let mut out = namespace.to_owned();
    proof {
        reveal_strlit("_");
        assert("_"@ =~= seq!['_']);
    }
    out.append("_");
    let name = iden.redis_queue_name();
    out.append(name.as_str());
    proof {
        assert(out@ =~= spec_redis_key(namespace@, iden));
    }
    out
}

/// Identical inputs give the identical key, and the two logical queues never
/// collide: under any namespace, the `Main` key differs from the `Retry` key.
pub proof fn lemma_keys_distinct(namespace: Seq<char>)
    ensures
        spec_redis_key(namespace, QueueIdentifier::Main) != spec_redis_key(
            namespace,
            QueueIdentifier::Retry,
        ),
{
    assert(spec_redis_key(namespace, QueueIdentifier::Main).len() == namespace.len() + 5);
    assert(spec_redis_key(namespace, QueueIdentifier::Retry).len() == namespace.len() + 6);
}

/// One element of a backend reply, reduced to what the logic reads: a
/// binary-safe payload, or anything else.
pub enum ReplyItem {
    Bytes(Vec<u8>),
    Other,
}

/// The characters a byte sequence decodes to, when it is valid UTF-8.
pub uninterp spec fn utf8_decode(bytes: Seq<u8>) -> Option<Seq<char>>;

/// Relies on `String::from_utf8`: whether a byte sequence decodes, and to
/// which characters, is a function of the bytes alone.
#[verifier::external_body]
fn decode_utf8(bytes: Vec<u8>) -> (r: Option<String>)
    ensures
        r is Some <==> utf8_decode(bytes@) is Some,
        r matches Some(s) ==> utf8_decode(bytes@) == Some(s@),
{
    String::from_utf8(bytes).ok()
}

/// Relies on `redis::Client::open`: parses the address and builds a client
/// for it; no connection is made yet.
#[verifier::external_body]
fn redis_open(url: &String) -> (r: Result<redis::Client, Error>) {
    match redis::Client::open(url.as_str()) {
        Ok(c) => Ok(c),
        Err(e) => Err(Error::RedisError(format!("{}", e))),
    }
}

/// Relies on `redis::Client::get_connection`: opens one connection to the
/// configured backend.
#[verifier::external_body]
fn redis_connect(client: &redis::Client) -> (r: Result<redis::Connection, Error>) {
    match client.get_connection() {
        Ok(c) => Ok(c),
        Err(e) => Err(Error::RedisError(format!("{}", e))),
    }
}

/// Relies on the RPUSH command (`redis::Commands::rpush`): appends the
/// payload to the tail of the list at `key`.
#[verifier::external_body]
fn redis_rpush(con: &mut redis::Connection, key: &String, data: &String) -> (r: Result<
    (),
    Error,
>) {
    let res: redis::RedisResult<usize> = con.rpush(key.as_str(), data.as_str());
    match res {
        Ok(_) => Ok(()),
        Err(e) => Err(Error::RedisError(format!("{}", e))),
    }
}

/// Relies on the BLPOP command: atomically removes the head of the list at
/// `key`, waiting up to `timeout` seconds. The reply is `[key, payload]`
/// when a payload was popped, and empty when the wait timed out.
#[verifier::external_body]
fn redis_blpop(con: &mut redis::Connection, key: &String, timeout: usize) -> (r: Result<
    Vec<ReplyItem>,
    Error,
>) {
    let res: redis::RedisResult<Vec<redis::Value>> = redis::cmd("BLPOP").arg(key.as_str()).arg(
        timeout,
    ).query(con);
    match res {
        Ok(items) => Ok(
            items.into_iter().map(
                |v| match v {
                    redis::Value::BulkString(b) => ReplyItem::Bytes(b),
                    _ => ReplyItem::Other,
                },
            ).collect(),
        ),
        Err(e) => Err(Error::RedisError(format!("{}", e))),
    }
}

/// Relies on the DEL command (`redis::Commands::del`): removes the list at
/// `key` entirely.
#[verifier::external_body]
fn redis_del(con: &mut redis::Connection, key: &String) -> (r: Result<(), Error>) {
    let res: redis::RedisResult<usize> = con.del(key.as_str());
    match res {
        Ok(_) => Ok(()),
        Err(e) => Err(Error::RedisError(format!("{}", e))),
    }
}

/// Relies on the LLEN command (`redis::Commands::llen`): the number of
/// entries in the list at `key`.
#[verifier::external_body]
fn redis_llen(con: &mut redis::Connection, key: &String) -> (r: Result<usize, Error>) {
    let res: redis::RedisResult<usize> = con.llen(key.as_str());
    match res {
        Ok(n) => Ok(n),
        Err(e) => Err(Error::RedisError(format!("{}", e))),
    }
}

/// Turn one blocking-pop reply into the dequeue outcome, for every possible
/// reply: an empty or one-element reply is the timeout outcome; a reply
/// whose second element is a payload yields exactly the job it encodes, or a
/// serialization error when it decodes or parses to nothing; any other shape
/// is the unexpected-reply error.
pub fn interpret_reply(items: Vec<ReplyItem>) -> (r: Result<EnqueuedJob, NoJobDequeued>)
    ensures
        items@.len() <= 1 ==> r matches Err(NoJobDequeued::BecauseTimeout),
        items@.len() >= 2 ==> match items@[1] {
            ReplyItem::Bytes(b) => {
                &&& (utf8_decode(b@) is None ==> r matches Err(
                    NoJobDequeued::BecauseError(Error::SerializationError(_)),
                ))
                &&& (utf8_decode(b@) matches Some(cs) ==> match spec_parse_job(cs) {
                    Some(v) => r matches Ok(j) && j@ == v,
                    None => r matches Err(
                        NoJobDequeued::BecauseError(Error::SerializationError(_)),
                    ),
                })
            },
            ReplyItem::Other => r matches Err(
                NoJobDequeued::BecauseError(Error::UnknownRedisError(_)),
            ),
        },
{
    if items.len() <= 1 {
        return Err(NoJobDequeued::BecauseTimeout);
    }
    match &items[1] {
        ReplyItem::Bytes(b) => {
            match decode_utf8(b.clone()) {
                None => Err(
                    NoJobDequeued::BecauseError(
                        Error::SerializationError(
                            "stored payload is not valid text".to_owned(),
                        ),
                    ),
                ),
                Some(s) => match deserialize_job(s.as_str()) {
                    Ok(j) => Ok(j),
                    Err(e) => Err(NoJobDequeued::BecauseError(e)),
                },
            }
        },
        ReplyItem::Other => Err(
            NoJobDequeued::BecauseError(
                Error::UnknownRedisError(
                    "list didn't contain what we were expecting".to_owned(),
                ),
            ),
        ),
    }
}

/// A wrapper around an actual `redis::Connection`, together with the
/// namespace its keys are derived from.
pub struct RedisQueue {
    redis: redis::Connection,
    redis_url: String,
    key: String,
}

impl RedisQueue {
    /// The key namespace this queue was created with.
    pub closed spec fn spec_namespace(&self) -> Seq<char> {
        self.key@
    }

    /// The backend address this queue was created with.
    pub closed spec fn spec_url(&self) -> Seq<char> {
        self.redis_url@
    }

    fn key(&self, iden: QueueIdentifier) -> (r: String)
        ensures
            r@ == spec_redis_key(self.spec_namespace(), iden),
    {
        queue_key(self.key.as_str(), iden)
    }

    /// A readable description of the queue: its key namespace and the
    /// address it was created with. The connection itself has no text form.
    pub fn describe(&self) -> (r: String)
        ensures
            r@ == "RedisQueue { key: "@ + self.spec_namespace() + ", url: "@ + self.spec_url()
                + " }"@,
    {
        let mut out = "RedisQueue { key: ".to_owned();
        out.append(self.key.as_str());
        out.append(", url: ");
        out.append(self.redis_url.as_str());
        out.append(" }");
        out
    }
}

impl JobQueue for RedisQueue {
    type Config = RedisConfig;

    /// Create a new `RedisQueue` using the given config: parse the address
    /// and open one connection; any failure is a construction error.
    fn new(init: &RedisConfig) -> (r: RobinResult<Self>)
        ensures
            r matches Ok(q) ==> q.spec_namespace() == init.namespace@ && q.spec_url()
                == init.url@,
    {
        let client = match redis_open(&init.url) {
            Ok(c) => c,
            Err(e) => {
                return Err(e);
            },
        };
        let con = match redis_connect(&client) {
            Ok(c) => c,
            Err(e) => {
                return Err(e);
            },
        };
        Ok(RedisQueue { redis: con, redis_url: init.url.clone(), key: init.namespace.clone() })
    }

    /// Serialize the job — exactly `spec_encode_job` of it — and append it
    /// to the tail of the list at this queue's key for `iden`.
    fn enqueue(&mut self, enq_job: EnqueuedJob, iden: QueueIdentifier) -> (r: RobinResult<()>)
        ensures
            final(self).spec_namespace() == old(self).spec_namespace(),
            final(self).spec_url() == old(self).spec_url(),
    {
        let data = serialize_job(&enq_job);
        let k = self.key(iden);
        redis_rpush(&mut self.redis, &k, &data)
    }

    /// Pull a job out of the queue, blocking up to `timeout` seconds if it
    /// is empty. The backend's reply is read by `interpret_reply`, whose
    /// contract fixes the outcome for every reply; a transport failure is a
    /// dequeue error.
    fn dequeue(&mut self, timeout: &DequeueTimeout, iden: QueueIdentifier) -> (r: Result<
        EnqueuedJob,
        NoJobDequeued,
    >)
        ensures
            final(self).spec_namespace() == old(self).spec_namespace(),
            final(self).spec_url() == old(self).spec_url(),
    {
        let k = self.key(iden);
        match redis_blpop(&mut self.redis, &k, timeout.0) {
            Ok(items) => interpret_reply(items),
            Err(e) => Err(NoJobDequeued::BecauseError(e)),
        }
    }

    /// Delete everything in the queue, with a single delete of its key.
    fn delete_all(&mut self, iden: QueueIdentifier) -> (r: RobinResult<()>)
        ensures
            final(self).spec_namespace() == old(self).spec_namespace(),
            final(self).spec_url() == old(self).spec_url(),
    {
        let k = self.key(iden);
        redis_del(&mut self.redis, &k)
    }

    /// The number of jobs in the queue: a length query on its key. Advisory
    /// only — it may be stale as soon as it returns under concurrent use.
    fn size(&mut self, iden: QueueIdentifier) -> (r: RobinResult<usize>)
        ensures
            final(self).spec_namespace() == old(self).spec_namespace(),
            final(self).spec_url() == old(self).spec_url(),
    {
        let k = self.key(iden);
        redis_llen(&mut self.redis, &k)
    }
}

} // verus!
