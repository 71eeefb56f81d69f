//! An in-process backend: the queue contract realized over plain vectors.
//!
//! It stores the same serialized payloads a networked backend would hold, so
//! enqueue-then-dequeue exercises the whole exchange format. Its contracts
//! pin the queue behaviour exactly — first in, first out, one entry per
//! enqueue — and the laws at the bottom record the consequences.

use vstd::prelude::*;
use crate::codec::{deserialize_job, lemma_parse_encode, serialize_job, spec_encode_job,
    spec_parse_job};
use crate::jobs::{EnqueuedJob, EnqueuedJobView};
use crate::queues::{DequeueTimeout, Error, JobQueue, NoJobDequeued, QueueIdentifier,
    RobinResult};

verus! {

/// A queue kept in process memory: one list of serialized payloads per
/// logical queue, head first.
pub struct MemoryQueue {
    main: Vec<String>,
    retry: Vec<String>,
}

impl MemoryQueue {
    /// The stored payloads of one logical queue, head first.
    pub closed spec fn entries(&self, iden: QueueIdentifier) -> Seq<Seq<char>> {
        match iden {
            QueueIdentifier::Main => self.main@.map_values(|s: String| s@),
            QueueIdentifier::Retry => self.retry@.map_values(|s: String| s@),
        }
    }

    /// Every stored payload is a well-formed record: it holds of a fresh
    /// queue and `enqueue` keeps it, so whatever `enqueue` writes, `dequeue`
    /// can read back.
    pub open spec fn wf(&self) -> bool {
        forall|iden: QueueIdentifier, i: int|
            0 <= i < self.entries(iden).len() ==> spec_parse_job(
                #[trigger] self.entries(iden)[i],
            ) is Some
    }

}

impl JobQueue for MemoryQueue {
    type Config = ();

    /// An in-process queue needs no configuration and always constructs,
    /// with both logical queues empty and well-formed.
    fn new(_init: &()) -> (r: RobinResult<Self>)
        ensures
            r matches Ok(q) ==> q.wf() && q.entries(QueueIdentifier::Main).len() == 0
                && q.entries(QueueIdentifier::Retry).len() == 0,
            r is Ok,
    {
        Ok(MemoryQueue { main: Vec::new(), retry: Vec::new() })
    }

    /// Append the job, serialized, to the tail of the named logical queue.
    /// Exactly one entry is added; the other queue is untouched.
    fn enqueue(&mut self, enq_job: EnqueuedJob, iden: QueueIdentifier) -> (r: RobinResult<()>)
        ensures
            r is Ok,
            old(self).wf() ==> final(self).wf(),
            final(self).entries(iden) == old(self).entries(iden).push(spec_encode_job(enq_job@)),
            forall|q: QueueIdentifier|
                q != iden ==> final(self).entries(q) == old(self).entries(q),
    {
        let data = serialize_job(&enq_job);
        match iden {
            QueueIdentifier::Main => self.main.push(data),
            QueueIdentifier::Retry => self.retry.push(data),
        }
        proof {
            lemma_parse_encode(enq_job@);
            assert(self.entries(iden) =~= old(self).entries(iden).push(
                spec_encode_job(enq_job@),
            ));
            assert forall|q: QueueIdentifier| q != iden implies self.entries(q) == old(
                self,
            ).entries(q) by {
                assert(self.entries(q) =~= old(self).entries(q));
            }
            if old(self).wf() {
                assert forall|q: QueueIdentifier, i: int|
                    0 <= i < self.entries(q).len() implies spec_parse_job(
                    #[trigger] self.entries(q)[i],
                ) is Some by {
                    if q == iden && i == old(self).entries(iden).len() {
                    } else {
                        assert(self.entries(q)[i] == old(self).entries(q)[i]);
                    }
                }
            }
        }
        Ok(())
    }

    /// Remove and return the job at the head of the named logical queue. On
    /// an empty queue this is the timeout outcome — never an error, never a
    /// job — and the queue is unchanged. Otherwise the head entry leaves the
    /// queue and comes back as the job it encodes; only a head that parses
    /// to no record (which `enqueue` never writes) is a dequeue error.
    fn dequeue(&mut self, _timeout: &DequeueTimeout, iden: QueueIdentifier) -> (r: Result<
        EnqueuedJob,
        NoJobDequeued,
    >)
        ensures
            old(self).wf() ==> final(self).wf(),
            old(self).entries(iden).len() == 0 ==> (r matches Err(
                NoJobDequeued::BecauseTimeout,
            ) && *final(self) == *old(self)),
            old(self).entries(iden).len() > 0 ==> final(self).entries(iden) == old(
                self,
            ).entries(iden).drop_first(),
            old(self).entries(iden).len() > 0 ==> (spec_parse_job(
                old(self).entries(iden)[0],
            ) matches Some(v) ==> (r matches Ok(j) && j@ == v)),
            (old(self).entries(iden).len() > 0 && spec_parse_job(
                old(self).entries(iden)[0],
            ) is None) ==> r matches Err(
                NoJobDequeued::BecauseError(Error::SerializationError(_)),
            ),
            forall|q: QueueIdentifier|
                q != iden ==> final(self).entries(q) == old(self).entries(q),
    {
        let is_empty = match iden {
            QueueIdentifier::Main => self.main.len() == 0,
            QueueIdentifier::Retry => self.retry.len() == 0,
        };
        if is_empty {
            return Err(NoJobDequeued::BecauseTimeout);
        }
        let payload = match iden {
            QueueIdentifier::Main => self.main.remove(0),
            QueueIdentifier::Retry => self.retry.remove(0),
        };
        proof {
            assert(payload@ == old(self).entries(iden)[0]);
            assert(self.entries(iden) =~= old(self).entries(iden).drop_first());
            assert forall|q: QueueIdentifier| q != iden implies self.entries(q) == old(
                self,
            ).entries(q) by {
                assert(self.entries(q) =~= old(self).entries(q));
            }
            if old(self).wf() {
                assert forall|q: QueueIdentifier, i: int|
                    0 <= i < self.entries(q).len() implies spec_parse_job(
                    #[trigger] self.entries(q)[i],
                ) is Some by {
                    if q == iden {
                        assert(self.entries(q)[i] == old(self).entries(q)[i + 1]);
                    } else {
                        assert(self.entries(q)[i] == old(self).entries(q)[i]);
                    }
                }
            }
        }
        match deserialize_job(payload.as_str()) {
            Ok(j) => Ok(j),
            Err(e) => Err(NoJobDequeued::BecauseError(e)),
        }
    }

    /// Remove every pending job from the named logical queue.
    fn delete_all(&mut self, iden: QueueIdentifier) -> (r: RobinResult<()>)
        ensures
            r is Ok,
            old(self).wf() ==> final(self).wf(),
            final(self).entries(iden).len() == 0,
            forall|q: QueueIdentifier|
                q != iden ==> final(self).entries(q) == old(self).entries(q),
    {
        match iden {
            QueueIdentifier::Main => self.main.clear(),
            QueueIdentifier::Retry => self.retry.clear(),
        }
        proof {
            assert forall|q: QueueIdentifier| q != iden implies self.entries(q) == old(
                self,
            ).entries(q) by {
                assert(self.entries(q) =~= old(self).entries(q));
            }
            if old(self).wf() {
                assert forall|q: QueueIdentifier, i: int|
                    0 <= i < self.entries(q).len() implies spec_parse_job(
                    #[trigger] self.entries(q)[i],
                ) is Some by {
                    assert(q != iden);
                    assert(self.entries(q)[i] == old(self).entries(q)[i]);
                }
            }
        }
        Ok(())
    }

    /// The number of pending jobs in the named logical queue.
    fn size(&mut self, iden: QueueIdentifier) -> (r: RobinResult<usize>)
        ensures
            r matches Ok(n) && n == old(self).entries(iden).len(),
            *final(self) == *old(self),
    {
        match iden {
            QueueIdentifier::Main => Ok(self.main.len()),
            QueueIdentifier::Retry => Ok(self.retry.len()),
        }
    }
}

/// First in, first out: with two jobs enqueued on a fresh queue, the first
/// dequeue yields the first job and the second dequeue the second, each with
/// its name, args and retry state intact.
pub proof fn lemma_fifo_pair(entries: Seq<Seq<char>>, a: EnqueuedJobView, b: EnqueuedJobView)
    requires
        entries.len() == 0,
    ensures
        ({
            let after = entries.push(spec_encode_job(a)).push(spec_encode_job(b));
            &&& spec_parse_job(after[0]) == Some(a)
            &&& spec_parse_job(after.drop_first()[0]) == Some(b)
        }),
{
    lemma_parse_encode(a);
    lemma_parse_encode(b);
    let after = entries.push(spec_encode_job(a)).push(spec_encode_job(b));
    assert(after[0] == spec_encode_job(a));
    assert(after.drop_first()[0] == spec_encode_job(b));
}

/// The payloads left after enqueueing each job of `jobs`, in order, onto a
/// queue already holding `entries`.
pub open spec fn enqueue_all(entries: Seq<Seq<char>>, jobs: Seq<EnqueuedJobView>) -> Seq<
    Seq<char>,
>
    decreases jobs.len(),
{
    if jobs.len() == 0 {
        entries
    } else {
        enqueue_all(entries.push(spec_encode_job(jobs[0])), jobs.skip(1))
    }
}

proof fn lemma_enqueue_all_len(entries: Seq<Seq<char>>, jobs: Seq<EnqueuedJobView>)
    ensures
        enqueue_all(entries, jobs).len() == entries.len() + jobs.len(),
    decreases jobs.len(),
{
    if jobs.len() > 0 {
        lemma_enqueue_all_len(entries.push(spec_encode_job(jobs[0])), jobs.skip(1));
    }
}

/// `size` counts enqueues: immediately after `n` enqueues on a fresh queue,
/// with no concurrent consumers, there are exactly `n` pending jobs.
pub proof fn lemma_size_counts_enqueues(entries: Seq<Seq<char>>, jobs: Seq<EnqueuedJobView>)
    requires
        entries.len() == 0,
    ensures
        enqueue_all(entries, jobs).len() == jobs.len(),
{
    lemma_enqueue_all_len(entries, jobs);
}

} // verus!
