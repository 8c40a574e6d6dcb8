//! A model of the fixed-size worker pool.
//!
//! The pool owns a fixed set of workers and a shared first-in-first-out
//! job queue. This module captures the queue protocol: submission appends
//! while the pool is active, each queued job is taken exactly once by
//! exactly one worker (`next_job`), shutdown stops acceptance and is
//! idempotent, and a worker's reaction to each dequeued message is a
//! plain decision (`worker_step`). The threads themselves, which only
//! block on the queue and run the jobs handed to them, live outside the
//! library.

use vstd::prelude::*;

verus! {

/// A message consumed by a worker: one job to run, or the order to stop.
pub enum PoolMessage<J> {
    /// Execute a new job
    NewJob(J),
    /// Signal worker threads to shut down
    Shutdown,
}

/// What a worker does after one receive: run a job and keep looping, or
/// exit its loop.
pub enum WorkerAction<J> {
    Run(J),
    Exit,
}

/// The decision a worker takes for each message it receives: a job is
/// run on the worker's own thread; a shutdown order, like a closed queue
/// (`None`), ends the worker's loop.
pub fn worker_step<J>(msg: Option<PoolMessage<J>>) -> (r: WorkerAction<J>)
    ensures
        match msg {
            Some(PoolMessage::NewJob(j)) => r == WorkerAction::Run(j),
            Some(PoolMessage::Shutdown) => r == WorkerAction::<J>::Exit,
            None => r == WorkerAction::<J>::Exit,
        },
{
    match msg {
        Some(PoolMessage::NewJob(j)) => WorkerAction::Run(j),
        Some(PoolMessage::Shutdown) => WorkerAction::Exit,
        None => WorkerAction::Exit,
    }
}

/// A pool of a fixed number of workers sharing one job queue.
///
/// Jobs are submitted at the back of the queue and taken from the front,
/// so a job is dequeued no earlier than any job submitted before it. The
/// pool supports graceful shutdown: afterwards submissions are silently
/// dropped.
pub struct ThreadPool<J> {
    /// Jobs submitted and not yet taken, oldest first
    queue: Vec<J>,
    /// Whether the pool still accepts jobs
    active: bool,
    /// The fixed number of workers
    size: usize,
}

impl<J> ThreadPool<J> {
    /// The jobs submitted and not yet taken by a worker, oldest first.
    pub closed spec fn pending(&self) -> Seq<J> {
        self.queue@
    }

    /// Whether the pool still accepts jobs: true until shutdown begins.
    pub closed spec fn is_active(&self) -> bool {
        self.active
    }

    /// The number of workers the pool was created with; it never changes
    /// over the pool's lifetime.
    pub closed spec fn worker_count(&self) -> int {
        self.size as int
    }

    /// A pool is well formed when it has at least one worker.
    pub open spec fn well_formed(&self) -> bool {
        self.worker_count() >= 1
    }

    /// Creates a new thread pool with the specified number of workers.
    /// A pool of zero workers cannot be created.
    pub fn new(size: usize) -> (r: ThreadPool<J>)
        requires
            size > 0,
        ensures
            r.well_formed(),
            r.is_active(),
            r.pending() == Seq::<J>::empty(),
            r.worker_count() == size,
    {
        ThreadPool { queue: Vec::new(), active: true, size }
    }

    /// Submits a job to the pool for execution. While the pool is active
    /// the job joins the back of the queue; once shutdown has begun the
    /// job is silently dropped, never executed.
    pub fn execute(&mut self, job: J)
        ensures
            final(self).is_active() == old(self).is_active(),
            final(self).worker_count() == old(self).worker_count(),
            old(self).is_active() ==> final(self).pending() == old(self).pending().push(job),
            !old(self).is_active() ==> final(self).pending() == old(self).pending(),
    {
        if self.active {
            self.queue.push(job);
        }
    }

    /// One worker taking its next unit of work: removes and returns the
    /// oldest queued job. Each queued job is handed out exactly once.
    pub fn next_job(&mut self) -> (r: Option<J>)
        ensures
            final(self).is_active() == old(self).is_active(),
            final(self).worker_count() == old(self).worker_count(),
            old(self).pending().len() == 0 ==> r is None && final(self).pending()
                == old(self).pending(),
            old(self).pending().len() > 0 ==> r == Some(old(self).pending()[0])
                && final(self).pending() == old(self).pending().skip(1),
    {
        if self.queue.len() == 0 {
            None
        } else {
            let j = self.queue.remove(0);
            proof {
                assert(self.queue@ =~= old(self).queue@.skip(1));
            }
            Some(j)
        }
    }

    /// The number of jobs waiting in the queue.
    pub fn pending_count(&self) -> (r: usize)
        ensures
            r == self.pending().len(),
    {
        self.queue.len()
    }

    /// Gracefully shuts down the pool: it stops accepting jobs, and jobs
    /// still queued when shutdown begins are dropped without notification
    /// to the submitter. Idempotent: a second call finds the pool already
    /// inactive and empty, leaves it unchanged, and neither blocks nor
    /// fails.
    pub fn shutdown(&mut self)
        ensures
            !final(self).is_active(),
            final(self).pending().len() == 0,
            final(self).worker_count() == old(self).worker_count(),
            !old(self).is_active() && old(self).pending().len() == 0 ==> *final(self) == *old(self),
    {
        if self.active || self.queue.len() > 0 {
            self.active = false;
            self.queue.clear();
        }
    }

    /// Growing the pool dynamically is not supported: a call is accepted
    /// only when it asks for no workers or the pool has already shut
    /// down, and it changes nothing either way.
    #[allow(unused_variables)]
    pub fn increase(&mut self, n: usize)
        requires
            n == 0 || !old(self).is_active(),
        ensures
            *final(self) == *old(self),
    {
    }
}

/// The queue contents reached by submitting `jobs` in order to an active
/// pool whose queue holds `q`: each submission appends one job, which is
/// the contract of `execute`.
pub open spec fn queue_after_submissions<J>(q: Seq<J>, jobs: Seq<J>) -> Seq<J>
    decreases jobs.len(),
{
    if jobs.len() == 0 {
        q
    } else {
        queue_after_submissions(q.push(jobs[0]), jobs.skip(1))
    }
}

/// Every job submitted to an active pool is queued exactly once: after
/// submitting `jobs` in order, the queue holds exactly the prior contents
/// followed by `jobs`, and as a multiset gains each submitted job exactly
/// once. Since `next_job` hands out each queued element exactly once, a
/// batch of distinct jobs is delivered to the workers as exactly that
/// batch, whatever the worker count.
pub proof fn lemma_jobs_delivered_exactly_once<J>(q: Seq<J>, jobs: Seq<J>)
    ensures
        queue_after_submissions(q, jobs) == q + jobs,
        queue_after_submissions(q, jobs).to_multiset() == q.to_multiset().add(jobs.to_multiset()),
    decreases jobs.len(),
{
    if jobs.len() == 0 {
        assert(q + jobs =~= q);
    } else {
        lemma_jobs_delivered_exactly_once(q.push(jobs[0]), jobs.skip(1));
        assert(q.push(jobs[0]) + jobs.skip(1) =~= q + jobs);
    }
    vstd::seq_lib::lemma_multiset_commutative(q, jobs);
    assert(queue_after_submissions(q, jobs).to_multiset() =~= q.to_multiset().add(
        jobs.to_multiset(),
    ));
}

} // verus!
