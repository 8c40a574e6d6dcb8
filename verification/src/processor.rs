//! The dispatcher and the progress-event protocol.
//!
//! A processing run walks the discovered files in one serialized loop,
//! announcing each file, submitting one job per file to the worker pool,
//! and reporting overall progress, while polling a monotonic cancellation
//! flag; each job re-checks the flag and then either reports failure or
//! hands its analysis and byte count back. This module holds those
//! decisions and the whole-run model; the runtime around it (the
//! dispatcher thread, the channel the events travel on, the progress
//! persistence) performs the emitted actions.

use crate::analyzer::FileAnalysis;
use crate::analyzer::ProcessingError;
use crate::thread_pool::ThreadPool;
use vstd::prelude::*;

verus! {

broadcast use vstd::string::group_string_axioms;

/// Messages sent from worker threads and the dispatcher to the consumer
/// to report progress and status updates.
pub enum ProgressMessage {
    /// A file has begun processing
    FileStarted(String),
    /// A file completed successfully with analysis results
    FileCompleted(FileAnalysis),
    /// A file failed to process
    FileFailed(String, ProcessingError),
    /// Overall progress update
    OverallProgress { completed: usize, total: usize },
}

/// The abstract content of a progress message: file names as character
/// sequences, counts as mathematical integers. Completion carries the
/// analyzed file's name and byte size; failure carries the file's name
/// and the failing operation's tag.
pub enum Event {
    Started(Seq<char>),
    Completed(Seq<char>, u64),
    Failed(Seq<char>, Seq<char>),
    Progress(int, int),
}

impl View for ProgressMessage {
    type V = Event;

    open spec fn view(&self) -> Event {
        match self {
            ProgressMessage::FileStarted(p) => Event::Started(p@),
            ProgressMessage::FileCompleted(a) => Event::Completed(a.filename@, a.stats.size_bytes),
            ProgressMessage::FileFailed(p, e) => Event::Failed(p@, e.operation@),
            ProgressMessage::OverallProgress { completed, total } => Event::Progress(
                *completed as int,
                *total as int,
            ),
        }
    }
}

/// The views of a sequence of messages, in order.
pub open spec fn events_view(s: Seq<ProgressMessage>) -> Seq<Event> {
    s.map_values(|m: ProgressMessage| m@)
}

/// The views of a sequence of path strings, in order.
pub open spec fn paths_view(s: Seq<String>) -> Seq<Seq<char>> {
    s.map_values(|p: String| p@)
}

/// A unit of deferred work: analyze one file. Created by the dispatcher
/// at submission time, owned by the queue until dequeued, consumed by
/// exactly one worker.
pub struct Job {
    /// The file the job will analyze
    pub path: String,
}

/// The paths of a sequence of jobs, in order.
pub open spec fn job_paths(s: Seq<Job>) -> Seq<Seq<char>> {
    s.map_values(|j: Job| j.path@)
}

/// The error a job reports when it observes the cancellation flag before
/// starting its work.
pub fn cancelled_error(path: &String) -> (r: ProcessingError)
    ensures
        r.filename@ == path@,
        r.operation@ == "cancelled"@,
        r.message@ == "Cancelled before start"@,
{
    ProcessingError {
        filename: path.clone(),
        operation: "cancelled".to_string(),
        message: "Cancelled before start".to_string(),
    }
}

/// The decision at a job's entry, taken with the cancellation value the
/// worker just read: when the flag is set the job must not run the
/// analyzer and instead reports its file as failed with the dedicated
/// "cancelled" tag; when the flag is clear the analyzer is to run.
pub fn job_entry(cancelled: bool, path: &String) -> (r: Option<ProgressMessage>)
    ensures
        cancelled ==> match r {
            Some(m) => m@ == Event::Failed(path@, "cancelled"@),
            None => false,
        },
        !cancelled ==> r is None,
{
    if cancelled {
        Some(ProgressMessage::FileFailed(path.clone(), cancelled_error(path)))
    } else {
        None
    }
}

/// The single task that walks the discovered files in order and feeds
/// the pool. `completed` counts submitted files — submitted, not
/// necessarily finished — and never exceeds `total`, the number of files
/// resolved once at the start of the run.
pub struct Dispatcher {
    completed: usize,
    total: usize,
}

impl Dispatcher {
    /// Number of files submitted so far in this run.
    pub closed spec fn completed(&self) -> int {
        self.completed as int
    }

    /// Number of files this run will process, fixed at creation.
    pub closed spec fn total(&self) -> int {
        self.total as int
    }

    /// Never more files submitted than the run has.
    pub open spec fn well_formed(&self) -> bool {
        0 <= self.completed() <= self.total()
    }

    /// Begins a dispatch over `total` discovered files.
    pub fn new(total: usize) -> (r: Dispatcher)
        ensures
            r.completed() == 0,
            r.total() == total,
            r.well_formed(),
    {
        Dispatcher { completed: 0, total }
    }

    /// One submission decision, taken with the cancellation value read at
    /// the top of the loop. When the flag is set the dispatch stops: no
    /// event is emitted and no job created, for this file or any later
    /// one. Otherwise the file's start is announced, a job for it is
    /// handed back for submission, and the new overall progress — one
    /// more file submitted, out of the fixed total — is reported.
    pub fn step(&mut self, cancelled: bool, path: String) -> (r: Option<
        (ProgressMessage, Job, ProgressMessage),
    >)
        requires
            old(self).well_formed(),
            old(self).completed() < old(self).total(),
        ensures
            final(self).well_formed(),
            final(self).total() == old(self).total(),
            cancelled ==> r is None && *final(self) == *old(self),
            !cancelled ==> final(self).completed() == old(self).completed() + 1 && match r {
                Some(actions) => {
                    &&& actions.0@ == Event::Started(path@)
                    &&& actions.1 == (Job { path })
                    &&& actions.2@ == Event::Progress(old(self).completed() + 1, old(self).total())
                },
                None => false,
            },
    {
        if cancelled {
            None
        } else {
            let started = ProgressMessage::FileStarted(path.clone());
            self.completed = self.completed + 1;
            let progress = ProgressMessage::OverallProgress {
                completed: self.completed,
                total: self.total,
            };
            Some((started, Job { path }, progress))
        }
    }
}

/// The byte counter value after adding `size` bytes: the sum, saturating
/// at the machine limit, so the counter only ever grows.
pub open spec fn add_bytes(cur: int, size: u64) -> int {
    if cur + size <= usize::MAX as int {
        cur + size
    } else {
        usize::MAX as int
    }
}

/// Manages file processing using a worker pool and reports progress.
///
/// Owns the pool the jobs go to, the cooperative cancellation flag —
/// shared, in the running system, with the dispatch loop and every
/// in-flight job — and the counter of analyzed bytes.
pub struct FileProcessor {
    /// The worker pool jobs are submitted to
    pool: ThreadPool<Job>,
    /// Cancellation flag: set once, never cleared
    cancellation: bool,
    /// Total bytes of all completed analyses, saturating at the machine
    /// limit so that it never decreases
    total_bytes_processed: usize,
    /// Where overall progress is persisted after each submission
    persist_path: String,
}

impl FileProcessor {
    /// Whether cancellation has been requested.
    pub closed spec fn cancelled(&self) -> bool {
        self.cancellation
    }

    /// The bytes accumulated from completed analyses.
    pub closed spec fn bytes_processed(&self) -> int {
        self.total_bytes_processed as int
    }

    /// The jobs submitted to the pool and not yet taken.
    pub closed spec fn pending_jobs(&self) -> Seq<Job> {
        self.pool.pending()
    }

    /// Whether the pool still accepts jobs.
    pub closed spec fn pool_active(&self) -> bool {
        self.pool.is_active()
    }

    /// The path overall progress is persisted to.
    pub closed spec fn persist_target(&self) -> Seq<char> {
        self.persist_path@
    }

    /// Creates a new `FileProcessor` around a pool: cancellation clear,
    /// no bytes counted yet.
    pub fn new(pool: ThreadPool<Job>, persist_path: String) -> (r: FileProcessor)
        ensures
            !r.cancelled(),
            r.bytes_processed() == 0,
            r.pending_jobs() == pool.pending(),
            r.pool_active() == pool.is_active(),
            r.persist_target() == persist_path@,
    {
        FileProcessor { pool, cancellation: false, total_bytes_processed: 0, persist_path }
    }

    /// Requests cancellation. The flag is monotonic: this is the only
    /// operation that writes it, and it only ever sets it, so a read
    /// after any later operation still finds it set.
    pub fn cancel(&mut self)
        ensures
            final(self).cancelled(),
            final(self).bytes_processed() == old(self).bytes_processed(),
            final(self).pending_jobs() == old(self).pending_jobs(),
            final(self).pool_active() == old(self).pool_active(),
            final(self).persist_target() == old(self).persist_target(),
    {
        self.cancellation = true;
    }

    /// Reads the cancellation flag, as the dispatch loop and every job
    /// entry do.
    pub fn is_cancelled(&self) -> (r: bool)
        ensures
            r == self.cancelled(),
    {
        self.cancellation
    }

    /// Returns the total number of bytes processed so far. The value
    /// reflects only fully completed jobs and never decreases.
    pub fn total_bytes_processed(&self) -> (r: usize)
        ensures
            r == self.bytes_processed(),
    {
        self.total_bytes_processed
    }

    /// A worker completing a job: the analyzed byte size joins the
    /// shared counter — which only ever grows, saturating at the machine
    /// limit — and the analysis is wrapped up for the consumer.
    pub fn complete_job(&mut self, analysis: FileAnalysis) -> (msg: ProgressMessage)
        ensures
            final(self).bytes_processed() == add_bytes(
                old(self).bytes_processed(),
                analysis.stats.size_bytes,
            ),
            final(self).bytes_processed() >= old(self).bytes_processed(),
            msg == ProgressMessage::FileCompleted(analysis),
            final(self).cancelled() == old(self).cancelled(),
            final(self).pending_jobs() == old(self).pending_jobs(),
            final(self).pool_active() == old(self).pool_active(),
            final(self).persist_target() == old(self).persist_target(),
    {
        let size = analysis.stats.size_bytes;
        let delta: usize = if size >= usize::MAX as u64 {
            usize::MAX
        } else {
            size as usize
        };
        self.total_bytes_processed = if delta <= usize::MAX - self.total_bytes_processed {
            self.total_bytes_processed + delta
        } else {
            usize::MAX
        };
        ProgressMessage::FileCompleted(analysis)
    }
}

/// The dispatcher-side events of a run over `paths` in which the first
/// `k` files are submitted: for each file, in order, its start
/// announcement followed by the overall progress after its submission.
pub open spec fn dispatch_trace(paths: Seq<Seq<char>>, k: int, total: int) -> Seq<Event>
    decreases k,
{
    if k <= 0 {
        Seq::empty()
    } else {
        dispatch_trace(paths, k - 1, total) + seq![
            Event::Started(paths[k - 1]),
            Event::Progress(k, total),
        ]
    }
}

impl FileProcessor {
    /// Dispatches jobs for the given files — already resolved by the
    /// external discovery collaborator — serialized through one loop so
    /// that submission order is well defined: for each file in order,
    /// announce its start, submit a job for it to the pool, and report
    /// the overall progress. The cancellation flag is consulted before
    /// each file; within this single serialized run it cannot change
    /// under the loop, so it is read once where the loop would poll it:
    /// either every file is dispatched, or — when cancellation was
    /// requested before the run — none is. Returns the dispatcher's
    /// event stream in emission order.
    pub fn process_files(&mut self, files: Vec<String>) -> (events: Vec<ProgressMessage>)
        requires
            old(self).pool_active(),
        ensures
            final(self).cancelled() == old(self).cancelled(),
            final(self).bytes_processed() == old(self).bytes_processed(),
            final(self).pool_active(),
            final(self).persist_target() == old(self).persist_target(),
            old(self).cancelled() ==> events@.len() == 0 && final(self).pending_jobs() == old(
                self,
            ).pending_jobs(),
            !old(self).cancelled() ==> events_view(events@) == dispatch_trace(
                paths_view(files@),
                files@.len() as int,
                files@.len() as int,
            ) && job_paths(final(self).pending_jobs()) == job_paths(old(self).pending_jobs())
                + paths_view(files@),
    {
        let total = files.len();
        let mut d = Dispatcher::new(total);
        let mut events: Vec<ProgressMessage> = Vec::new();
        let cancelled_now = self.cancellation;
        if cancelled_now {
            return events;
        }
        let ghost pv = paths_view(files@);
        let mut i: usize = 0;
        while i < total
            invariant
                !cancelled_now,
                i <= total,
                total == files@.len(),
                pv == paths_view(files@),
                d.well_formed(),
                d.total() == total as int,
                d.completed() == i as int,
                self.cancellation == old(self).cancellation,
                self.bytes_processed() == old(self).bytes_processed(),
                self.pool_active(),
                self.persist_target() == old(self).persist_target(),
                events_view(events@) == dispatch_trace(pv, i as int, total as int),
                job_paths(self.pending_jobs()) == job_paths(old(self).pending_jobs()) + pv.take(
                    i as int,
                ),
            decreases total - i,
        {
            let path = files[i].clone();
            let ghost events_before = events@;
            let ghost queued_before = self.pending_jobs();
            match d.step(cancelled_now, path) {
                Some(actions) => {
                    let (started, job, progress) = actions;
                    events.push(started);
                    self.pool.execute(job);
                    events.push(progress);
                    proof {
                        assert(pv[i as int] == files@[i as int]@);
                        assert(events_view(events@) =~= events_view(events_before) + seq![
                            Event::Started(pv[i as int]),
                            Event::Progress(i as int + 1, total as int),
                        ]);
                        assert(events_view(events@) =~= dispatch_trace(
                            pv,
                            i as int + 1,
                            total as int,
                        ));
                        assert(job_paths(self.pending_jobs()) =~= job_paths(queued_before).push(
                            pv[i as int],
                        ));
                        assert(job_paths(queued_before).push(pv[i as int]) =~= job_paths(
                            old(self).pending_jobs(),
                        ) + pv.take(i as int + 1));
                    }
                },
                None => {
                    proof {
                        assert(false);
                    }
                },
            }
            i = i + 1;
        }
        proof {
            assert(pv.take(total as int) =~= pv);
        }
        events
    }
}

/// The worker-side events of draining the queue when no cancellation is
/// observed: each job's analysis reported as completed, in queue order.
pub open spec fn completion_trace(analyses: Seq<FileAnalysis>) -> Seq<Event> {
    analyses.map_values(|a: FileAnalysis| Event::Completed(a.filename@, a.stats.size_bytes))
}

/// The worker-side events when every job observes cancellation: each
/// queued file reported as failed with the "cancelled" tag, in queue
/// order.
pub open spec fn cancellation_trace(paths: Seq<Seq<char>>) -> Seq<Event> {
    paths.map_values(|p: Seq<char>| Event::Failed(p, "cancelled"@))
}

/// The byte counter after the first `n` analyses join `cur`, each
/// addition saturating at the machine limit.
pub open spec fn bytes_after(cur: int, analyses: Seq<FileAnalysis>, n: int) -> int
    decreases n,
{
    if n <= 0 {
        cur
    } else {
        add_bytes(bytes_after(cur, analyses, n - 1), analyses[n - 1].stats.size_bytes)
    }
}

/// Sum of the analyzed byte sizes of the first `n` analyses.
pub open spec fn sum_sizes(analyses: Seq<FileAnalysis>, n: int) -> int
    decreases n,
{
    if n <= 0 {
        0
    } else {
        sum_sizes(analyses, n - 1) + analyses[n - 1].stats.size_bytes
    }
}

impl FileProcessor {
    /// The workers draining the queue to empty, handed the analyses the
    /// external analyzer produces for the queued files, in queue order.
    /// Each job begins by checking the cancellation flag, which within
    /// this serialized run cannot change under the loop: with the flag
    /// clear every job's analysis is reported as completed and its byte
    /// size joins the counter; with the flag set every job refuses to
    /// run and reports its file as failed with the "cancelled" tag,
    /// leaving the counter untouched. Returns the worker-side event
    /// stream in queue order.
    pub fn run_all_jobs(&mut self, analyses: Vec<FileAnalysis>) -> (events: Vec<ProgressMessage>)
        requires
            !old(self).cancelled() ==> analyses@.len() == old(self).pending_jobs().len(),
            !old(self).cancelled() ==> forall|i: int|
                0 <= i < analyses@.len() ==> #[trigger] analyses@[i].filename@ == old(
                    self,
                ).pending_jobs()[i].path@,
        ensures
            final(self).cancelled() == old(self).cancelled(),
            final(self).pool_active() == old(self).pool_active(),
            final(self).persist_target() == old(self).persist_target(),
            final(self).pending_jobs().len() == 0,
            !old(self).cancelled() ==> events_view(events@) == completion_trace(analyses@)
                && final(self).bytes_processed() == bytes_after(
                old(self).bytes_processed(),
                analyses@,
                analyses@.len() as int,
            ),
            old(self).cancelled() ==> events_view(events@) == cancellation_trace(
                job_paths(old(self).pending_jobs()),
            ) && final(self).bytes_processed() == old(self).bytes_processed(),
    {
        let ghost jobs0 = old(self).pending_jobs();
        let total_jobs: usize = self.pool.pending_count();
        let ghost n = total_jobs as int;
        let mut events: Vec<ProgressMessage> = Vec::new();
        let mut rest = analyses;
        let ghost all = rest@;
        let mut k: usize = 0;
        while self.pool.pending_count() > 0
            invariant
                k <= total_jobs,
                n == total_jobs as int,
                n == jobs0.len(),
                !old(self).cancelled() ==> all.len() == n,
                !old(self).cancelled() ==> forall|i: int|
                    0 <= i < n ==> #[trigger] all[i].filename@ == jobs0[i].path@,
                self.pending_jobs() == jobs0.skip(k as int),
                self.cancellation == old(self).cancellation,
                self.pool_active() == old(self).pool_active(),
                self.persist_target() == old(self).persist_target(),
                !old(self).cancelled() ==> rest@ == all.skip(k as int),
                old(self).cancelled() ==> rest@ == all,
                !old(self).cancelled() ==> events_view(events@) == completion_trace(
                    all.take(k as int),
                ) && self.bytes_processed() == bytes_after(
                    old(self).bytes_processed(),
                    all,
                    k as int,
                ),
                old(self).cancelled() ==> events_view(events@) == cancellation_trace(
                    job_paths(jobs0).take(k as int),
                ) && self.bytes_processed() == old(self).bytes_processed(),
            decreases n - k,
        {
            let ghost events_before = events@;
            match self.pool.next_job() {
                Some(job) => {
                    proof {
                        assert(job == jobs0[k as int]);
                        assert(jobs0.skip(k as int).skip(1) =~= jobs0.skip(k as int + 1));
                    }
                    match job_entry(self.cancellation, &job.path) {
                        Some(fail_msg) => {
                            events.push(fail_msg);
                            proof {
                                assert(job_paths(jobs0)[k as int] == jobs0[k as int].path@);
                                assert(events_view(events@) =~= events_view(events_before).push(
                                    Event::Failed(jobs0[k as int].path@, "cancelled"@),
                                ));
                                assert(job_paths(jobs0).take(k as int).push(
                                    job_paths(jobs0)[k as int],
                                ) =~= job_paths(jobs0).take(k as int + 1));
                                assert(cancellation_trace(job_paths(jobs0).take(k as int)).push(
                                    Event::Failed(jobs0[k as int].path@, "cancelled"@),
                                ) =~= cancellation_trace(job_paths(jobs0).take(k as int + 1)));
                            }
                        },
                        None => {
                            let analysis = rest.remove(0);
                            proof {
                                assert(analysis == all[k as int]);
                                assert(all.skip(k as int).remove(0) =~= all.skip(k as int + 1));
                            }
                            let msg = self.complete_job(analysis);
                            events.push(msg);
                            proof {
                                assert(events_view(events@) =~= events_view(events_before).push(
                                    Event::Completed(
                                        all[k as int].filename@,
                                        all[k as int].stats.size_bytes,
                                    ),
                                ));
                                assert(completion_trace(all.take(k as int)).push(
                                    Event::Completed(
                                        all[k as int].filename@,
                                        all[k as int].stats.size_bytes,
                                    ),
                                ) =~= completion_trace(all.take(k as int + 1)));
                            }
                        },
                    }
                    k = k + 1;
                },
                None => {
                    proof {
                        assert(false);
                    }
                },
            }
        }
        proof {
            if !old(self).cancelled() {
                assert(all.take(n) =~= all);
            }
            assert(job_paths(jobs0).take(n) =~= job_paths(jobs0));
        }
        events
    }
}

/// Structure of the dispatch trace: it has two entries per submitted
/// file — entry `2i` announces the start of file `i`, and entry `2i + 1`
/// reports `i + 1` of `total` files submitted.
pub proof fn lemma_dispatch_trace_structure(paths: Seq<Seq<char>>, k: int, total: int)
    requires
        0 <= k,
    ensures
        dispatch_trace(paths, k, total).len() == 2 * k,
        forall|i: int|
            0 <= i < k ==> #[trigger] dispatch_trace(paths, k, total)[2 * i] == Event::Started(
                paths[i],
            ),
        forall|i: int|
            0 <= i < k ==> #[trigger] dispatch_trace(paths, k, total)[2 * i + 1] == Event::Progress(
                i + 1,
                total,
            ),
    decreases k,
{
    if k > 0 {
        lemma_dispatch_trace_structure(paths, k - 1, total);
        assert forall|i: int|
            0 <= i < k implies #[trigger] dispatch_trace(paths, k, total)[2 * i] == Event::Started(
            paths[i],
        ) && dispatch_trace(paths, k, total)[2 * i + 1] == Event::Progress(i + 1, total) by {
            if i < k - 1 {
                assert(dispatch_trace(paths, k, total)[2 * i] == dispatch_trace(
                    paths,
                    k - 1,
                    total,
                )[2 * i]);
                assert(dispatch_trace(paths, k, total)[2 * i + 1] == dispatch_trace(
                    paths,
                    k - 1,
                    total,
                )[2 * i + 1]);
            }
        }
    }
}

/// Overall progress is monotonic over one dispatch: between any progress
/// event and any later one the reported `completed` count never
/// decreases, every reported count is at most `total`, and every event
/// reports the same fixed `total`.
pub proof fn lemma_progress_monotonic(paths: Seq<Seq<char>>, k: int, total: int)
    requires
        0 <= k <= total,
    ensures
        forall|i: int, j: int|
            0 <= i <= j < dispatch_trace(paths, k, total).len() ==> match (
                #[trigger] dispatch_trace(paths, k, total)[i],
                #[trigger] dispatch_trace(paths, k, total)[j],
            ) {
                (Event::Progress(ci, ti), Event::Progress(cj, tj)) => ci <= cj && 0 < ci && cj
                    <= total && ti == total && tj == total,
                _ => true,
            },
{
    lemma_dispatch_trace_structure(paths, k, total);
    let t = dispatch_trace(paths, k, total);
    assert forall|i: int| 0 <= i < t.len() implies match #[trigger] t[i] {
        Event::Progress(c, tt) => c == i / 2 + 1 && tt == total && 0 < c && c <= total,
        _ => i % 2 == 0,
    } by {
        let m = i / 2;
        assert(i == 2 * m || i == 2 * m + 1);
        assert(t[2 * m] == Event::Started(paths[m]));
        assert(t[2 * m + 1] == Event::Progress(m + 1, total));
    }
}

/// Overall progress stays monotonic and bounded over the full event
/// stream of an uncancelled run — dispatch, then completions — since the
/// worker side emits no progress events at all.
pub proof fn lemma_progress_monotonic_full_run(
    paths: Seq<Seq<char>>,
    analyses: Seq<FileAnalysis>,
    total: int,
)
    requires
        paths.len() <= total,
    ensures
        ({
            let t = dispatch_trace(paths, paths.len() as int, total) + completion_trace(analyses);
            forall|i: int, j: int|
                0 <= i <= j < t.len() ==> match (#[trigger] t[i], #[trigger] t[j]) {
                    (Event::Progress(ci, ti), Event::Progress(cj, tj)) => ci <= cj && 0 < ci && cj
                        <= total && ti == total && tj == total,
                    _ => true,
                }
        }),
{
    let k = paths.len() as int;
    let d = dispatch_trace(paths, k, total);
    let t = d + completion_trace(analyses);
    lemma_dispatch_trace_structure(paths, k, total);
    lemma_progress_monotonic(paths, k, total);
    assert forall|i: int, j: int| 0 <= i <= j < t.len() implies match (
        #[trigger] t[i],
        #[trigger] t[j],
    ) {
        (Event::Progress(ci, ti), Event::Progress(cj, tj)) => ci <= cj && 0 < ci && cj <= total
            && ti == total && tj == total,
        _ => true,
    } by {
        if i < d.len() && j < d.len() {
            assert(t[i] == d[i]);
            assert(t[j] == d[j]);
        }
        if i >= d.len() {
            assert(t[i] == completion_trace(analyses)[i - d.len()]);
        }
        if j >= d.len() {
            assert(t[j] == completion_trace(analyses)[j - d.len()]);
        }
    }
}

/// In the event stream of a full uncancelled run — every file dispatched
/// in order, then every job's analysis reported — the start announcement
/// of each file stands strictly before its completion report.
pub proof fn lemma_started_before_completed(
    paths: Seq<Seq<char>>,
    analyses: Seq<FileAnalysis>,
    total: int,
)
    requires
        analyses.len() == paths.len(),
        forall|i: int| 0 <= i < paths.len() ==> #[trigger] analyses[i].filename@ == paths[i],
    ensures
        ({
            let t = dispatch_trace(paths, paths.len() as int, total) + completion_trace(analyses);
            &&& t.len() == 3 * paths.len()
            &&& forall|i: int|
                0 <= i < paths.len() ==> #[trigger] t[2 * i] == Event::Started(paths[i]) && t[2
                    * paths.len() + i] == Event::Completed(paths[i], analyses[i].stats.size_bytes)
                    && 2 * i < 2 * paths.len() + i
        }),
{
    lemma_dispatch_trace_structure(paths, paths.len() as int, total);
}

/// When cancellation stops a run after `k` files were dispatched and
/// every submitted job then observes the flag, the trace still places
/// each file's start announcement strictly before its failure report,
/// and holds no event at all for files beyond the first `k`.
pub proof fn lemma_started_before_failed(paths: Seq<Seq<char>>, k: int, total: int)
    requires
        0 <= k <= paths.len(),
    ensures
        ({
            let t = dispatch_trace(paths, k, total) + cancellation_trace(paths.take(k));
            &&& t.len() == 3 * k
            &&& forall|i: int|
                0 <= i < k ==> #[trigger] t[2 * i] == Event::Started(paths[i]) && t[2 * k + i]
                    == Event::Failed(paths[i], "cancelled"@) && 2 * i < 2 * k + i
        }),
{
    lemma_dispatch_trace_structure(paths, k, total);
}

/// When the total size fits the counter, the counter after a run is
/// exactly the prior value plus the sum of the analyzed sizes —
/// independent of worker count, since every queued job joins the sum
/// exactly once.
pub proof fn lemma_byte_counter_is_sum(cur: int, analyses: Seq<FileAnalysis>, n: int)
    requires
        0 <= cur,
        cur + sum_sizes(analyses, n) <= usize::MAX as int,
    ensures
        bytes_after(cur, analyses, n) == cur + sum_sizes(analyses, n),
    decreases n,
{
    if n > 0 {
        lemma_byte_counter_is_sum(cur, analyses, n - 1);
    }
}

} // verus!
