//! The worker pool's rules: what a worker does with a message, what becomes
//! of it after a job, and what a pool is shut down with.
//!
//! The threads themselves are the caller's. A worker thread asks these
//! functions what to do next.

use vstd::prelude::*;
use vstd::string::*;
use crate::error::{KvStoreError, Result};

verus! {

/// What travels through the queue that the workers share. `J` is the job.
pub enum ThreadPoolMessage<J> {
    /// A job to run.
    RunJob(J),
    /// The order to stop.
    Shutdown,
}

/// Where a worker stands.
#[derive(Debug, Clone, Copy, PartialEq, Eq, Structural)]
pub enum WorkerState {
    /// Waiting for a message.
    Idle,
    /// Running a job.
    Running,
    /// Stopped for good.
    Terminated,
}

/// How a job ended.
#[derive(Debug, Clone, Copy, PartialEq, Eq, Structural)]
pub enum JobOutcome {
    /// The job ran to its end.
    Completed,
    /// The job broke off with a fault, which was caught.
    Faulted,
}

/// Where a worker stands after it was handed a message: an idle worker
/// that gets a job runs it, one that gets the order to stop is terminated,
/// and a worker that is not idle takes no message.
pub open spec fn after_receive<J>(state: WorkerState, msg: ThreadPoolMessage<J>) -> WorkerState {
    if state != WorkerState::Idle {
        state
    } else {
        match msg {
            ThreadPoolMessage::RunJob(_) => WorkerState::Running,
            ThreadPoolMessage::Shutdown => WorkerState::Terminated,
        }
    }
}

/// Where a worker stands after its job ended: idle again, however the job
/// ended. A worker that ran no job stays as it is.
pub open spec fn after_finish(state: WorkerState, outcome: JobOutcome) -> WorkerState {
    if state == WorkerState::Running {
        WorkerState::Idle
    } else {
        state
    }
}

/// The number of threads of a pool, which is not zero.
pub fn check_threads(threads: u32) -> (r: Result<u32>)
    ensures
        threads > 0 ==> r == Ok::<u32, KvStoreError>(threads),
        threads == 0 ==> (r matches Err(KvStoreError::OtherError(m)) && m@
            == "thread num can not be 0"@),
{
    if threads == 0 {
        return Err(KvStoreError::OtherError(String::from_str("thread num can not be 0")));
    }
    Ok(threads)
}

/// One worker of a pool.
#[derive(Debug)]
pub struct Worker {
    id: u32,
    state: WorkerState,
    completed: u64,
    faulted: u64,
}

impl Worker {
    /// The number of the worker in its pool.
    pub closed spec fn spec_id(&self) -> u32 {
        self.id
    }

    /// Where the worker stands.
    pub closed spec fn spec_state(&self) -> WorkerState {
        self.state
    }

    /// The number of jobs that the worker ran to their end.
    pub closed spec fn spec_completed(&self) -> u64 {
        self.completed
    }

    /// The number of jobs of the worker that broke off with a fault.
    pub closed spec fn spec_faulted(&self) -> u64 {
        self.faulted
    }

    /// A worker that waits for its first message.
    pub fn new(id: u32) -> (w: Worker)
        ensures
            w.spec_id() == id,
            w.spec_state() == WorkerState::Idle,
            w.spec_completed() == 0,
            w.spec_faulted() == 0,
    {
        Worker { id, state: WorkerState::Idle, completed: 0, faulted: 0 }
    }

    /// The number of the worker in its pool.
    pub fn id(&self) -> (id: u32)
        ensures
            id == self.spec_id(),
    {
        self.id
    }

    /// Where the worker stands.
    pub fn state(&self) -> (state: WorkerState)
        ensures
            state == self.spec_state(),
    {
        self.state
    }

    /// The number of jobs that the worker ran to their end.
    pub fn completed(&self) -> (n: u64)
        ensures
            n == self.spec_completed(),
    {
        self.completed
    }

    /// The number of jobs of the worker that broke off with a fault.
    pub fn faulted(&self) -> (n: u64)
        ensures
            n == self.spec_faulted(),
    {
        self.faulted
    }

    /// Whether the worker takes another message from the queue.
    pub fn takes_messages(&self) -> (b: bool)
        ensures
            b == (self.spec_state() == WorkerState::Idle),
    {
        self.state == WorkerState::Idle
    }

    /// Hands the worker a message from the queue. An idle worker that gets
    /// a job runs it: the job is handed back for that. An idle worker that
    /// gets the order to stop is terminated. A worker that is not idle takes
    /// no message: the message is handed back unread.
    pub fn receive<J>(&mut self, msg: ThreadPoolMessage<J>) -> (r: core::result::Result<
        Option<J>,
        ThreadPoolMessage<J>,
    >)
        ensures
            final(self).spec_id() == old(self).spec_id(),
            final(self).spec_completed() == old(self).spec_completed(),
            final(self).spec_faulted() == old(self).spec_faulted(),
            final(self).spec_state() == after_receive(old(self).spec_state(), msg),
            old(self).spec_state() != WorkerState::Idle ==> r == Err::<
                Option<J>,
                ThreadPoolMessage<J>,
            >(msg),
            old(self).spec_state() == WorkerState::Idle ==> match msg {
                ThreadPoolMessage::RunJob(job) => r == Ok::<Option<J>, ThreadPoolMessage<J>>(
                    Some(job),
                ),
                ThreadPoolMessage::Shutdown => r == Ok::<Option<J>, ThreadPoolMessage<J>>(None),
            },
    {
        if self.state != WorkerState::Idle {
            return Err(msg);
        }
        match msg {
            ThreadPoolMessage::RunJob(job) => {
                self.state = WorkerState::Running;
                Ok(Some(job))
            },
            ThreadPoolMessage::Shutdown => {
                self.state = WorkerState::Terminated;
                Ok(None)
            },
        }
    }

    /// Notes how the job that the worker ran ended. The worker is idle
    /// again, whether the job ran to its end or broke off: a fault ends the
    /// job, never the worker. A worker that ran no job stays as it is.
    pub fn finish(&mut self, outcome: JobOutcome)
        ensures
            final(self).spec_id() == old(self).spec_id(),
            final(self).spec_state() == after_finish(old(self).spec_state(), outcome),
            old(self).spec_state() != WorkerState::Running ==> *final(self) == *old(self),
            old(self).spec_state() == WorkerState::Running ==> {
                &&& final(self).spec_completed() == (if outcome == JobOutcome::Completed
                    && old(self).spec_completed() < u64::MAX {
                    (old(self).spec_completed() + 1) as u64
                } else {
                    old(self).spec_completed()
                })
                &&& final(self).spec_faulted() == (if outcome == JobOutcome::Faulted && old(
                    self,
                ).spec_faulted() < u64::MAX {
                    (old(self).spec_faulted() + 1) as u64
                } else {
                    old(self).spec_faulted()
                })
            },
    {
        if self.state == WorkerState::Running {
            self.state = WorkerState::Idle;
            match outcome {
                JobOutcome::Completed => {
                    if self.completed < u64::MAX {
                        self.completed = self.completed + 1;
                    }
                },
                JobOutcome::Faulted => {
                    if self.faulted < u64::MAX {
                        self.faulted = self.faulted + 1;
                    }
                },
            }
        }
    }
}

/// What a pool of `workers` workers is shut down with: one order to stop
/// for each worker.
pub fn shutdown_messages<J>(workers: usize) -> (msgs: Vec<ThreadPoolMessage<J>>)
    ensures
        msgs@.len() == workers,
        forall|i: int| 0 <= i < msgs@.len() ==> msgs@[i] is Shutdown,
{
    let mut msgs: Vec<ThreadPoolMessage<J>> = Vec::new();
    let mut i: usize = 0;
    while i < workers
        invariant
            0 <= i <= workers,
            msgs@.len() == i,
            forall|j: int| 0 <= j < msgs@.len() ==> msgs@[j] is Shutdown,
        decreases workers - i,
    {
        msgs.push(ThreadPoolMessage::Shutdown);
        i += 1;
    }
    msgs
}

/// A pool that starts a new thread for every job.
#[derive(Debug)]
pub struct NaiveThreadPool {
    num: u32,
}

impl NaiveThreadPool {
    /// The number of threads the pool was asked for.
    pub closed spec fn spec_threads(&self) -> u32 {
        self.num
    }

    /// A pool of `threads` threads, which is not zero.
    pub fn new(threads: u32) -> (r: Result<NaiveThreadPool>)
        ensures
            r is Ok <==> threads > 0,
            r matches Ok(pool) ==> pool.spec_threads() == threads,
            r matches Err(e) ==> (e matches KvStoreError::OtherError(m) && m@
                == "thread num can not be 0"@),
    {
        match check_threads(threads) {
            Ok(num) => Ok(NaiveThreadPool { num }),
            Err(e) => Err(e),
        }
    }

    /// The number of threads the pool was asked for.
    pub fn threads(&self) -> (n: u32)
        ensures
            n == self.spec_threads(),
    {
        self.num
    }
}

/// A pool as its queue sees it: where each worker stands, the messages
/// that wait, and the jobs that were run so far, in the order in which they
/// were taken. A job is known by its number.
pub struct PoolModel {
    pub workers: Seq<WorkerState>,
    pub queue: Seq<ThreadPoolMessage<nat>>,
    pub runs: Seq<nat>,
}

/// The pool after `jobs` were handed to `workers` idle workers and the pool
/// was then shut down: the jobs wait in the queue, and behind them one order
/// to stop for each worker.
pub open spec fn submitted(workers: nat, jobs: Seq<nat>) -> PoolModel {
    PoolModel {
        workers: Seq::new(workers, |i: int| WorkerState::Idle),
        queue: Seq::new(
            jobs.len() + workers,
            |i: int|
                if i < jobs.len() {
                    ThreadPoolMessage::RunJob(jobs[i])
                } else {
                    ThreadPoolMessage::Shutdown
                },
        ),
        runs: Seq::empty(),
    }
}

/// Whether the worker `w` can take a message: it is idle and one waits.
pub open spec fn can_take(pool: PoolModel, w: int) -> bool {
    0 <= w < pool.workers.len() && pool.workers[w] == WorkerState::Idle && pool.queue.len() > 0
}

/// The pool after the worker `w` took the first message and, if it is a
/// job, ran it with the outcome `outcome`.
pub open spec fn take(pool: PoolModel, w: int, outcome: JobOutcome) -> PoolModel {
    let msg = pool.queue[0];
    PoolModel {
        workers: pool.workers.update(
            w,
            after_finish(after_receive(pool.workers[w], msg), outcome),
        ),
        queue: pool.queue.drop_first(),
        runs: match msg {
            ThreadPoolMessage::RunJob(job) => pool.runs.push(job),
            ThreadPoolMessage::Shutdown => pool.runs,
        },
    }
}

/// The pool after the steps of `schedule`, each the number of the worker
/// that takes the next message and the outcome of the job if it is one. A
/// step of a worker that cannot take a message changes nothing.
pub open spec fn after_steps(pool: PoolModel, schedule: Seq<(int, JobOutcome)>) -> PoolModel
    decreases schedule.len(),
{
    if schedule.len() == 0 {
        pool
    } else {
        let before = after_steps(pool, schedule.drop_last());
        if can_take(before, schedule.last().0) {
            take(before, schedule.last().0, schedule.last().1)
        } else {
            before
        }
    }
}

/// Whether every step of `schedule` is one of a worker that can take a
/// message.
pub open spec fn runnable(pool: PoolModel, schedule: Seq<(int, JobOutcome)>) -> bool {
    forall|k: int|
        0 <= k < schedule.len() ==> can_take(
            after_steps(pool, #[trigger] schedule.take(k)),
            schedule[k].0,
        )
}

/// The number of terminated workers.
pub open spec fn terminated(workers: Seq<WorkerState>) -> nat
    decreases workers.len(),
{
    if workers.len() == 0 {
        0
    } else {
        terminated(workers.drop_last()) + if workers.last() == WorkerState::Terminated {
            1nat
        } else {
            0nat
        }
    }
}

/// There are no more terminated workers than workers; if there are as
/// many, every worker is terminated, and if there are fewer, one is not.
proof fn lemma_terminated_bounds(workers: Seq<WorkerState>)
    ensures
        terminated(workers) <= workers.len(),
        terminated(workers) == workers.len() ==> forall|w: int|
            0 <= w < workers.len() ==> workers[w] == WorkerState::Terminated,
        terminated(workers) < workers.len() ==> exists|w: int|
            0 <= w < workers.len() && workers[w] != WorkerState::Terminated,
    decreases workers.len(),
{
    if workers.len() > 0 {
        let rest = workers.drop_last();
        lemma_terminated_bounds(rest);
        if terminated(workers) == workers.len() {
            assert forall|w: int| 0 <= w < workers.len() implies workers[w]
                == WorkerState::Terminated by {
                if w < rest.len() {
                    assert(rest[w] == workers[w]);
                }
            }
        }
        if terminated(workers) < workers.len() {
            if workers.last() == WorkerState::Terminated {
                let w = choose|w: int| 0 <= w < rest.len() && rest[w] != WorkerState::Terminated;
                assert(workers[w] == rest[w]);
            } else {
                assert(workers[workers.len() - 1] != WorkerState::Terminated);
            }
        }
    }
}

/// What a change of one worker does to the number of terminated workers.
proof fn lemma_terminated_update(workers: Seq<WorkerState>, w: int, state: WorkerState)
    requires
        0 <= w < workers.len(),
    ensures
        terminated(workers.update(w, state)) == terminated(workers) - (if workers[w]
            == WorkerState::Terminated {
            1int
        } else {
            0int
        }) + (if state == WorkerState::Terminated {
            1int
        } else {
            0int
        }),
    decreases workers.len(),
{
    let now = workers.update(w, state);
    if w == workers.len() - 1 {
        assert(now.drop_last() =~= workers.drop_last());
    } else {
        lemma_terminated_update(workers.drop_last(), w, state);
        assert(now.drop_last() =~= workers.drop_last().update(w, state));
    }
}

/// Where a pool stands after `k` steps that could all be taken.
proof fn lemma_pool_after(workers: nat, jobs: Seq<nat>, schedule: Seq<(int, JobOutcome)>, k: int)
    requires
        runnable(submitted(workers, jobs), schedule),
        0 <= k <= schedule.len(),
        k <= jobs.len() + workers,
    ensures
        ({
            let start = submitted(workers, jobs);
            let pool = after_steps(start, schedule.take(k));
            &&& pool.workers.len() == workers
            &&& pool.queue == start.queue.skip(k)
            &&& pool.runs == jobs.take(if k < jobs.len() {
                k
            } else {
                jobs.len() as int
            })
            &&& forall|w: int|
                0 <= w < workers ==> pool.workers[w] == WorkerState::Idle || pool.workers[w]
                    == WorkerState::Terminated
            &&& terminated(pool.workers) == (if k < jobs.len() {
                0
            } else {
                k - jobs.len()
            })
        }),
    decreases k,
{
    let start = submitted(workers, jobs);
    if k == 0 {
        assert(schedule.take(0) =~= Seq::<(int, JobOutcome)>::empty());
        assert(start.queue.skip(0) =~= start.queue);
        assert(jobs.take(0) =~= start.runs);
        lemma_all_idle(start.workers);
    } else {
        lemma_pool_after(workers, jobs, schedule, k - 1);
        let steps = schedule.take(k);
        assert(steps.drop_last() =~= schedule.take(k - 1));
        assert(steps.last() == schedule[k - 1]);
        let before = after_steps(start, schedule.take(k - 1));
        let w = schedule[k - 1].0;
        assert(can_take(before, w));
        let pool = take(before, w, schedule[k - 1].1);
        assert(pool == after_steps(start, steps));
        assert(before.queue[0] == start.queue[k - 1]);
        assert(pool.queue =~= start.queue.skip(k));
        lemma_terminated_update(before.workers, w, pool.workers[w]);
        if k - 1 < jobs.len() {
            assert(pool.runs =~= jobs.take(k));
        } else {
            assert(pool.runs =~= jobs.take(jobs.len() as int));
        }
    }
}

/// Among idle workers none is terminated.
proof fn lemma_all_idle(workers: Seq<WorkerState>)
    requires
        forall|w: int| 0 <= w < workers.len() ==> workers[w] == WorkerState::Idle,
    ensures
        terminated(workers) == 0,
    decreases workers.len(),
{
    if workers.len() > 0 {
        lemma_all_idle(workers.drop_last());
    }
}

/// A pool runs every job that was handed to it once, and then every worker
/// stops.
///
/// Let `jobs` be handed to a pool of `workers` workers and the pool then be
/// shut down, and let the workers take the messages in any order, one
/// message at each step, each job ending well or with a fault. After as
/// many steps as there are messages the jobs that were run are the jobs
/// that were handed in, each once and in the order of the queue; no message
/// waits; and every worker is terminated.
pub proof fn lemma_pool_runs_every_job_once(
    workers: nat,
    jobs: Seq<nat>,
    schedule: Seq<(int, JobOutcome)>,
)
    requires
        runnable(submitted(workers, jobs), schedule),
        schedule.len() == jobs.len() + workers,
    ensures
        ({
            let pool = after_steps(submitted(workers, jobs), schedule);
            &&& pool.runs == jobs
            &&& pool.queue.len() == 0
            &&& pool.workers.len() == workers
            &&& forall|w: int| 0 <= w < workers ==> pool.workers[w] == WorkerState::Terminated
        }),
{
    let k = schedule.len() as int;
    lemma_pool_after(workers, jobs, schedule, k);
    assert(schedule.take(k) =~= schedule);
    assert(jobs.take(jobs.len() as int) =~= jobs);
    let pool = after_steps(submitted(workers, jobs), schedule);
    lemma_terminated_bounds(pool.workers);
}

/// A pool with work left never stalls: as long as a message waits, some
/// worker can take it.
pub proof fn lemma_pool_never_stalls(
    workers: nat,
    jobs: Seq<nat>,
    schedule: Seq<(int, JobOutcome)>,
)
    requires
        runnable(submitted(workers, jobs), schedule),
        schedule.len() < jobs.len() + workers,
        workers > 0,
    ensures
        exists|w: int| can_take(after_steps(submitted(workers, jobs), schedule), w),
{
    let k = schedule.len() as int;
    lemma_pool_after(workers, jobs, schedule, k);
    assert(schedule.take(k) =~= schedule);
    let pool = after_steps(submitted(workers, jobs), schedule);
    lemma_terminated_bounds(pool.workers);
    let w = choose|w: int|
        0 <= w < pool.workers.len() && pool.workers[w] != WorkerState::Terminated;
    assert(can_take(pool, w));
}

} // verus!
