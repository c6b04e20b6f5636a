//! The job queue of a fixed-size worker pool.
//!
//! The queue decides; it neither runs a job nor waits. The pool around it
//! holds the queue behind a lock, and each of its workers asks the queue
//! for its next step, runs the job it is handed, and waits or leaves when
//! told so.

use std::collections::VecDeque;
use vstd::prelude::*;

verus! {

/// Why a pool could not be set up.
#[derive(Clone, Copy, Debug, PartialEq, Eq)]
pub enum PoolError {
    /// A pool needs at least one worker.
    InvalidConfiguration,
}

/// What a worker is to do next.
pub enum Step<J> {
    /// Run this job, then ask again.
    Run(J),
    /// No job is queued: wait until one is submitted or the queue is
    /// closed, then ask again.
    Wait,
    /// The queue is closed and empty: leave.
    Exit,
}

/// The mathematical model of a job queue.
pub struct QueueModel<J> {
    /// The number of workers that the pool was sized for.
    pub workers: nat,
    /// The jobs accepted and not yet handed out, oldest first.
    pub pending: Seq<J>,
    /// Whether the submission side is closed.
    pub closed: bool,
}

/// The queue of jobs that the workers of a pool share.
pub struct JobQueue<J> {
    workers: usize,
    jobs: VecDeque<J>,
    closed: bool,
}

impl<J> QueueModel<J> {
    /// The queue after `job` is submitted: an open queue accepts it behind
    /// the jobs that wait, a closed queue is unchanged.
    pub open spec fn submit(self, job: J) -> Self {
        if self.closed {
            self
        } else {
            QueueModel { pending: self.pending.push(job), ..self }
        }
    }

    /// The queue after each job of `jobs` is submitted in turn.
    pub open spec fn submit_all(self, jobs: Seq<J>) -> Self
        decreases jobs.len(),
    {
        if jobs.len() == 0 {
            self
        } else {
            self.submit_all(jobs.drop_last()).submit(jobs.last())
        }
    }

    /// The queue after its submission side is closed.
    pub open spec fn close(self) -> Self {
        QueueModel { closed: true, ..self }
    }

    /// The step that a worker is told when it asks.
    pub open spec fn step(self) -> Step<J> {
        if self.pending.len() > 0 {
            Step::Run(self.pending[0])
        } else if self.closed {
            Step::Exit
        } else {
            Step::Wait
        }
    }

    /// The queue after a worker has asked for its step.
    pub open spec fn after_step(self) -> Self {
        if self.pending.len() > 0 {
            QueueModel { pending: self.pending.skip(1), ..self }
        } else {
            self
        }
    }

    /// The queue after `n` steps were asked for.
    pub open spec fn after_steps(self, n: nat) -> Self
        decreases n,
    {
        if n == 0 {
            self
        } else {
            self.after_step().after_steps((n - 1) as nat)
        }
    }

    /// The jobs that the first `n` steps hand out, in the order in which
    /// they are handed out.
    pub open spec fn handed_out(self, n: nat) -> Seq<J>
        decreases n,
    {
        if n == 0 {
            Seq::empty()
        } else {
            match self.step() {
                Step::Run(job) => seq![job] + self.after_step().handed_out((n - 1) as nat),
                _ => self.after_step().handed_out((n - 1) as nat),
            }
        }
    }
}

impl<J> View for JobQueue<J> {
    type V = QueueModel<J>;

    closed spec fn view(&self) -> QueueModel<J> {
        QueueModel { workers: self.workers as nat, pending: self.jobs@, closed: self.closed }
    }
}

impl<J> JobQueue<J> {
    /// An open, empty queue for a pool of `size` workers. A pool of no
    /// workers is refused.
    pub fn new(size: usize) -> (r: Result<Self, PoolError>)
        ensures
            match r {
                Ok(queue) => size > 0 && queue@ == (QueueModel::<J> {
                    workers: size as nat,
                    pending: Seq::empty(),
                    closed: false,
                }),
                Err(e) => size == 0 && e == PoolError::InvalidConfiguration,
            },
    {
        if size == 0 {
            Err(PoolError::InvalidConfiguration)
        } else {
            Ok(JobQueue { workers: size, jobs: VecDeque::new(), closed: false })
        }
    }

    /// The number of workers that the pool was sized for.
    pub fn workers(&self) -> (n: usize)
        ensures
            n == self@.workers,
    {
        self.workers
    }

    /// The number of jobs accepted and not yet handed out.
    pub fn pending(&self) -> (n: usize)
        ensures
            n == self@.pending.len(),
    {
        self.jobs.len()
    }

    /// Whether the submission side is closed.
    pub fn is_closed(&self) -> (b: bool)
        ensures
            b == self@.closed,
    {
        self.closed
    }

    /// Submits a job. An open queue accepts it behind the jobs that wait; a
    /// closed queue hands it back.
    pub fn submit(&mut self, job: J) -> (r: Result<(), J>)
        ensures
            final(self)@ == old(self)@.submit(job),
            match r {
                Ok(_) => !old(self)@.closed,
                Err(back) => old(self)@.closed && back == job,
            },
    {
        if self.closed {
            Err(job)
        } else {
            self.jobs.push_back(job);
            Ok(())
        }
    }

    /// Closes the submission side. The jobs that wait stay queued.
    pub fn close(&mut self)
        ensures
            final(self)@ == old(self)@.close(),
    {
        self.closed = true;
    }

    /// Tells a worker its next step: the oldest job that waits, if there is
    /// one; else to leave, if the queue is closed; else to wait.
    pub fn next(&mut self) -> (r: Step<J>)
        ensures
            r == old(self)@.step(),
            final(self)@ == old(self)@.after_step(),
    {
        match self.jobs.pop_front() {
            Some(job) => Step::Run(job),
            None => {
                if self.closed {
                    Step::Exit
                } else {
                    Step::Wait
                }
            },
        }
    }
}

/// Jobs submitted to an open queue wait behind the jobs that were there, in
/// the order of their submission.
pub proof fn lemma_submitted_jobs_wait_in_order<J>(queue: QueueModel<J>, jobs: Seq<J>)
    requires
        !queue.closed,
    ensures
        queue.submit_all(jobs) == (QueueModel { pending: queue.pending + jobs, ..queue }),
    decreases jobs.len(),
{
    if jobs.len() == 0 {
        assert(queue.pending + jobs =~= queue.pending);
    } else {
        lemma_submitted_jobs_wait_in_order(queue, jobs.drop_last());
        assert((queue.pending + jobs.drop_last()).push(jobs.last()) =~= queue.pending + jobs);
    }
}

/// However many steps are asked for, the jobs handed out are the jobs that
/// waited, oldest first, each once: the first `n` of them where more than
/// `n` waited, and all of them otherwise. The jobs not yet handed out stay
/// queued, and nothing else about the queue changes.
pub proof fn lemma_steps_hand_out_the_queue<J>(queue: QueueModel<J>, n: nat)
    ensures
        n <= queue.pending.len() ==> queue.handed_out(n) == queue.pending.take(n as int)
            && queue.after_steps(n) == (QueueModel {
            pending: queue.pending.skip(n as int),
            ..queue
        }),
        n >= queue.pending.len() ==> queue.handed_out(n) == queue.pending && queue.after_steps(n)
            == (QueueModel { pending: Seq::empty(), ..queue }),
    decreases n,
{
    if n == 0 {
        assert(queue.pending.take(0) =~= Seq::empty());
        assert(queue.pending.skip(0) =~= queue.pending);
        if queue.pending.len() == 0 {
            assert(queue.pending =~= Seq::empty());
        }
    } else {
        let rest = queue.after_step();
        lemma_steps_hand_out_the_queue(rest, (n - 1) as nat);
        if queue.pending.len() > 0 {
            if n <= queue.pending.len() {
                assert(seq![queue.pending[0]] + queue.pending.skip(1).take(n - 1)
                    =~= queue.pending.take(n as int));
                assert(queue.pending.skip(1).skip(n - 1) =~= queue.pending.skip(n as int));
            }
            if n >= queue.pending.len() {
                assert(seq![queue.pending[0]] + queue.pending.skip(1) =~= queue.pending);
            }
        } else {
            assert(queue.pending =~= Seq::empty());
            assert(queue.pending.take(0) =~= Seq::empty());
        }
    }
}

/// Every job submitted to an open, empty queue is handed out exactly once,
/// in the order of submission, by as many steps as there are jobs; after
/// them no job waits.
pub proof fn lemma_every_job_is_handed_out_once<J>(queue: QueueModel<J>, jobs: Seq<J>)
    requires
        !queue.closed,
        queue.pending.len() == 0,
    ensures
        queue.submit_all(jobs).handed_out(jobs.len()) == jobs,
        queue.submit_all(jobs).after_steps(jobs.len()).pending.len() == 0,
{
    lemma_submitted_jobs_wait_in_order(queue, jobs);
    assert(queue.pending + jobs =~= jobs);
    lemma_steps_hand_out_the_queue(queue.submit_all(jobs), jobs.len());
}

/// Closing the queue drops no job: the steps that follow hand out each job
/// that waited, oldest first, and only then tell the workers to leave.
pub proof fn lemma_close_drains_before_exit<J>(queue: QueueModel<J>, k: nat)
    ensures
        k < queue.pending.len() ==> queue.close().after_steps(k).step() == Step::Run(
            queue.pending[k as int],
        ),
        k >= queue.pending.len() ==> queue.close().after_steps(k).step() == Step::<J>::Exit,
{
    lemma_steps_hand_out_the_queue(queue.close(), k);
}

} // verus!
