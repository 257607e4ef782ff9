//! The queue shared by the worker threads and the task that feeds them.
//!
//! A fixed set of long-lived workers pull jobs from one queue. The feeding
//! task pushes each job it receives and wakes one worker; when the job
//! channel closes or the server shuts down it marks the queue as shutting
//! down and wakes every worker. A worker takes the next job if there is one,
//! leaves when the queue is shutting down and empty, and otherwise sleeps
//! until woken. So the jobs already queued are still run after shutdown
//! begins.
use std::collections::VecDeque;
use vstd::prelude::*;

verus! {

/// Why the worker pool could not be started.
#[derive(Debug)]
pub enum WorkerPoolErr {
    WorkerPoolStartError,
    /// Any other failure, described in words.
    Other(String),
}

/// What a worker does next.
pub enum WorkerStep<T> {
    /// Run this job.
    Run(T),
    /// Sleep until woken, then ask again.
    Wait,
    /// Leave: the pool is shutting down and no job is left.
    Exit,
}

/// What reaches the task that feeds the queue.
pub enum BridgeEvent<T> {
    /// A job from the job channel.
    Job(T),
    /// The job channel was closed: no more jobs will come.
    ChannelClosed,
    /// The server is shutting down.
    ShutdownSignal,
}

/// What the feeding task does after an event.
#[derive(Debug, Clone, Copy, PartialEq, Eq, Structural)]
pub enum BridgeAction {
    /// Wake one sleeping worker and keep forwarding jobs.
    NotifyOne,
    /// Wake every worker so that they see the shutdown, and stop forwarding.
    NotifyAllAndStop,
}

/// The waiting jobs together with the history of what came in and went out.
struct Jobs<T> {
    queue: VecDeque<T>,
    accepted: Ghost<Seq<T>>,
    delivered: Ghost<Seq<T>>,
}

impl<T> Jobs<T> {
    spec fn consistent(&self) -> bool {
        self.accepted@ == self.delivered@ + self.queue@
    }

    fn empty() -> (jobs: Self)
        ensures
            jobs.consistent(),
            jobs.queue@ == Seq::<T>::empty(),
            jobs.accepted@ == Seq::<T>::empty(),
            jobs.delivered@ == Seq::<T>::empty(),
    {
        let jobs = Jobs {
            queue: VecDeque::new(),
            accepted: Ghost(Seq::empty()),
            delivered: Ghost(Seq::empty()),
        };
        proof {
            assert(jobs.delivered@ + jobs.queue@ =~= jobs.accepted@);
        }
        jobs
    }

    fn enqueue(&mut self, job: T)
        requires
            old(self).consistent(),
        ensures
            final(self).consistent(),
            final(self).queue@ == old(self).queue@.push(job),
            final(self).accepted@ == old(self).accepted@.push(job),
            final(self).delivered@ == old(self).delivered@,
    {
        let ghost j = job;
        self.queue.push_back(job);
        self.accepted = Ghost(self.accepted@.push(j));
        proof {
            assert(self.delivered@ + self.queue@ =~= self.accepted@);
        }
    }

    fn dequeue(&mut self) -> (r: Option<T>)
        requires
            old(self).consistent(),
        ensures
            final(self).consistent(),
            final(self).accepted@ == old(self).accepted@,
            old(self).queue@.len() > 0 ==> r == Some(old(self).queue@[0])
                && final(self).queue@ == old(self).queue@.drop_first()
                && final(self).delivered@ == old(self).delivered@.push(old(self).queue@[0]),
            old(self).queue@.len() == 0 ==> r is None && final(self).queue@ == old(self).queue@
                && final(self).delivered@ == old(self).delivered@,
    {
        let r = self.queue.pop_front();
        match r {
            Some(job) => {
                let ghost j = job;
                self.delivered = Ghost(self.delivered@.push(j));
                proof {
                    assert(self.delivered@ + self.queue@ =~= self.accepted@);
                }
                Some(job)
            },
            None => None,
        }
    }
}

/// The jobs waiting for a worker, and whether the pool is shutting down.
pub struct JobQueue<T> {
    jobs: Jobs<T>,
    is_shutdown: bool,
}

impl<T> JobQueue<T> {
    #[verifier::type_invariant]
    spec fn inv(&self) -> bool {
        self.jobs.consistent()
    }

    /// The jobs waiting, oldest first.
    pub closed spec fn pending(&self) -> Seq<T> {
        self.jobs.queue@
    }

    /// Whether the pool is shutting down.
    pub closed spec fn shutting_down(&self) -> bool {
        self.is_shutdown
    }

    /// Every job ever pushed, in the order it was pushed.
    pub closed spec fn accepted(&self) -> Seq<T> {
        self.jobs.accepted@
    }

    /// Every job ever handed to a worker, in the order it was handed out.
    pub closed spec fn delivered(&self) -> Seq<T> {
        self.jobs.delivered@
    }

    /// What was pushed is what was handed out, followed by what waits.
    pub open spec fn history_consistent(&self) -> bool {
        self.accepted() == self.delivered() + self.pending()
    }

    /// An empty queue that is not shutting down.
    pub fn new() -> (q: Self)
        ensures
            q.history_consistent(),
            q.pending() == Seq::<T>::empty(),
            q.accepted() == Seq::<T>::empty(),
            q.delivered() == Seq::<T>::empty(),
            !q.shutting_down(),
    {
        JobQueue { jobs: Jobs::empty(), is_shutdown: false }
    }

    /// Puts a job at the back of the queue.
    pub fn push(&mut self, job: T)
        ensures
            final(self).history_consistent(),
            final(self).pending() == old(self).pending().push(job),
            final(self).accepted() == old(self).accepted().push(job),
            final(self).delivered() == old(self).delivered(),
            final(self).shutting_down() == old(self).shutting_down(),
    {
        proof {
            use_type_invariant(&*self);
        }
        let mut jobs = Jobs::empty();
        std::mem::swap(&mut jobs, &mut self.jobs);
        jobs.enqueue(job);
        self.jobs = jobs;
    }

    /// Marks the pool as shutting down; the queued jobs stay.
    pub fn begin_shutdown(&mut self)
        ensures
            final(self).history_consistent(),
            final(self).shutting_down(),
            final(self).pending() == old(self).pending(),
            final(self).accepted() == old(self).accepted(),
            final(self).delivered() == old(self).delivered(),
    {
        proof {
            use_type_invariant(&*self);
        }
        self.is_shutdown = true;
    }

    /// Whether the pool is shutting down.
    pub fn is_shutdown(&self) -> (b: bool)
        ensures
            b == self.shutting_down(),
    {
        self.is_shutdown
    }

    /// How many jobs wait.
    pub fn len(&self) -> (n: usize)
        ensures
            n == self.pending().len(),
    {
        self.jobs.queue.len()
    }

    /// A worker's next step: the oldest waiting job if there is one, else
    /// leaving when the pool is shutting down, else sleeping.
    pub fn next_job(&mut self) -> (step: WorkerStep<T>)
        ensures
            final(self).history_consistent(),
            final(self).shutting_down() == old(self).shutting_down(),
            final(self).accepted() == old(self).accepted(),
            old(self).pending().len() > 0 ==> step == WorkerStep::Run(old(self).pending()[0])
                && final(self).pending() == old(self).pending().drop_first()
                && final(self).delivered() == old(self).delivered().push(old(self).pending()[0]),
            old(self).pending().len() == 0 ==> final(self).pending() == old(self).pending()
                && final(self).delivered() == old(self).delivered() && step == (if old(
                self,
            ).shutting_down() {
                WorkerStep::<T>::Exit
            } else {
                WorkerStep::<T>::Wait
            }),
    {
        proof {
            use_type_invariant(&*self);
        }
        let mut jobs = Jobs::empty();
        std::mem::swap(&mut jobs, &mut self.jobs);
        let next = jobs.dequeue();
        self.jobs = jobs;
        match next {
            Some(job) => WorkerStep::Run(job),
            None => {
                if self.is_shutdown {
                    WorkerStep::Exit
                } else {
                    WorkerStep::Wait
                }
            },
        }
    }

    /// The feeding task's reaction to an event: a job is queued and one
    /// worker woken; a closed channel or a shutdown signal starts the
    /// shutdown and wakes every worker.
    pub fn on_bridge_event(&mut self, event: BridgeEvent<T>) -> (action: BridgeAction)
        ensures
            final(self).history_consistent(),
            final(self).delivered() == old(self).delivered(),
            match event {
                BridgeEvent::Job(job) => action == BridgeAction::NotifyOne
                    && final(self).pending() == old(self).pending().push(job)
                    && final(self).accepted() == old(self).accepted().push(job)
                    && final(self).shutting_down() == old(self).shutting_down(),
                _ => action == BridgeAction::NotifyAllAndStop && final(self).shutting_down()
                    && final(self).pending() == old(self).pending() && final(self).accepted()
                    == old(self).accepted(),
            },
    {
        match event {
            BridgeEvent::Job(job) => {
                self.push(job);
                BridgeAction::NotifyOne
            },
            BridgeEvent::ChannelClosed => {
                self.begin_shutdown();
                BridgeAction::NotifyAllAndStop
            },
            BridgeEvent::ShutdownSignal => {
                self.begin_shutdown();
                BridgeAction::NotifyAllAndStop
            },
        }
    }
}

/// Jobs are handed to workers in the order they were pushed, each once: what
/// was handed out is always the oldest part of what was pushed, and the rest
/// still waits in order.
pub proof fn lemma_jobs_delivered_in_order<T>(q: JobQueue<T>)
    requires
        q.history_consistent(),
    ensures
        q.delivered().len() <= q.accepted().len(),
        q.delivered() == q.accepted().take(q.delivered().len() as int),
        q.pending() == q.accepted().skip(q.delivered().len() as int),
{
    assert(q.delivered() =~= q.accepted().take(q.delivered().len() as int));
    assert(q.pending() =~= q.accepted().skip(q.delivered().len() as int));
}

} // verus!
