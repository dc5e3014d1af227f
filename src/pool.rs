//! The job queue that the workers of a pool share: one FIFO of jobs, closed
//! by one terminate signal per worker.
use std::collections::VecDeque;
use vstd::prelude::*;

verus! {

/// What a worker takes from the queue.
pub enum Message<J> {
    Job(J),
    Terminate,
}

/// A first-in first-out queue of messages.
pub struct JobQueue<J> {
    items: VecDeque<Message<J>>,
}

impl<J> View for JobQueue<J> {
    type V = Seq<Message<J>>;

    closed spec fn view(&self) -> Seq<Message<J>> {
        self.items@
    }
}

/// `n` terminate signals.
pub open spec fn terminates<J>(n: nat) -> Seq<Message<J>> {
    Seq::new(n, |i: int| Message::Terminate)
}

impl<J> JobQueue<J> {
    /// An empty queue.
    pub fn new() -> (r: JobQueue<J>)
        ensures
            r@ == Seq::<Message<J>>::empty(),
    {
        JobQueue { items: VecDeque::new() }
    }

    /// Number of messages waiting.
    pub fn len(&self) -> (r: usize)
        ensures
            r == self@.len(),
    {
        self.items.len()
    }

    /// Puts a job at the back of the queue.
    pub fn submit(&mut self, job: J)
        ensures
            final(self)@ == old(self)@.push(Message::Job(job)),
    {
        self.items.push_back(Message::Job(job));
    }

    /// Puts one terminate signal per worker at the back of the queue, after
    /// every job submitted so far.
    pub fn shutdown(&mut self, workers: usize)
        ensures
            final(self)@ == old(self)@ + terminates::<J>(workers as nat),
    {
        let mut i: usize = 0;
        while i < workers
            invariant
                i <= workers,
                self@ == old(self)@ + terminates::<J>(i as nat),
            decreases workers - i,
        {
            self.items.push_back(Message::Terminate);
            i = i + 1;
            assert(self@ =~= old(self)@ + terminates::<J>(i as nat));
        }
    }

    /// Takes the message at the front, if any.
    pub fn take(&mut self) -> (r: Option<Message<J>>)
        ensures
            old(self)@.len() == 0 ==> r is None && final(self)@ == old(self)@,
            old(self)@.len() > 0 ==> r == Some(old(self)@[0]) && final(self)@ == old(self)@.drop_first(),
    {
        self.items.pop_front()
    }
}

/// The queue after `jobs` were submitted to an empty queue and then a pool
/// of `workers` was shut down.
pub open spec fn queue_after<J>(jobs: Seq<J>, workers: nat) -> Seq<Message<J>> {
    jobs.map_values(|j: J| Message::Job(j)) + terminates::<J>(workers)
}

/// Submitting one more job to a queue that holds only jobs extends it by
/// that job: the queue that `submit` builds from empty is `queue_after(jobs, 0)`,
/// and `shutdown(workers)` then makes it `queue_after(jobs, workers)`.
pub proof fn lemma_submit_extends<J>(jobs: Seq<J>, job: J, workers: nat)
    ensures
        queue_after(jobs.push(job), 0) == queue_after(jobs, 0).push(Message::Job(job)),
        queue_after(jobs, 0) + terminates::<J>(workers) == queue_after(jobs, workers),
        queue_after(Seq::<J>::empty(), 0) == Seq::<Message<J>>::empty(),
{
    assert(queue_after(jobs.push(job), 0) =~= queue_after(jobs, 0).push(Message::Job(job)));
    assert(queue_after(jobs, 0) + terminates::<J>(workers) =~= queue_after(jobs, workers));
    assert(queue_after(Seq::<J>::empty(), 0) =~= Seq::<Message<J>>::empty());
}

/// Submitting jobs and then shutting the pool down leaves every job ahead of
/// every terminate signal, in submission order, and exactly one terminate
/// signal per worker: workers taking from the front run all the jobs before
/// any of them stops, and each stops once.
pub proof fn lemma_shutdown_after_jobs<J>(jobs: Seq<J>, workers: nat)
    ensures
        queue_after(jobs, workers).len() == jobs.len() + workers,
        forall|i: int| 0 <= i < jobs.len() ==> #[trigger] queue_after(jobs, workers)[i] == Message::Job(jobs[i]),
        forall|i: int|
            jobs.len() <= i < jobs.len() + workers ==> #[trigger] queue_after(jobs, workers)[i]
                is Terminate,
{
}

} // verus!
