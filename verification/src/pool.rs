use vstd::prelude::*;
use std::collections::VecDeque;
use crate::message::{Message, sentinels};
use crate::model::{
    Claim, PoolView, lemma_claim_wf, lemma_live_all, lemma_live_bounds, lemma_live_take,
    lemma_terminate_wf, live_count,
};
use crate::worker::{Step, Worker};

verus! {

/// A pool of a fixed number of workers that share one queue of entries.
pub struct ThreadPool<T> {
    workers: Vec<Worker>,
    queue: VecDeque<Message<T>>,
    closing: bool,
}

impl<T> View for ThreadPool<T> {
    type V = PoolView<T>;

    closed spec fn view(&self) -> PoolView<T> {
        PoolView {
            queue: self.queue@,
            running: Seq::new(self.workers@.len(), |i: int| self.workers@[i].spec_running()),
            closing: self.closing,
        }
    }
}

impl<T> ThreadPool<T> {
    /// The pool's invariant: its view is well formed, and the worker at each
    /// position carries that position as its identifier.
    pub closed spec fn wf(&self) -> bool {
        &&& self@.wf()
        &&& forall|i: int|
            0 <= i < self.workers@.len() ==> (#[trigger] self.workers@[i]).spec_id() == i
    }

    /// A well-formed pool has a well-formed view.
    pub proof fn lemma_view_wf(&self)
        requires
            self.wf(),
        ensures
            self@.wf(),
    {
    }

    /// A pool of `size` running workers with an empty queue.
    pub fn new(size: usize) -> (pool: ThreadPool<T>)
        requires
            size > 0,
        ensures
            pool.wf(),
            pool@ == PoolView::<T>::fresh(size as nat),
            pool@.live() == size,
    {
        let mut workers: Vec<Worker> = Vec::new();
        let mut id: usize = 0;
        while id < size
            invariant
                id <= size,
                workers@.len() == id,
                forall|i: int| 0 <= i < id ==> (#[trigger] workers@[i]).spec_id() == i,
                forall|i: int| 0 <= i < id ==> (#[trigger] workers@[i]).spec_running(),
            decreases size - id,
        {
            workers.push(Worker::new(id));
            id += 1;
        }
        let pool = ThreadPool { workers, queue: VecDeque::new(), closing: false };
        proof {
            assert(pool@.running =~= Seq::new(size as nat, |i: int| true));
            assert(pool@.queue =~= Seq::empty());
            lemma_live_all(pool@.running);
        }
        pool
    }

    /// Puts `task` at the end of the queue. Nothing else changes, and the call
    /// never waits. Tasks may be submitted only before teardown has begun.
    pub fn execute(&mut self, task: T)
        requires
            old(self).wf(),
            !old(self)@.closing,
        ensures
            final(self).wf(),
            final(self)@ == old(self)@.after_execute(task),
    {
        self.queue.push_back(Message::NewJob(task));
    }

    /// Begins teardown: appends one stop signal for each worker, behind every
    /// task submitted so far. A second call changes nothing.
    pub fn terminate(&mut self)
        requires
            old(self).wf(),
        ensures
            final(self).wf(),
            final(self)@ == old(self)@.after_terminate(),
    {
        if self.closing {
            return ;
        }
        let size: usize = self.workers.len();
        let mut sent: usize = 0;
        while sent < size
            invariant
                sent <= size,
                size == self.workers@.len(),
                self.workers == old(self).workers,
                self.closing == old(self).closing,
                self.queue@ == old(self).queue@ + sentinels::<T>(sent as nat),
            decreases size - sent,
        {
            self.queue.push_back(Message::Terminate);
            sent += 1;
            proof {
                assert(self.queue@ =~= old(self).queue@ + sentinels::<T>(sent as nat));
            }
        }
        self.closing = true;
        proof {
            assert(self@.running == old(self)@.running);
            lemma_terminate_wf(old(self)@);
        }
    }

    /// Worker `id` asks for its next entry. A stopped worker is told to exit
    /// and the pool is left as it was. A running worker that finds the queue
    /// empty is told to wait. Otherwise it removes the oldest entry: a task is
    /// handed to it to run, a stop signal stops it.
    pub fn claim(&mut self, id: usize) -> (r: Claim<T>)
        requires
            old(self).wf(),
            id < old(self)@.size(),
        ensures
            final(self).wf(),
            final(self)@ == old(self)@.after_claim(id as int),
            r == old(self)@.claim_result(id as int),
    {
        if !self.workers[id].is_running() {
            return Claim::Exit;
        }
        match self.queue.pop_front() {
            None => Claim::Wait,
            Some(entry) => {
                let mut worker: Worker = self.workers[id];
                let step = worker.receive(entry);
                self.workers.set(id, worker);
                proof {
                    let before = old(self)@;
                    assert(self@.queue =~= before.queue.drop_first());
                    if entry is Terminate {
                        assert(self@.running =~= before.running.update(id as int, false));
                    } else {
                        assert(self@.running =~= before.running);
                    }
                    lemma_claim_wf(before, id as int);
                }
                match step {
                    Step::Run(task) => Claim::Run(task),
                    Step::Exit => Claim::Exit,
                }
            },
        }
    }

    /// The number of workers the pool was built with.
    pub fn size(&self) -> (n: usize)
        requires
            self.wf(),
        ensures
            n == self@.size(),
            n > 0,
    {
        self.workers.len()
    }

    /// The number of entries waiting in the queue.
    pub fn pending(&self) -> (n: usize)
        ensures
            n == self@.queue.len(),
    {
        self.queue.len()
    }

    /// Whether teardown has begun.
    pub fn is_closing(&self) -> (b: bool)
        ensures
            b == self@.closing,
    {
        self.closing
    }

    /// Whether worker `id` is still running.
    pub fn is_running(&self, id: usize) -> (b: bool)
        requires
            id < self@.size(),
        ensures
            b == self@.running[id as int],
    {
        self.workers[id].is_running()
    }

    /// The number of workers still running.
    pub fn live_workers(&self) -> (n: usize)
        ensures
            n == self@.live(),
    {
        let ghost running = self@.running;
        let mut n: usize = 0;
        let mut i: usize = 0;
        while i < self.workers.len()
            invariant
                i <= self.workers@.len(),
                running == self@.running,
                running.len() == self.workers@.len(),
                n == live_count(running.take(i as int)),
                n <= i,
            decreases self.workers@.len() - i,
        {
            proof {
                lemma_live_take(running, i as int);
            }
            if self.workers[i].is_running() {
                n += 1;
            }
            i += 1;
        }
        proof {
            assert(running.take(i as int) =~= running);
        }
        n
    }

    /// Whether every worker has stopped, so that each worker's thread can be
    /// joined without waiting on the queue.
    pub fn is_finished(&self) -> (b: bool)
        ensures
            b == (self@.live() == 0),
            b == (forall|id: int| 0 <= id < self@.size() ==> !#[trigger] self@.running[id]),
    {
        proof {
            lemma_live_bounds(self@.running);
        }
        self.live_workers() == 0
    }
}

} // verus!
