use vstd::prelude::*;
use crate::message::{Message, sentinels};

verus! {

/// How many entries of `running` are `true`.
pub open spec fn live_count(running: Seq<bool>) -> nat
    decreases running.len(),
{
    if running.len() == 0 {
        0
    } else {
        live_count(running.drop_last()) + if running.last() { 1nat } else { 0nat }
    }
}

/// A sequence whose entries are all `true` counts its own length.
pub proof fn lemma_live_all(running: Seq<bool>)
    requires
        forall|i: int| 0 <= i < running.len() ==> #[trigger] running[i],
    ensures
        live_count(running) == running.len(),
    decreases running.len(),
{
    if running.len() > 0 {
        lemma_live_all(running.drop_last());
    }
}

/// The count is at most the length, reaches it only where every entry is
/// `true`, and is zero only where none is.
pub proof fn lemma_live_bounds(running: Seq<bool>)
    ensures
        live_count(running) <= running.len(),
        live_count(running) == running.len() <==> forall|i: int|
            0 <= i < running.len() ==> #[trigger] running[i],
        live_count(running) == 0 <==> forall|i: int|
            0 <= i < running.len() ==> !#[trigger] running[i],
    decreases running.len(),
{
    if running.len() > 0 {
        let init = running.drop_last();
        lemma_live_bounds(init);
        assert forall|i: int| 0 <= i < init.len() implies init[i] == running[i] by {}
        if live_count(running) == running.len() {
            assert forall|i: int| 0 <= i < running.len() implies #[trigger] running[i] by {
                if i < init.len() {
                    assert(init[i]);
                }
            }
        }
        if live_count(running) == 0 {
            assert forall|i: int| 0 <= i < running.len() implies !#[trigger] running[i] by {
                if i < init.len() {
                    assert(!init[i]);
                }
            }
        }
        if forall|i: int| 0 <= i < running.len() ==> #[trigger] running[i] {
            assert(running.last());
            assert forall|i: int| 0 <= i < init.len() implies #[trigger] init[i] by {
                assert(running[i]);
            }
        }
        if forall|i: int| 0 <= i < running.len() ==> !#[trigger] running[i] {
            assert(!running.last());
            assert forall|i: int| 0 <= i < init.len() implies !#[trigger] init[i] by {
                assert(!running[i]);
            }
        }
    }
}

/// Stopping one running worker lowers the count by one.
pub proof fn lemma_live_stop(running: Seq<bool>, id: int)
    requires
        0 <= id < running.len(),
        running[id],
    ensures
        live_count(running.update(id, false)) + 1 == live_count(running),
    decreases running.len(),
{
    let after = running.update(id, false);
    if id == running.len() - 1 {
        assert(after.drop_last() =~= running.drop_last());
    } else {
        lemma_live_stop(running.drop_last(), id);
        assert(after.drop_last() =~= running.drop_last().update(id, false));
    }
}

/// Counting one more entry adds one where that entry is `true`.
pub proof fn lemma_live_take(running: Seq<bool>, n: int)
    requires
        0 <= n < running.len(),
    ensures
        live_count(running.take(n + 1)) == live_count(running.take(n)) + if running[n] {
            1nat
        } else {
            0nat
        },
{
    assert(running.take(n + 1).drop_last() =~= running.take(n));
}

/// The answer to a worker that asks for its next entry.
pub enum Claim<T> {
    /// The worker took the oldest entry, a task, off the queue and runs it.
    Run(T),
    /// The queue is empty: the worker blocks until an entry arrives.
    Wait,
    /// The worker is stopped: its thread ends.
    Exit,
}

/// The pool as a mathematical value.
pub struct PoolView<T> {
    /// The entries not yet claimed, oldest first.
    pub queue: Seq<Message<T>>,
    /// For each worker, by identifier, whether it is still running.
    pub running: Seq<bool>,
    /// Whether teardown has begun.
    pub closing: bool,
}

impl<T> PoolView<T> {
    /// The number of workers the pool was built with.
    pub open spec fn size(self) -> nat {
        self.running.len()
    }

    /// The number of workers still running.
    pub open spec fn live(self) -> nat {
        live_count(self.running)
    }

    /// The state right after construction with `size` workers.
    pub open spec fn fresh(size: nat) -> PoolView<T> {
        PoolView { queue: Seq::empty(), running: Seq::new(size, |i: int| true), closing: false }
    }

    /// The pool has at least one worker. Before teardown every worker runs and
    /// the queue holds tasks only. Once teardown has begun the queue holds the
    /// tasks still pending, followed by exactly one stop signal for each worker
    /// still running, and no task is pending once a worker has stopped.
    pub open spec fn wf(self) -> bool {
        &&& self.size() > 0
        &&& self.live() <= self.size()
        &&& if self.closing {
            &&& self.live() <= self.queue.len()
            &&& forall|i: int|
                0 <= i < self.queue.len() ==> ((#[trigger] self.queue[i]) is Terminate <==> i
                    >= self.queue.len() - self.live())
            &&& self.live() < self.size() ==> self.queue.len() == self.live()
        } else {
            &&& forall|i: int| 0 <= i < self.running.len() ==> #[trigger] self.running[i]
            &&& forall|i: int| 0 <= i < self.queue.len() ==> (#[trigger] self.queue[i]) is NewJob
        }
    }

    /// The state after a task was submitted.
    pub open spec fn after_execute(self, task: T) -> PoolView<T> {
        PoolView { queue: self.queue.push(Message::NewJob(task)), ..self }
    }

    /// The state after teardown was asked for: the first request appends one
    /// stop signal for each worker, a later one changes nothing.
    pub open spec fn after_terminate(self) -> PoolView<T> {
        if self.closing {
            self
        } else {
            PoolView {
                queue: self.queue + sentinels(self.size()),
                running: self.running,
                closing: true,
            }
        }
    }

    /// What worker `id` is told when it asks for its next entry.
    pub open spec fn claim_result(self, id: int) -> Claim<T> {
        if !self.running[id] {
            Claim::Exit
        } else if self.queue.len() == 0 {
            Claim::Wait
        } else {
            match self.queue[0] {
                Message::NewJob(t) => Claim::Run(t),
                Message::Terminate => Claim::Exit,
            }
        }
    }

    /// The state after worker `id` asked for its next entry: a running worker
    /// removes the oldest entry, and stops if that entry is a stop signal.
    pub open spec fn after_claim(self, id: int) -> PoolView<T> {
        if !self.running[id] || self.queue.len() == 0 {
            self
        } else {
            PoolView {
                queue: self.queue.drop_first(),
                running: if self.queue[0] is Terminate {
                    self.running.update(id, false)
                } else {
                    self.running
                },
                closing: self.closing,
            }
        }
    }
}

/// Submitting a task before teardown keeps the state well formed.
pub proof fn lemma_execute_wf<T>(v: PoolView<T>, task: T)
    requires
        v.wf(),
        !v.closing,
    ensures
        v.after_execute(task).wf(),
{
}

/// Asking for teardown keeps the state well formed, and from then on the
/// queue ends in one stop signal for each running worker.
pub proof fn lemma_terminate_wf<T>(v: PoolView<T>)
    requires
        v.wf(),
    ensures
        v.after_terminate().wf(),
        v.after_terminate().closing,
{
    if !v.closing {
        lemma_live_all(v.running);
    }
}

/// A claim keeps the state well formed, whichever worker makes it.
pub proof fn lemma_claim_wf<T>(v: PoolView<T>, id: int)
    requires
        v.wf(),
        0 <= id < v.size(),
    ensures
        v.after_claim(id).wf(),
        v.after_claim(id).size() == v.size(),
        v.after_claim(id).closing == v.closing,
{
    let w = v.after_claim(id);
    if v.running[id] && v.queue.len() > 0 {
        lemma_live_bounds(v.running);
        if v.queue[0] is Terminate {
            lemma_live_stop(v.running, id);
        }
        assert(forall|i: int| 0 <= i < w.queue.len() ==> w.queue[i] == v.queue[i + 1]);
        lemma_live_bounds(w.running);
    }
}

} // verus!
