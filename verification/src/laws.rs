use vstd::prelude::*;
use crate::message::{
    Message, jobs_of, lemma_jobs_front, lemma_jobs_len, lemma_jobs_push, lemma_jobs_sentinels,
    sentinels,
};
use crate::model::{
    Claim, PoolView, lemma_claim_wf, lemma_execute_wf, lemma_live_all, lemma_live_bounds,
    lemma_live_stop, lemma_terminate_wf,
};

verus! {

/// One atomic step on a pool, as the threads that share it take them in some
/// order.
pub enum Event<T> {
    /// A caller submits a task.
    Execute(T),
    /// The owner asks for teardown.
    Terminate,
    /// The worker with this identifier asks for its next entry.
    Claim(usize),
}

/// Whether `e` may be taken in state `v`: tasks are submitted only before
/// teardown, and only the pool's own workers claim.
pub open spec fn allowed<T>(v: PoolView<T>, e: Event<T>) -> bool {
    match e {
        Event::Execute(_) => !v.closing,
        Event::Terminate => true,
        Event::Claim(id) => id < v.size(),
    }
}

/// The state after `e` was taken in state `v`.
pub open spec fn step<T>(v: PoolView<T>, e: Event<T>) -> PoolView<T> {
    match e {
        Event::Execute(task) => v.after_execute(task),
        Event::Terminate => v.after_terminate(),
        Event::Claim(id) => v.after_claim(id as int),
    }
}

/// The state after the steps of `events` were taken in order, from `v`.
pub open spec fn run<T>(v: PoolView<T>, events: Seq<Event<T>>) -> PoolView<T>
    decreases events.len(),
{
    if events.len() == 0 {
        v
    } else {
        step(run(v, events.drop_last()), events.last())
    }
}

/// Whether each step of `events` may be taken in the state it meets.
pub open spec fn permitted<T>(v: PoolView<T>, events: Seq<Event<T>>) -> bool
    decreases events.len(),
{
    events.len() == 0 || (permitted(v, events.drop_last()) && allowed(
        run(v, events.drop_last()),
        events.last(),
    ))
}

/// The tasks that `events` submit, in order.
pub open spec fn submitted<T>(events: Seq<Event<T>>) -> Seq<T>
    decreases events.len(),
{
    if events.len() == 0 {
        Seq::empty()
    } else {
        match events.last() {
            Event::Execute(task) => submitted(events.drop_last()).push(task),
            _ => submitted(events.drop_last()),
        }
    }
}

/// The tasks that the claims of `events` hand to workers, in order, from `v`.
pub open spec fn delivered<T>(v: PoolView<T>, events: Seq<Event<T>>) -> Seq<T>
    decreases events.len(),
{
    if events.len() == 0 {
        Seq::empty()
    } else {
        let sofar = delivered(v, events.drop_last());
        match events.last() {
            Event::Claim(id) => match run(v, events.drop_last()).claim_result(id as int) {
                Claim::Run(task) => sofar.push(task),
                _ => sofar,
            },
            _ => sofar,
        }
    }
}

/// How many workers the claims of `events` stop, from `v`.
pub open spec fn stopped<T>(v: PoolView<T>, events: Seq<Event<T>>) -> nat
    decreases events.len(),
{
    if events.len() == 0 {
        0
    } else {
        let sofar = stopped(v, events.drop_last());
        let before = run(v, events.drop_last());
        match events.last() {
            Event::Claim(id) => if before.running[id as int] && before.claim_result(id as int)
                is Exit {
                sofar + 1
            } else {
                sofar
            },
            _ => sofar,
        }
    }
}

/// A pool built with a positive number of workers is well formed, all of its
/// workers run, and nothing is queued.
pub proof fn law_fresh_pool<T>(size: nat)
    requires
        size > 0,
    ensures
        PoolView::<T>::fresh(size).wf(),
        PoolView::<T>::fresh(size).size() == size,
        PoolView::<T>::fresh(size).live() == size,
        PoolView::<T>::fresh(size).queue.len() == 0,
        !PoolView::<T>::fresh(size).closing,
{
    lemma_live_all(PoolView::<T>::fresh(size).running);
}

/// Every permitted step keeps the state well formed and the number of workers
/// fixed, and teardown, once begun, stays begun.
pub proof fn law_step_preserves_wf<T>(v: PoolView<T>, e: Event<T>)
    requires
        v.wf(),
        allowed(v, e),
    ensures
        step(v, e).wf(),
        step(v, e).size() == v.size(),
        v.closing ==> step(v, e).closing,
{
    match e {
        Event::Execute(task) => lemma_execute_wf(v, task),
        Event::Terminate => lemma_terminate_wf(v),
        Event::Claim(id) => lemma_claim_wf(v, id as int),
    }
}

/// A claim hands out the oldest pending task or none: the tasks pending before
/// it are the task handed out, if any, followed by the tasks pending after it.
pub proof fn law_claim_takes_oldest<T>(v: PoolView<T>, id: int)
    requires
        v.wf(),
        0 <= id < v.size(),
    ensures
        jobs_of(v.queue) == match v.claim_result(id) {
            Claim::Run(task) => seq![task] + jobs_of(v.after_claim(id).queue),
            _ => jobs_of(v.after_claim(id).queue),
        },
{
    if v.running[id] && v.queue.len() > 0 {
        lemma_jobs_front(v.queue);
    }
}

/// Whatever the order in which callers and workers take their steps, each task
/// is handed out exactly once or is still pending: the tasks handed out so
/// far, followed by the tasks pending now, are the tasks that were pending at
/// the start followed by the tasks submitted since, in order of submission.
pub proof fn law_exactly_once<T>(v: PoolView<T>, events: Seq<Event<T>>)
    requires
        v.wf(),
        permitted(v, events),
    ensures
        run(v, events).wf(),
        run(v, events).size() == v.size(),
        v.closing ==> run(v, events).closing,
        delivered(v, events) + jobs_of(run(v, events).queue) == jobs_of(v.queue) + submitted(
            events,
        ),
        run(v, events).live() + stopped(v, events) == v.live(),
    decreases events.len(),
{
    if events.len() == 0 {
        assert(delivered(v, events) + jobs_of(v.queue) =~= jobs_of(v.queue) + submitted(events));
    } else {
        let prev = events.drop_last();
        let before = run(v, prev);
        let after = run(v, events);
        law_exactly_once(v, prev);
        law_step_preserves_wf(before, events.last());
        match events.last() {
            Event::Execute(task) => {
                lemma_jobs_push(before.queue, Message::NewJob(task));
                assert(delivered(v, prev) + jobs_of(before.queue).push(task) =~= (delivered(
                    v,
                    prev,
                ) + jobs_of(before.queue)).push(task));
                assert(jobs_of(v.queue) + submitted(prev).push(task) =~= (jobs_of(v.queue)
                    + submitted(prev)).push(task));
            },
            Event::Terminate => {
                if !before.closing {
                    lemma_jobs_sentinels(before.queue, before.size());
                }
            },
            Event::Claim(id) => {
                law_claim_takes_oldest(before, id as int);
                match before.claim_result(id as int) {
                    Claim::Run(task) => {
                        assert(delivered(v, prev).push(task) + jobs_of(after.queue) =~= delivered(
                            v,
                            prev,
                        ) + (seq![task] + jobs_of(after.queue)));
                    },
                    _ => {},
                }
                if before.running[id as int] && before.queue.len() > 0 && before.queue[0]
                    is Terminate {
                    lemma_live_stop(before.running, id as int);
                }
            },
        }
    }
}

/// Once every worker has stopped, nothing is left in the queue: neither a task
/// nor a stop signal.
pub proof fn law_stopped_pool_is_drained<T>(v: PoolView<T>)
    requires
        v.wf(),
        v.live() == 0,
    ensures
        v.closing,
        v.queue.len() == 0,
{
    lemma_live_bounds(v.running);
    if !v.closing {
        assert(v.running[0]);
    }
}

/// Teardown completes the work: in any run that ends with every worker
/// stopped, every task that was pending or submitted has been handed to a
/// worker, exactly once and in order, and each worker was stopped by a stop
/// signal of its own.
pub proof fn law_teardown_runs_every_task<T>(v: PoolView<T>, events: Seq<Event<T>>)
    requires
        v.wf(),
        permitted(v, events),
        run(v, events).live() == 0,
    ensures
        delivered(v, events) == jobs_of(v.queue) + submitted(events),
        run(v, events).queue.len() == 0,
        stopped(v, events) == v.live(),
{
    law_exactly_once(v, events);
    law_stopped_pool_is_drained(run(v, events));
    assert(jobs_of(run(v, events).queue) =~= Seq::<T>::empty());
    assert(delivered(v, events) + Seq::<T>::empty() =~= delivered(v, events));
}

/// Teardown cannot stall: once it has begun, a worker that still runs finds an
/// entry whenever it claims, and its claim shortens the queue by one. So the
/// workers stop after as many claims as the queue has entries.
pub proof fn law_teardown_never_waits<T>(v: PoolView<T>, id: int)
    requires
        v.wf(),
        v.closing,
        0 <= id < v.size(),
        v.running[id],
    ensures
        !(v.claim_result(id) is Wait),
        v.after_claim(id).queue.len() + 1 == v.queue.len(),
{
    lemma_live_bounds(v.running);
}

/// Once teardown has begun, the queue holds exactly one stop signal for each
/// worker still running, behind every pending task.
pub proof fn law_one_signal_per_worker<T>(v: PoolView<T>)
    requires
        v.wf(),
        v.closing,
    ensures
        v.queue.len() == jobs_of(v.queue).len() + v.live(),
        forall|i: int|
            0 <= i < v.queue.len() ==> ((#[trigger] v.queue[i]) is Terminate <==> i >= jobs_of(
                v.queue,
            ).len()),
{
    let n = (v.queue.len() - v.live()) as int;
    let head = v.queue.take(n);
    let tail = v.queue.skip(n);
    assert(tail =~= sentinels::<T>(v.live()));
    assert(v.queue =~= head + tail);
    lemma_jobs_sentinels(head, v.live());
    lemma_jobs_len(head);
}

/// Before teardown no worker is told to exit: a claim hands out the oldest
/// task, or tells the worker to wait where the queue is empty.
pub proof fn law_workers_live_until_teardown<T>(v: PoolView<T>, id: int)
    requires
        v.wf(),
        !v.closing,
        0 <= id < v.size(),
    ensures
        v.live() == v.size(),
        !(v.claim_result(id) is Exit),
        v.claim_result(id) is Wait <==> v.queue.len() == 0,
        v.after_claim(id).running == v.running,
{
    lemma_live_all(v.running);
}

/// A stopped worker stays stopped, whatever step is taken next.
pub proof fn law_stopped_is_terminal<T>(v: PoolView<T>, e: Event<T>, id: int)
    requires
        v.wf(),
        allowed(v, e),
        0 <= id < v.size(),
        !v.running[id],
    ensures
        !step(v, e).running[id],
{
}

/// A worker that is handed a task is still running afterwards, and no other
/// worker's state changes: it stops only at a later claim of its own, which it
/// makes after the task has returned.
pub proof fn law_task_keeps_worker_running<T>(v: PoolView<T>, id: int)
    requires
        v.wf(),
        0 <= id < v.size(),
        v.claim_result(id) is Run,
    ensures
        v.after_claim(id).running == v.running,
        v.after_claim(id).running[id],
{
}

/// A claim stops at most the worker that makes it, and stops it exactly when a
/// running worker finds a stop signal at the head of the queue.
pub proof fn law_claim_stops_only_claimant<T>(v: PoolView<T>, id: int, other: int)
    requires
        v.wf(),
        0 <= id < v.size(),
        0 <= other < v.size(),
        other != id,
    ensures
        v.after_claim(id).running[other] == v.running[other],
        v.after_claim(id).running[id] == (v.running[id] && !(v.queue.len() > 0 && v.queue[0]
            is Terminate)),
{
}

/// The life of a pool, from construction to the end of teardown: in any run
/// that starts from a new pool of `size` workers and ends with every worker
/// stopped, the tasks handed to workers are exactly the tasks submitted, each
/// once and in order of submission, the queue is empty, and exactly `size`
/// workers were stopped.
pub proof fn law_pool_lifetime<T>(size: nat, events: Seq<Event<T>>)
    requires
        size > 0,
        permitted(PoolView::<T>::fresh(size), events),
        run(PoolView::<T>::fresh(size), events).live() == 0,
    ensures
        delivered(PoolView::<T>::fresh(size), events) == submitted(events),
        run(PoolView::<T>::fresh(size), events).queue.len() == 0,
        stopped(PoolView::<T>::fresh(size), events) == size,
{
    let v = PoolView::<T>::fresh(size);
    law_fresh_pool::<T>(size);
    law_teardown_runs_every_task(v, events);
    assert(jobs_of(v.queue) =~= Seq::<T>::empty());
    assert(Seq::<T>::empty() + submitted(events) =~= submitted(events));
}

} // verus!
