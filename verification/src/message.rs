use vstd::prelude::*;

verus! {

/// One entry of the pool's queue: a task to run, or the signal that tells the
/// worker that claims it to stop.
pub enum Message<T> {
    NewJob(T),
    Terminate,
}

/// The tasks among the entries of `q`, in queue order.
pub open spec fn jobs_of<T>(q: Seq<Message<T>>) -> Seq<T>
    decreases q.len(),
{
    if q.len() == 0 {
        Seq::empty()
    } else {
        match q.last() {
            Message::NewJob(t) => jobs_of(q.drop_last()).push(t),
            Message::Terminate => jobs_of(q.drop_last()),
        }
    }
}

/// `n` stop signals in a row.
pub open spec fn sentinels<T>(n: nat) -> Seq<Message<T>> {
    Seq::new(n, |i: int| Message::Terminate)
}

/// A task at the end of the queue is the last of its tasks.
pub proof fn lemma_jobs_push<T>(q: Seq<Message<T>>, entry: Message<T>)
    ensures
        jobs_of(q.push(entry)) == match entry {
            Message::NewJob(t) => jobs_of(q).push(t),
            Message::Terminate => jobs_of(q),
        },
{
    assert(q.push(entry).drop_last() =~= q);
}

/// Stop signals at the end of the queue add no task.
pub proof fn lemma_jobs_sentinels<T>(q: Seq<Message<T>>, n: nat)
    ensures
        jobs_of(q + sentinels::<T>(n)) == jobs_of(q),
    decreases n,
{
    if n == 0 {
        assert(q + sentinels::<T>(n) =~= q);
    } else {
        lemma_jobs_sentinels(q, (n - 1) as nat);
        assert((q + sentinels::<T>(n)).drop_last() =~= q + sentinels::<T>((n - 1) as nat));
    }
}

/// The oldest entry, where it is a task, is the first of the queue's tasks;
/// where it is a stop signal, the tasks are those of the rest.
pub proof fn lemma_jobs_front<T>(q: Seq<Message<T>>)
    requires
        q.len() > 0,
    ensures
        jobs_of(q) == match q[0] {
            Message::NewJob(t) => seq![t] + jobs_of(q.drop_first()),
            Message::Terminate => jobs_of(q.drop_first()),
        },
    decreases q.len(),
{
    if q.len() == 1 {
        assert(q.drop_last() =~= Seq::<Message<T>>::empty());
        assert(q.drop_first() =~= Seq::<Message<T>>::empty());
        assert(jobs_of(q.drop_last()) =~= Seq::<T>::empty());
        match q[0] {
            Message::NewJob(t) => {
                assert(jobs_of(q) =~= seq![t] + jobs_of(q.drop_first()));
            },
            Message::Terminate => {},
        }
    } else {
        let init = q.drop_last();
        lemma_jobs_front(init);
        assert(init[0] == q[0]);
        assert(q.drop_first().drop_last() =~= init.drop_first());
        assert(q.drop_first().last() == q.last());
        match q[0] {
            Message::NewJob(t) => {
                match q.last() {
                    Message::NewJob(u) => {
                        assert(jobs_of(q) =~= seq![t] + jobs_of(q.drop_first()));
                    },
                    Message::Terminate => {},
                }
            },
            Message::Terminate => {},
        }
    }
}

/// A queue that holds tasks only has one task for each entry; a queue that
/// holds stop signals only has none.
pub proof fn lemma_jobs_len<T>(q: Seq<Message<T>>)
    ensures
        jobs_of(q).len() <= q.len(),
        (forall|i: int| 0 <= i < q.len() ==> (#[trigger] q[i]) is NewJob) ==> jobs_of(q).len()
            == q.len(),
        (forall|i: int| 0 <= i < q.len() ==> (#[trigger] q[i]) is Terminate) ==> jobs_of(q).len()
            == 0,
    decreases q.len(),
{
    if q.len() > 0 {
        let init = q.drop_last();
        lemma_jobs_len(init);
        assert forall|i: int| 0 <= i < init.len() implies init[i] == q[i] by {}
        if forall|i: int| 0 <= i < q.len() ==> (#[trigger] q[i]) is NewJob {
            assert(q.last() is NewJob);
            assert forall|i: int| 0 <= i < init.len() implies (#[trigger] init[i]) is NewJob by {
                assert(q[i] is NewJob);
            }
        }
        if forall|i: int| 0 <= i < q.len() ==> (#[trigger] q[i]) is Terminate {
            assert(q.last() is Terminate);
            assert forall|i: int| 0 <= i < init.len() implies (#[trigger] init[i]) is Terminate by {
                assert(q[i] is Terminate);
            }
        }
    }
}

} // verus!
