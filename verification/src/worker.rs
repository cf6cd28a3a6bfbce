use vstd::prelude::*;
use crate::message::Message;

verus! {

/// What a worker does with the entry it has claimed.
pub enum Step<T> {
    /// Run the task that was claimed, then claim again.
    Run(T),
    /// Leave the loop: the worker's thread ends.
    Exit,
}

/// A worker of the pool: its place in the pool and whether it still claims
/// entries. A worker starts running and, once stopped, stays stopped.
#[derive(Clone, Copy, Debug)]
pub struct Worker {
    id: usize,
    running: bool,
}

impl Worker {
    /// The worker's identifier.
    pub closed spec fn spec_id(&self) -> usize {
        self.id
    }

    /// Whether the worker has not yet been told to stop.
    pub closed spec fn spec_running(&self) -> bool {
        self.running
    }

    /// A running worker with the given identifier.
    pub fn new(id: usize) -> (w: Worker)
        ensures
            w.spec_id() == id,
            w.spec_running(),
    {
        Worker { id, running: true }
    }

    #[verifier::when_used_as_spec(spec_id)]
    pub fn id(&self) -> (id: usize)
        ensures
            id == self.spec_id(),
    {
        self.id
    }

    #[verifier::when_used_as_spec(spec_running)]
    pub fn is_running(&self) -> (b: bool)
        ensures
            b == self.spec_running(),
    {
        self.running
    }

    /// The transition of a running worker on the entry it claimed: a task is
    /// handed back to be run and the worker keeps running; a stop signal stops
    /// it for good.
    pub fn receive<T>(&mut self, entry: Message<T>) -> (step: Step<T>)
        requires
            old(self).spec_running(),
        ensures
            final(self).spec_id() == old(self).spec_id(),
            final(self).spec_running() == (entry is NewJob),
            step == match entry {
                Message::NewJob(t) => Step::Run(t),
                Message::Terminate => Step::Exit,
            },
    {
        match entry {
            Message::NewJob(t) => Step::Run(t),
            Message::Terminate => {
                self.running = false;
                Step::Exit
            },
        }
    }
}

} // verus!
