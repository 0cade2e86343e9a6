//! The ready queue: tasks waiting for the processor, first come first served.
use vstd::prelude::*;
use std::collections::VecDeque;

verus! {

/// The ready queue, holding pids.
#[derive(Debug)]
pub struct TaskManager {
    ready_queue: VecDeque<usize>,
}

impl View for TaskManager {
    type V = Seq<usize>;

    closed spec fn view(&self) -> Seq<usize> {
        self.ready_queue@
    }
}

impl TaskManager {
    /// An empty queue.
    pub fn new() -> (ret: Self)
        ensures
            ret@ == Seq::<usize>::empty(),
    {
        TaskManager { ready_queue: VecDeque::new() }
    }

    /// Puts task `pid` at the back of the queue.
    pub fn add(&mut self, pid: usize)
        ensures
            final(self)@ == old(self)@.push(pid),
    {
        self.ready_queue.push_back(pid);
    }

    /// Takes the task at the front of the queue, if any.
    pub fn fetch(&mut self) -> (ret: Option<usize>)
        ensures
            old(self)@.len() == 0 ==> ret is None && final(self)@ == old(self)@,
            old(self)@.len() > 0 ==> ret == Some(old(self)@[0]) && final(self)@ == old(self)@.drop_first(),
    {
        self.ready_queue.pop_front()
    }
}

/// Tasks leave the queue in the order they joined it: after `a` and then `b`
/// join a queue `q`, fetching everything in `q` first leaves `a` in front of `b`.
pub proof fn lemma_queue_fifo(q: Seq<usize>, a: usize, b: usize)
    ensures
        q.push(a).push(b).skip(q.len() as int) == seq![a, b],
{
    assert(q.push(a).push(b).skip(q.len() as int) =~= seq![a, b]);
}

} // verus!
