//! The processor: which task, if any, it is running.
use vstd::prelude::*;
use super::manager::TaskManager;
use super::task::{TaskRecord, TaskStatus, TaskTable, live, rec, table_wf};
use super::{current_ok, init_ok, queue_ok};

verus! {

/// The processor's state: the pid of the task it runs.
#[derive(Debug)]
pub struct Processor {
    current: Option<usize>,
}

impl View for Processor {
    type V = Option<usize>;

    closed spec fn view(&self) -> Option<usize> {
        self.current
    }
}

impl Processor {
    /// A processor that runs no task.
    pub fn new() -> (ret: Self)
        ensures
            ret@ is None,
    {
        Processor { current: None }
    }

    /// Takes the running task off the processor and returns it.
    pub fn take_current(&mut self) -> (ret: Option<usize>)
        ensures
            ret == old(self)@,
            final(self)@ is None,
    {
        self.current.take()
    }

    /// The running task.
    pub fn current(&self) -> (ret: Option<usize>)
        ensures
            ret == self@,
    {
        self.current
    }

    /// One round of the scheduling loop: takes the task at the front of the
    /// ready queue, marks it running and puts it on the processor. Returns
    /// its pid, which the caller switches to; `None` when the queue is empty.
    pub fn run(&mut self, manager: &mut TaskManager, tasks: &mut TaskTable) -> (ret: Option<usize>)
        requires
            table_wf(old(tasks)@),
            queue_ok(old(tasks)@, old(manager)@),
        ensures
            old(manager)@.len() == 0 ==> {
                &&& ret is None
                &&& final(self)@ == old(self)@
                &&& final(manager)@ == old(manager)@
                &&& final(tasks)@ == old(tasks)@
            },
            old(manager)@.len() > 0 ==> {
                let pid = old(manager)@[0];
                &&& ret == Some(pid)
                &&& final(self)@ == Some(pid)
                &&& final(manager)@ == old(manager)@.drop_first()
                &&& final(tasks)@ == old(tasks)@.update(
                    pid as int,
                    Some(TaskRecord { task_status: TaskStatus::Running, ..rec(old(tasks)@, pid as int) }),
                )
            },
            table_wf(final(tasks)@),
            queue_ok(final(tasks)@, final(manager)@),
            current_ok(old(tasks)@, old(self)@) ==> current_ok(final(tasks)@, final(self)@),
            forall|i: usize| init_ok(old(tasks)@, i) ==> init_ok(final(tasks)@, i),
    {
        match manager.fetch() {
            Some(pid) => {
                proof {
                    assert(live(tasks@, pid as int));
                }
                let mut t = tasks.take(pid);
                t.task_status = TaskStatus::Running;
                tasks.put(pid, t);
                self.current = Some(pid);
                proof {
                    super::lemma_status_change_keeps_wf(old(tasks)@, pid as int, TaskStatus::Running);
                    let s = old(tasks)@;
                    let s2 = tasks@;
                    let q = manager@;
                    assert forall|i: int| 0 <= i < q.len() implies live(s2, #[trigger] q[i] as int)
                        && rec(s2, q[i] as int).task_status == TaskStatus::Ready by {
                        assert(q[i] == old(manager)@[i + 1]);
                        assert(old(manager)@[i + 1] != old(manager)@[0]);
                    }
                }
                Some(pid)
            },
            None => None,
        }
    }
}

} // verus!
