//! Process system calls, on the calling task, the processor and the ready queue.
use vstd::prelude::*;
use crate::task::manager::TaskManager;
use crate::task::process::Processor;
use crate::task::task::{
    TaskRecord, TaskStatus, TaskTable, after_fork, after_wait, is_first_reapable, lemma_first_reapable,
    lemma_fork_keeps_wf, lemma_wait_keeps_wf, linked, live, reapable, rec, table_wf,
    wait_code, wait_exit_code, child_matches,
};
use crate::task::{
    current_ok, init_ok, lemma_regs_change_keeps_wf, queue_ok, suspend_current_and_run_next,
};
use crate::trap::{TrapFrame, REG_A0};

verus! {

/// The running task gives up the processor: it goes to the back of the
/// ready queue. Returns `0`, the value the task sees once it runs again.
pub fn sys_yield(processor: &mut Processor, manager: &mut TaskManager, tasks: &mut TaskTable) -> (r:
    isize)
    requires
        old(processor)@ is Some,
        table_wf(old(tasks)@),
        queue_ok(old(tasks)@, old(manager)@),
        current_ok(old(tasks)@, old(processor)@),
    ensures
        r == 0,
        ({
            let cur = old(processor)@.unwrap();
            &&& final(processor)@ is None
            &&& final(manager)@ == old(manager)@.push(cur)
            &&& final(tasks)@ == old(tasks)@.update(
                cur as int,
                Some(TaskRecord { task_status: TaskStatus::Ready, ..rec(old(tasks)@, cur as int) }),
            )
        }),
        table_wf(final(tasks)@),
        queue_ok(final(tasks)@, final(manager)@),
        forall|i: usize| init_ok(old(tasks)@, i) ==> init_ok(final(tasks)@, i),
{
    suspend_current_and_run_next(processor, manager, tasks);
    0
}

/// The time in milliseconds, `time_ms`, as the call returns it.
pub fn sys_get_time(time_ms: usize) -> (r: isize)
    ensures
        r == time_ms as isize,
{
    time_ms as isize
}

/// `sys_get_time` keeps the order of clock readings: for a clock that never
/// goes back, a later call returns no less, as long as the readings fit in
/// an `isize`.
pub proof fn lemma_get_time_keeps_order(t1: usize, t2: usize)
    requires
        t1 <= t2,
        t2 <= isize::MAX,
    ensures
        t1 as isize <= t2 as isize,
{
}

/// The pid of the running task.
pub fn sys_getpid(processor: &Processor, tasks: &TaskTable) -> (r: isize)
    requires
        processor@ is Some,
        table_wf(tasks@),
        current_ok(tasks@, processor@),
    ensures
        r == processor@.unwrap() as isize,
        r >= 0,
{
    let cur = processor.current().unwrap();
    let pid = tasks.get(cur).pid;
    pid as isize
}

/// The table after the running task `cur` forks a child with pid `child`
/// by system call: as [`after_fork`], and the child's saved `a0`, the
/// register the call returns in, is `0`.
pub open spec fn after_sys_fork(s: Seq<Option<TaskRecord>>, cur: int, child: usize) -> Seq<
    Option<TaskRecord>,
> {
    let s1 = after_fork(s, cur, child);
    let c = rec(s1, child as int);
    s1.update(
        child as int,
        Some(
            TaskRecord {
                trap_cx: TrapFrame { x: c.trap_cx.x.update(REG_A0 as int, 0), ..c.trap_cx },
                ..c
            },
        ),
    )
}

/// The running task forks a child with pid `new_pid`, which joins the back
/// of the ready queue. Returns `new_pid` to the parent; the child's saved
/// `a0` is set to `0`, so the call returns `0` in the child.
pub fn sys_fork(
    processor: &Processor,
    manager: &mut TaskManager,
    tasks: &mut TaskTable,
    new_pid: usize,
) -> (r: isize)
    requires
        processor@ is Some,
        table_wf(old(tasks)@),
        queue_ok(old(tasks)@, old(manager)@),
        current_ok(old(tasks)@, processor@),
        !live(old(tasks)@, new_pid as int),
        new_pid <= old(tasks)@.len(),
        new_pid < isize::MAX,
    ensures
        r == new_pid as isize,
        final(tasks)@ == after_sys_fork(old(tasks)@, processor@.unwrap() as int, new_pid),
        rec(final(tasks)@, new_pid as int).trap_cx.x[REG_A0 as int] == 0,
        rec(final(tasks)@, new_pid as int).fd_table == rec(old(tasks)@, processor@.unwrap() as int).fd_table,
        forall|r: int|
            0 <= r < 32 && r != REG_A0 ==> #[trigger] rec(final(tasks)@, new_pid as int).trap_cx.x[r]
                == rec(old(tasks)@, processor@.unwrap() as int).trap_cx.x[r],
        rec(final(tasks)@, new_pid as int).parent == Some(processor@.unwrap()),
        rec(final(tasks)@, processor@.unwrap() as int).trap_cx == rec(
            old(tasks)@,
            processor@.unwrap() as int,
        ).trap_cx,
        final(manager)@ == old(manager)@.push(new_pid),
        table_wf(final(tasks)@),
        queue_ok(final(tasks)@, final(manager)@),
        current_ok(final(tasks)@, processor@),
        forall|i: usize| init_ok(old(tasks)@, i) ==> init_ok(final(tasks)@, i),
{
    let cur = processor.current().unwrap();
    let ghost s = tasks@;
    tasks.fork(cur, new_pid);
    let ghost s1 = tasks@;
    let mut child = tasks.take(new_pid);
    child.trap_cx.x[REG_A0] = 0;
    tasks.put(new_pid, child);
    manager.add(new_pid);
    proof {
        lemma_fork_keeps_wf(s, cur as int, new_pid);
        let f = TrapFrame { x: rec(s1, new_pid as int).trap_cx.x.update(REG_A0 as int, 0), ..rec(s1, new_pid as int).trap_cx };
        lemma_regs_change_keeps_wf(s1, new_pid as int, f);
        assert(tasks@ =~= after_sys_fork(s, cur as int, new_pid));
        let s2 = tasks@;
        let q0 = old(manager)@;
        let q = manager@;
        assert forall|i: int| 0 <= i < q.len() implies live(s2, #[trigger] q[i] as int) && rec(
            s2,
            q[i] as int,
        ).task_status == TaskStatus::Ready by {
            if i < q0.len() {
                assert(q[i] == q0[i]);
                assert(live(s, q0[i] as int));
                assert(q0[i] != cur);
            }
        }
        assert(q.no_duplicates()) by {
            assert forall|i: int, j: int| 0 <= i < q.len() && 0 <= j < q.len() && i != j implies q[i]
                != q[j] by {
                if i < q0.len() {
                    assert(live(s, q0[i] as int));
                }
                if j < q0.len() {
                    assert(live(s, q0[j] as int));
                }
            }
        }
    }
    new_pid as isize
}

/// The running task waits for a child: `pid == -1` accepts any child, else
/// only the child with that pid. Returns `-1` when no child is accepted,
/// `-2` when accepted children exist but none has exited, else collects the
/// first exited accepted child: it leaves the table and the task's
/// children, and its pid and exit code are returned.
pub fn sys_waitpid(processor: &Processor, tasks: &mut TaskTable, pid: isize) -> (r: (isize, Option<
    i32,
>))
    requires
        processor@ is Some,
        table_wf(old(tasks)@),
        current_ok(old(tasks)@, processor@),
    ensures
        ({
            let cur = processor@.unwrap() as int;
            &&& r.0 == wait_code(old(tasks)@, cur, pid)
            &&& r.1 == wait_exit_code(old(tasks)@, cur, pid)
            &&& final(tasks)@ == after_wait(old(tasks)@, cur, pid)
        }),
        r.0 >= -2,
        r.0 < 0 ==> final(tasks)@ == old(tasks)@ && r.1 is None,
        r.0 >= 0 ==> {
            &&& !live(final(tasks)@, r.0 as int)
            &&& live(old(tasks)@, r.0 as int)
            &&& rec(old(tasks)@, r.0 as int).task_status == TaskStatus::Zombie
            &&& rec(old(tasks)@, processor@.unwrap() as int).children.contains(r.0 as usize)
            &&& (pid == -1 || r.0 as usize == pid as usize)
            &&& r.1 == Some(rec(old(tasks)@, r.0 as int).exit_code)
            &&& !rec(final(tasks)@, processor@.unwrap() as int).children.contains(r.0 as usize)
        },
        table_wf(final(tasks)@),
        forall|q: Seq<usize>| queue_ok(old(tasks)@, q) ==> queue_ok(final(tasks)@, q),
        current_ok(final(tasks)@, processor@),
        forall|i: usize| init_ok(old(tasks)@, i) ==> init_ok(final(tasks)@, i),
{
    let cur = processor.current().unwrap();
    let ghost s = tasks@;
    let ghost ch = rec(s, cur as int).children;
    proof {
        lemma_wait_keeps_wf(s, cur as int, pid);
        crate::task::task::lemma_wait_failure_codes(s, cur as int, pid);
        if wait_code(s, cur as int, pid) >= 0 {
            crate::task::task::lemma_wait_collects_child(s, cur as int, pid);
        }
    }
    let t = tasks.get(cur);
    let n = t.children.len();
    let mut i: usize = 0;
    let mut any = false;
    while i < n
        invariant
            t@ == rec(s, cur as int),
            ch == rec(s, cur as int).children,
            t.children@ == ch,
            n == ch.len(),
            i <= n,
            any <==> exists|j: int| 0 <= j < i && child_matches(pid, #[trigger] ch[j]),
        decreases n - i,
    {
        let c = t.children[i];
        if pid == -1 || c == #[verifier::truncate] (pid as usize) {
            assert(child_matches(pid, ch[i as int]));
            any = true;
        }
        i = i + 1;
    }
    if !any {
        return (-1, None);
    }
    let mut k: usize = 0;
    let mut found = false;
    while k < n && !found
        invariant
            t@ == rec(s, cur as int),
            ch == rec(s, cur as int).children,
            t.children@ == ch,
            live(s, cur as int),
            table_wf(s),
            tasks@ == s,
            n == ch.len(),
            k <= n,
            found ==> k < n && reapable(s, pid, ch[k as int]),
            forall|j: int| 0 <= j < k ==> !reapable(s, pid, #[trigger] ch[j]),
        decreases n - k + if found { 0int } else { 1int },
    {
        let c = t.children[k];
        proof {
            assert(linked(s, cur as int, ch[k as int]));
        }
        if (pid == -1 || c == #[verifier::truncate] (pid as usize)) && tasks.get(c).is_zombie() {
            found = true;
        } else {
            k = k + 1;
        }
    }
    if !found {
        return (-2, None);
    }
    let c = t.children[k];
    proof {
        assert(is_first_reapable(s, cur as int, pid, k as int));
        lemma_first_reapable(s, cur as int, pid);
        assert(linked(s, cur as int, c));
    }
    let exit_code = tasks.get(c).exit_code;
    let mut ct = tasks.take(cur);
    ct.children.remove(k);
    tasks.put(cur, ct);
    let _reaped = tasks.take(c);
    proof {
        assert(tasks@ =~= after_wait(s, cur as int, pid));
        let s2 = tasks@;
        assert forall|q: Seq<usize>| queue_ok(s, q) implies queue_ok(s2, q) by {
            assert forall|j: int| 0 <= j < q.len() implies live(s2, #[trigger] q[j] as int) && rec(
                s2,
                q[j] as int,
            ).task_status == TaskStatus::Ready by {
                assert(live(s, q[j] as int));
            }
        }
    }
    (c as isize, Some(exit_code))
}

} // verus!
