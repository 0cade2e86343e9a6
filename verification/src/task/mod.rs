//! Tasks, the ready queue and the processor, and the transitions between them.
use vstd::prelude::*;

pub mod manager;
pub mod process;
pub mod task;

use crate::trap::TrapContext;
use manager::TaskManager;
use process::Processor;
use task::{
    TaskControlBlock, TaskRecord, TaskStatus, TaskTable, after_exit, after_wait,
    first_reapable, lemma_first_reapable, linked, live, rec, reapable, table_wf, wait_code,
    wait_exit_code,
};

verus! {

/// Queue `q` holds distinct live tasks, all ready.
pub open spec fn queue_ok(s: Seq<Option<TaskRecord>>, q: Seq<usize>) -> bool {
    &&& q.no_duplicates()
    &&& forall|i: int|
        0 <= i < q.len() ==> live(s, #[trigger] q[i] as int) && rec(s, q[i] as int).task_status
            == TaskStatus::Ready
}

/// The task on the processor, if any, is live and running.
pub open spec fn current_ok(s: Seq<Option<TaskRecord>>, current: Option<usize>) -> bool {
    current matches Some(p) ==> live(s, p as int) && rec(s, p as int).task_status
        == TaskStatus::Running
}

/// Task `init` can adopt orphans: it is live, has no parent and has not exited.
pub open spec fn init_ok(s: Seq<Option<TaskRecord>>, init: usize) -> bool {
    &&& live(s, init as int)
    &&& rec(s, init as int).parent is None
    &&& rec(s, init as int).task_status != TaskStatus::Zombie
}

/// Changing one live task's status keeps the table consistent, as long as a
/// task with children does not become a zombie.
pub proof fn lemma_status_change_keeps_wf(s: Seq<Option<TaskRecord>>, p: int, st: TaskStatus)
    requires
        table_wf(s),
        live(s, p),
        st != TaskStatus::Zombie,
    ensures
        table_wf(s.update(p, Some(TaskRecord { task_status: st, ..rec(s, p) }))),
{
    let s2 = s.update(p, Some(TaskRecord { task_status: st, ..rec(s, p) }));
    assert forall|a: int, k: int|
        live(s2, a) && 0 <= k < rec(s2, a).children.len() implies linked(
        s2,
        a,
        #[trigger] rec(s2, a).children[k],
    ) by {
        assert(rec(s2, a).children == rec(s, a).children);
        assert(linked(s, a, rec(s, a).children[k]));
    }
}

/// Replacing a live task's saved registers keeps the table consistent and
/// changes no task's status, parent or children.
pub proof fn lemma_regs_change_keeps_wf(s: Seq<Option<TaskRecord>>, p: int, f: crate::trap::TrapFrame)
    requires
        table_wf(s),
        live(s, p),
    ensures
        table_wf(s.update(p, Some(TaskRecord { trap_cx: f, ..rec(s, p) }))),
        forall|q: Seq<usize>|
            queue_ok(s, q) ==> queue_ok(s.update(p, Some(TaskRecord { trap_cx: f, ..rec(s, p) })), q),
        forall|c: Option<usize>|
            current_ok(s, c) ==> current_ok(
                s.update(p, Some(TaskRecord { trap_cx: f, ..rec(s, p) })),
                c,
            ),
        forall|i: usize|
            init_ok(s, i) ==> init_ok(s.update(p, Some(TaskRecord { trap_cx: f, ..rec(s, p) })), i),
{
    let s2 = s.update(p, Some(TaskRecord { trap_cx: f, ..rec(s, p) }));
    assert forall|a: int, k: int|
        live(s2, a) && 0 <= k < rec(s2, a).children.len() implies linked(
        s2,
        a,
        #[trigger] rec(s2, a).children[k],
    ) by {
        assert(rec(s2, a).children == rec(s, a).children);
        assert(linked(s, a, rec(s, a).children[k]));
    }
    assert forall|q: Seq<usize>| queue_ok(s, q) implies queue_ok(s2, q) by {
        assert forall|i: int| 0 <= i < q.len() implies live(s2, #[trigger] q[i] as int) && rec(
            s2,
            q[i] as int,
        ).task_status == TaskStatus::Ready by {
            assert(live(s, q[i] as int));
        }
    }
}

/// Puts the first task in place: it becomes task `0`, has no parent, opens
/// the files in `fd_table`, starts from the registers in `trap_cx`, and waits
/// at the head of the ready queue. Returns its pid.
pub fn add_initproc(
    tasks: &mut TaskTable,
    manager: &mut TaskManager,
    fd_table: Vec<Option<usize>>,
    trap_cx: TrapContext,
) -> (pid: usize)
    requires
        old(tasks)@.len() == 0,
        old(manager)@.len() == 0,
    ensures
        pid == 0,
        final(tasks)@ == seq![Some(TaskRecord {
            pid: 0,
            parent: None,
            children: Seq::empty(),
            task_status: TaskStatus::Ready,
            exit_code: 0,
            fd_table: fd_table@,
            trap_cx: trap_cx@,
        })],
        final(manager)@ == seq![0usize],
        table_wf(final(tasks)@),
        queue_ok(final(tasks)@, final(manager)@),
        init_ok(final(tasks)@, 0),
{
    let t = TaskControlBlock {
        pid: 0,
        parent: None,
        children: Vec::new(),
        task_status: TaskStatus::Ready,
        exit_code: 0,
        fd_table,
        trap_cx,
    };
    tasks.tasks.push(Some(t));
    manager.add(0);
    proof {
        assert(tasks@ =~= seq![Some(t@)]);
        assert(manager@ =~= seq![0usize]);
    }
    0
}

/// Takes the running task off the processor, marks it ready and puts it at
/// the back of the ready queue. The caller then switches back to the
/// scheduling loop.
pub fn suspend_current_and_run_next(
    processor: &mut Processor,
    manager: &mut TaskManager,
    tasks: &mut TaskTable,
)
    requires
        old(processor)@ is Some,
        table_wf(old(tasks)@),
        queue_ok(old(tasks)@, old(manager)@),
        current_ok(old(tasks)@, old(processor)@),
    ensures
        ({
            let cur = old(processor)@.unwrap();
            &&& final(processor)@ is None
            &&& final(manager)@ == old(manager)@.push(cur)
            &&& final(tasks)@ == old(tasks)@.update(
                cur as int,
                Some(TaskRecord { task_status: TaskStatus::Ready, ..rec(old(tasks)@, cur as int) }),
            )
        }),
        table_wf(final(tasks)@),
        queue_ok(final(tasks)@, final(manager)@),
        forall|i: usize| init_ok(old(tasks)@, i) ==> init_ok(final(tasks)@, i),
{
    let cur = processor.take_current().unwrap();
    let mut t = tasks.take(cur);
    t.task_status = TaskStatus::Ready;
    tasks.put(cur, t);
    proof {
        lemma_status_change_keeps_wf(old(tasks)@, cur as int, TaskStatus::Ready);
    }
    manager.add(cur);
    proof {
        let s = old(tasks)@;
        let s2 = tasks@;
        let q = manager@;
        assert forall|i: int| 0 <= i < q.len() implies live(s2, #[trigger] q[i] as int) && rec(
            s2,
            q[i] as int,
        ).task_status == TaskStatus::Ready by {
            if i < old(manager)@.len() {
                assert(q[i] == old(manager)@[i]);
            }
        }
        assert(q.no_duplicates()) by {
            assert forall|i: int, j: int| 0 <= i < q.len() && 0 <= j < q.len() && i != j implies q[i]
                != q[j] by {
                if i < old(manager)@.len() && j < old(manager)@.len() {
                } else if i < old(manager)@.len() {
                    assert(rec(s, q[i] as int).task_status == TaskStatus::Ready);
                } else {
                    assert(rec(s, q[j] as int).task_status == TaskStatus::Ready);
                }
            }
        }
    }
}

/// Task `cur` exits with `exit_code`: the consistency of the table survives,
/// `init` still can adopt orphans, and every queue of ready tasks stays one.
pub proof fn lemma_exit_keeps_wf(s: Seq<Option<TaskRecord>>, cur: int, exit_code: i32, init: usize)
    requires
        table_wf(s),
        live(s, cur),
        rec(s, cur).task_status != TaskStatus::Zombie,
        init_ok(s, init),
        cur != init,
    ensures
        table_wf(after_exit(s, cur, exit_code, init as int)),
        init_ok(after_exit(s, cur, exit_code, init as int), init),
        forall|q: Seq<usize>|
            queue_ok(s, q) && rec(s, cur).task_status == TaskStatus::Running ==> queue_ok(
                after_exit(s, cur, exit_code, init as int),
                q,
            ),
{
    let ch = rec(s, cur).children;
    let s2 = after_exit(s, cur, exit_code, init as int);
    assert forall|k: int| 0 <= k < ch.len() implies #[trigger] ch[k] != init && ch[k] != cur && live(
        s,
        ch[k] as int,
    ) && rec(s, ch[k] as int).parent == Some(cur as usize) by {
        assert(linked(s, cur, ch[k]));
    }
    assert forall|p: int| live(s2, p) implies #[trigger] rec(s2, p).pid == p by {
        assert(live(s, p));
    }
    assert forall|a: int, k: int|
        live(s2, a) && 0 <= k < rec(s2, a).children.len() implies linked(
        s2,
        a,
        #[trigger] rec(s2, a).children[k],
    ) by {
        assert(live(s, a));
        let d = rec(s2, a).children[k];
        if a == cur {
        } else if a == init {
            let ic = rec(s, init as int).children;
            if k < ic.len() {
                assert(d == ic[k]);
                assert(linked(s, init as int, ic[k]));
                if ch.contains(d) {
                    let j = choose|j: int| 0 <= j < ch.len() && ch[j] == d;
                    assert(ch[j] != init);
                }
                assert(d != init);
            } else {
                assert(d == ch[k - ic.len()]);
                assert(ch.contains(d));
            }
        } else {
            assert(rec(s2, a).children == rec(s, a).children);
            assert(linked(s, a, rec(s, a).children[k]));
            assert(d != init);
            if ch.contains(d) {
                let j = choose|j: int| 0 <= j < ch.len() && ch[j] == d;
                assert(rec(s, d as int).parent == Some(cur as usize));
            }
        }
    }
    assert forall|p: int| live(s2, p) implies #[trigger] rec(s2, p).children.no_duplicates() by {
        assert(live(s, p));
        if p == init {
            let ic = rec(s, init as int).children;
            let all = ic + ch;
            assert forall|i: int, j: int| 0 <= i < all.len() && 0 <= j < all.len() && i != j implies all[i]
                != all[j] by {
                if i < ic.len() && j >= ic.len() {
                    assert(linked(s, init as int, ic[i]));
                    assert(ch[j - ic.len()] == all[j]);
                    assert(rec(s, ch[j - ic.len()] as int).parent == Some(cur as usize));
                } else if j < ic.len() && i >= ic.len() {
                    assert(linked(s, init as int, ic[j]));
                    assert(ch[i - ic.len()] == all[i]);
                    assert(rec(s, ch[i - ic.len()] as int).parent == Some(cur as usize));
                } else if i >= ic.len() && j >= ic.len() {
                    assert(ch[i - ic.len()] == all[i]);
                    assert(ch[j - ic.len()] == all[j]);
                }
            }
        }
    }
    assert forall|p: int|
        live(s2, p) && rec(s2, p).task_status == TaskStatus::Zombie implies rec(
        s2,
        p,
    ).children.len() == 0 by {
        assert(live(s, p));
    }
    assert forall|p: int| live(s2, p) implies rec(s2, p).parent != Some(p as usize) by {
        assert(live(s, p));
    }
    assert forall|q: Seq<usize>|
        queue_ok(s, q) && rec(s, cur).task_status == TaskStatus::Running implies queue_ok(s2, q) by {
        assert forall|i: int| 0 <= i < q.len() implies live(s2, #[trigger] q[i] as int) && rec(
            s2,
            q[i] as int,
        ).task_status == TaskStatus::Ready by {
            assert(live(s, q[i] as int));
        }
    }
}

/// The running task exits with `exit_code`: it leaves the processor and
/// becomes a zombie keeping its exit code, and its children are handed to
/// `initproc`. The caller then switches back to the scheduling loop.
pub fn exit_current_and_run_next(
    processor: &mut Processor,
    tasks: &mut TaskTable,
    initproc: usize,
    exit_code: i32,
)
    requires
        old(processor)@ is Some,
        old(processor)@ != Some(initproc),
        table_wf(old(tasks)@),
        current_ok(old(tasks)@, old(processor)@),
        init_ok(old(tasks)@, initproc),
    ensures
        final(processor)@ is None,
        final(tasks)@ == after_exit(
            old(tasks)@,
            old(processor)@.unwrap() as int,
            exit_code,
            initproc as int,
        ),
        table_wf(final(tasks)@),
        init_ok(final(tasks)@, initproc),
        forall|q: Seq<usize>| queue_ok(old(tasks)@, q) ==> queue_ok(final(tasks)@, q),
{
    let ghost s = tasks@;
    let cur = processor.take_current().unwrap();
    let ghost ch = rec(s, cur as int).children;
    proof {
        lemma_exit_keeps_wf(s, cur as int, exit_code, initproc);
        assert forall|k: int| 0 <= k < ch.len() implies #[trigger] ch[k] != initproc && ch[k] != cur
            && live(s, ch[k] as int) by {
            assert(linked(s, cur as int, ch[k]));
        }
    }
    let mut t = tasks.take(cur);
    let n = t.children.len();
    let mut k: usize = 0;
    while k < n
        invariant
            n == ch.len(),
            t@ == rec(s, cur as int),
            live(s, cur as int),
            k <= n,
            table_wf(s),
            ch == rec(s, cur as int).children,
            forall|j: int| 0 <= j < ch.len() ==> #[trigger] ch[j] != initproc && ch[j] != cur && live(
                s,
                ch[j] as int,
            ),
            tasks@.len() == s.len(),
            forall|p: int|
                0 <= p < s.len() ==> #[trigger] tasks@[p] == if p == cur {
                    None
                } else if s[p] is Some && ch.subrange(0, k as int).contains(p as usize) {
                    Some(TaskRecord { parent: Some(initproc), ..rec(s, p) })
                } else {
                    s[p]
                },
        decreases n - k,
    {
        let c = t.children[k];
        proof {
            assert(ch.no_duplicates());
            if ch.subrange(0, k as int).contains(c) {
                let j = choose|j: int| 0 <= j < k && ch.subrange(0, k as int)[j] == c;
                assert(ch[j] == ch[k as int]);
            }
            assert(tasks@[c as int] == s[c as int]);
        }
        let mut ct = tasks.take(c);
        ct.parent = Some(initproc);
        tasks.put(c, ct);
        proof {
            let kk: int = k + 1;
            assert forall|p: int| 0 <= p < s.len() implies #[trigger] tasks@[p] == if p == cur {
                None
            } else if s[p] is Some && ch.subrange(0, kk).contains(p as usize) {
                Some(TaskRecord { parent: Some(initproc), ..rec(s, p) })
            } else {
                s[p]
            } by {
                if p != c {
                    if ch.subrange(0, kk).contains(p as usize) {
                        let j = choose|j: int| 0 <= j < kk && ch.subrange(0, kk)[j] == p as usize;
                        assert(j != k);
                        assert(ch.subrange(0, k as int)[j] == p as usize);
                    }
                    if ch.subrange(0, k as int).contains(p as usize) {
                        let j = choose|j: int| 0 <= j < k && ch.subrange(0, k as int)[j] == p as usize;
                        assert(ch.subrange(0, kk)[j] == p as usize);
                    }
                } else {
                    assert(ch.subrange(0, kk)[k as int] == c);
                }
            }
        }
        k = k + 1;
    }
    proof {
        assert(ch.subrange(0, n as int) =~= ch);
        assert(!ch.contains(initproc));
    }
    let mut it = tasks.take(initproc);
    it.children.append(&mut t.children);
    tasks.put(initproc, it);
    t.task_status = TaskStatus::Zombie;
    t.exit_code = exit_code;
    tasks.put(cur, t);
    proof {
        let target = after_exit(s, cur as int, exit_code, initproc as int);
        assert forall|p: int| 0 <= p < s.len() implies #[trigger] tasks@[p] == target[p] by {}
        assert(tasks@ =~= target);
    }
}

/// What an exit does, task by task: the exiting task becomes a zombie that
/// keeps its exit code and lists no children; each of its children now has
/// `init` as parent and appears among `init`'s children, after the ones
/// `init` had, which stay; every other task is unchanged.
pub proof fn lemma_exit_reparents(s: Seq<Option<TaskRecord>>, cur: int, exit_code: i32, init: usize)
    requires
        table_wf(s),
        live(s, cur),
        init_ok(s, init),
        cur != init,
    ensures
        ({
            let s2 = after_exit(s, cur, exit_code, init as int);
            let ch = rec(s, cur).children;
            &&& s2.len() == s.len()
            &&& live(s2, cur)
            &&& rec(s2, cur).task_status == TaskStatus::Zombie
            &&& rec(s2, cur).exit_code == exit_code
            &&& rec(s2, cur).children.len() == 0
            &&& rec(s2, cur).parent == rec(s, cur).parent
            &&& rec(s2, cur).pid == rec(s, cur).pid
            &&& forall|k: int| 0 <= k < ch.len() ==> {
                &&& live(s2, #[trigger] ch[k] as int)
                &&& rec(s2, ch[k] as int).parent == Some(init)
                &&& rec(s2, init as int).children.contains(ch[k])
                &&& rec(s2, ch[k] as int).task_status == rec(s, ch[k] as int).task_status
                &&& rec(s2, ch[k] as int).children == rec(s, ch[k] as int).children
            }
            &&& forall|d: usize| #[trigger] rec(s, init as int).children.contains(d) ==> rec(
                s2,
                init as int,
            ).children.contains(d)
            &&& rec(s2, init as int).children.len() == rec(s, init as int).children.len() + ch.len()
            &&& forall|p: int|
                0 <= p < s.len() && p != cur && p != init && !ch.contains(p as usize) ==> #[trigger] s2[p]
                    == s[p]
        }),
{
    let ch = rec(s, cur).children;
    let s2 = after_exit(s, cur, exit_code, init as int);
    let ic = rec(s, init as int).children;
    assert forall|k: int| 0 <= k < ch.len() implies {
        &&& live(s2, #[trigger] ch[k] as int)
        &&& rec(s2, ch[k] as int).parent == Some(init)
        &&& rec(s2, init as int).children.contains(ch[k])
        &&& rec(s2, ch[k] as int).task_status == rec(s, ch[k] as int).task_status
        &&& rec(s2, ch[k] as int).children == rec(s, ch[k] as int).children
    } by {
        assert(linked(s, cur, ch[k]));
        assert(ch[k] != init);
        assert(ch.contains(ch[k]));
        assert((ic + ch)[ic.len() + k] == ch[k]);
    }
    assert forall|d: usize| #[trigger] ic.contains(d) implies rec(s2, init as int).children.contains(d) by {
        let i = choose|i: int| 0 <= i < ic.len() && ic[i] == d;
        assert((ic + ch)[i] == d);
    }
}

/// What a parent's wait gives back of a child's exit: once a child exits
/// with `exit_code`, its parent's wait for that child returns the child's
/// pid and `exit_code`, and the child's slot is freed.
pub proof fn lemma_exit_then_wait(
    s: Seq<Option<TaskRecord>>,
    child: usize,
    parent: usize,
    exit_code: i32,
    init: usize,
)
    requires
        table_wf(s),
        live(s, child as int),
        live(s, parent as int),
        rec(s, parent as int).children.contains(child),
        rec(s, child as int).task_status != TaskStatus::Zombie,
        init_ok(s, init),
        child != init,
    ensures
        wait_code(after_exit(s, child as int, exit_code, init as int), parent as int, child as isize)
            == child as isize,
        wait_exit_code(after_exit(s, child as int, exit_code, init as int), parent as int, child as isize)
            == Some(exit_code),
        !live(
            after_wait(after_exit(s, child as int, exit_code, init as int), parent as int, child as isize),
            child as int,
        ),
{
    let s1 = after_exit(s, child as int, exit_code, init as int);
    let pid = child as isize;
    lemma_exit_keeps_wf(s, child as int, exit_code, init);
    let k = choose|k: int| 0 <= k < rec(s, parent as int).children.len() && rec(s, parent as int).children[k] == child;
    assert(linked(s, parent as int, child));
    assert(parent != child);
    let pch = rec(s1, parent as int).children;
    assert(pch[k] == child) by {
        if parent == init {
            assert(pch == rec(s, init as int).children + rec(s, child as int).children);
        }
    }
    assert(pid as usize == child);
    assert(reapable(s1, pid, pch[k]));
    assert(task::has_matching_child(s1, parent as int, pid));
    assert(task::has_reapable_child(s1, parent as int, pid));
    lemma_first_reapable(s1, parent as int, pid);
    let f = first_reapable(s1, parent as int, pid);
    assert(pch[f] == child);
}

} // verus!
