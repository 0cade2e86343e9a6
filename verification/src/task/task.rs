//! Task control blocks and the table that holds them, one slot per pid.
use vstd::prelude::*;
use crate::trap::{TrapContext, TrapFrame};

verus! {

/// Where a task is in its life.
#[derive(Clone, Copy, PartialEq, Eq, Structural, Debug)]
pub enum TaskStatus {
    /// Waiting in the ready queue.
    Ready,
    /// On the processor.
    Running,
    /// Exited, waiting for its parent to collect its exit code.
    Zombie,
}

/// One task. Children and parent are named by pid; open files are named by
/// the handles that the file layer gave them.
#[derive(Debug)]
pub struct TaskControlBlock {
    pub pid: usize,
    pub parent: Option<usize>,
    pub children: Vec<usize>,
    pub task_status: TaskStatus,
    pub exit_code: i32,
    pub fd_table: Vec<Option<usize>>,
    pub trap_cx: TrapContext,
}

/// The abstract value of a [`TaskControlBlock`].
pub struct TaskRecord {
    pub pid: usize,
    pub parent: Option<usize>,
    pub children: Seq<usize>,
    pub task_status: TaskStatus,
    pub exit_code: i32,
    pub fd_table: Seq<Option<usize>>,
    pub trap_cx: TrapFrame,
}

impl View for TaskControlBlock {
    type V = TaskRecord;

    open spec fn view(&self) -> TaskRecord {
        TaskRecord {
            pid: self.pid,
            parent: self.parent,
            children: self.children@,
            task_status: self.task_status,
            exit_code: self.exit_code,
            fd_table: self.fd_table@,
            trap_cx: self.trap_cx@,
        }
    }
}

impl TaskControlBlock {
    /// The pid of the task.
    pub fn get_pid(&self) -> (pid: usize)
        ensures
            pid == self.pid,
    {
        self.pid
    }

    /// Whether the task has exited.
    pub fn is_zombie(&self) -> (b: bool)
        ensures
            b == (self.task_status == TaskStatus::Zombie),
    {
        match self.task_status {
            TaskStatus::Zombie => true,
            _ => false,
        }
    }
}

/// Maps a task slot to the abstract value it holds.
pub open spec fn slot_view(o: Option<TaskControlBlock>) -> Option<TaskRecord> {
    match o {
        Some(t) => Some(t@),
        None => None,
    }
}

/// All tasks, the one with pid `p` in slot `p`.
#[derive(Debug)]
pub struct TaskTable {
    pub tasks: Vec<Option<TaskControlBlock>>,
}

impl View for TaskTable {
    type V = Seq<Option<TaskRecord>>;

    open spec fn view(&self) -> Seq<Option<TaskRecord>> {
        self.tasks@.map_values(|o: Option<TaskControlBlock>| slot_view(o))
    }
}

/// Slot `p` of `s` holds a task.
pub open spec fn live(s: Seq<Option<TaskRecord>>, p: int) -> bool {
    0 <= p < s.len() && s[p] is Some
}

/// The task in slot `p` of `s`.
pub open spec fn rec(s: Seq<Option<TaskRecord>>, p: int) -> TaskRecord {
    s[p].unwrap()
}

/// Task `c` is a live child of task `p`: its parent is `p`.
pub open spec fn linked(s: Seq<Option<TaskRecord>>, p: int, c: usize) -> bool {
    live(s, c as int) && rec(s, c as int).parent == Some(p as usize)
}

/// The table is consistent: each task sits in the slot of its pid, every
/// child it lists is a live task whose parent it is, no child is listed
/// twice, an exited task lists no children, and no task is its own parent.
pub open spec fn table_wf(s: Seq<Option<TaskRecord>>) -> bool {
    &&& s.len() <= isize::MAX
    &&& forall|p: int| #![trigger s[p]] live(s, p) ==> rec(s, p).pid == p
    &&& forall|p: int, k: int|
        #![trigger rec(s, p).children[k]]
        live(s, p) && 0 <= k < rec(s, p).children.len() ==> linked(s, p, rec(s, p).children[k])
    &&& forall|p: int| #![trigger s[p]] live(s, p) ==> rec(s, p).children.no_duplicates()
    &&& forall|p: int|
        #![trigger s[p]]
        live(s, p) && rec(s, p).task_status == TaskStatus::Zombie ==> rec(s, p).children.len() == 0
    &&& forall|p: int| #![trigger s[p]] live(s, p) ==> rec(s, p).parent != Some(p as usize)
}

/// Child `c` is one that a wait for `pid` accepts: `-1` accepts any child.
pub open spec fn child_matches(pid: isize, c: usize) -> bool {
    pid == -1 || c == pid as usize
}

/// Child `c` has exited and is accepted by a wait for `pid`.
pub open spec fn reapable(s: Seq<Option<TaskRecord>>, pid: isize, c: usize) -> bool {
    child_matches(pid, c) && live(s, c as int) && rec(s, c as int).task_status
        == TaskStatus::Zombie
}

/// Some child of `cur` is accepted by a wait for `pid`.
pub open spec fn has_matching_child(s: Seq<Option<TaskRecord>>, cur: int, pid: isize) -> bool {
    exists|k: int|
        0 <= k < rec(s, cur).children.len() && child_matches(pid, #[trigger] rec(s, cur).children[k])
}

/// Some child of `cur` has exited and is accepted by a wait for `pid`.
pub open spec fn has_reapable_child(s: Seq<Option<TaskRecord>>, cur: int, pid: isize) -> bool {
    exists|k: int|
        0 <= k < rec(s, cur).children.len() && reapable(s, pid, #[trigger] rec(s, cur).children[k])
}

/// Position `k` holds the first child of `cur`, in the order the children
/// were added, that has exited and is accepted by a wait for `pid`.
pub open spec fn is_first_reapable(s: Seq<Option<TaskRecord>>, cur: int, pid: isize, k: int) -> bool {
    &&& 0 <= k < rec(s, cur).children.len()
    &&& reapable(s, pid, rec(s, cur).children[k])
    &&& forall|j: int| 0 <= j < k ==> !reapable(s, pid, #[trigger] rec(s, cur).children[j])
}

/// The position of the child that a wait for `pid` by `cur` collects.
pub open spec fn first_reapable(s: Seq<Option<TaskRecord>>, cur: int, pid: isize) -> int {
    choose|k: int| is_first_reapable(s, cur, pid, k)
}

/// What a wait for `pid` by `cur` returns: `-1` when no child matches,
/// `-2` when matching children exist but none has exited, else the pid of
/// the collected child.
pub open spec fn wait_code(s: Seq<Option<TaskRecord>>, cur: int, pid: isize) -> isize {
    if !has_matching_child(s, cur, pid) {
        -1isize
    } else if !has_reapable_child(s, cur, pid) {
        -2isize
    } else {
        rec(s, cur).children[first_reapable(s, cur, pid)] as isize
    }
}

/// The exit code that a wait for `pid` by `cur` collects, if any.
pub open spec fn wait_exit_code(s: Seq<Option<TaskRecord>>, cur: int, pid: isize) -> Option<i32> {
    if has_matching_child(s, cur, pid) && has_reapable_child(s, cur, pid) {
        Some(rec(s, rec(s, cur).children[first_reapable(s, cur, pid)] as int).exit_code)
    } else {
        None
    }
}

/// The table after a wait for `pid` by `cur`: the collected child leaves
/// `cur`'s children and its slot is emptied; nothing changes otherwise.
pub open spec fn after_wait(s: Seq<Option<TaskRecord>>, cur: int, pid: isize) -> Seq<
    Option<TaskRecord>,
> {
    if has_matching_child(s, cur, pid) && has_reapable_child(s, cur, pid) {
        let k = first_reapable(s, cur, pid);
        let c = rec(s, cur).children[k];
        s.update(cur, Some(TaskRecord { children: rec(s, cur).children.remove(k), ..rec(s, cur) })).update(
            c as int,
            None,
        )
    } else {
        s
    }
}

/// The table after task `cur` exits with `exit_code`: it becomes a zombie
/// with no children, its children are handed to `init`, which lists them
/// after its own, and nothing else changes.
pub open spec fn after_exit(s: Seq<Option<TaskRecord>>, cur: int, exit_code: i32, init: int) -> Seq<
    Option<TaskRecord>,
> {
    let ch = rec(s, cur).children;
    Seq::new(
        s.len(),
        |p: int|
            if p == cur {
                Some(
                    TaskRecord {
                        task_status: TaskStatus::Zombie,
                        exit_code,
                        children: Seq::empty(),
                        ..rec(s, cur)
                    },
                )
            } else if p == init {
                Some(TaskRecord { children: rec(s, init).children + ch, ..rec(s, init) })
            } else if s[p] is Some && ch.contains(p as usize) {
                Some(TaskRecord { parent: Some(init as usize), ..rec(s, p) })
            } else {
                s[p]
            },
    )
}

/// The table after `cur` forks a child with pid `child`, which starts ready,
/// with no children and copies of `cur`'s open files and saved registers.
pub open spec fn after_fork(s: Seq<Option<TaskRecord>>, cur: int, child: usize) -> Seq<
    Option<TaskRecord>,
> {
    let t = TaskRecord {
        pid: child,
        parent: Some(cur as usize),
        children: Seq::empty(),
        task_status: TaskStatus::Ready,
        exit_code: 0,
        fd_table: rec(s, cur).fd_table,
        trap_cx: rec(s, cur).trap_cx,
    };
    let s1 = s.update(cur, Some(TaskRecord { children: rec(s, cur).children.push(child), ..rec(s, cur) }));
    if child < s.len() {
        s1.update(child as int, Some(t))
    } else {
        s1.push(Some(t))
    }
}

/// A copy of a table of open files.
fn copy_fd_table(v: &Vec<Option<usize>>) -> (r: Vec<Option<usize>>)
    ensures
        r@ == v@,
{
    let mut r: Vec<Option<usize>> = Vec::new();
    let mut i: usize = 0;
    while i < v.len()
        invariant
            i <= v.len(),
            r@ == v@.subrange(0, i as int),
        decreases v.len() - i,
    {
        r.push(v[i]);
        proof {
            assert(v@.subrange(0, i + 1) =~= v@.subrange(0, i as int).push(v@[i as int]));
        }
        i = i + 1;
    }
    proof {
        assert(v@.subrange(0, v@.len() as int) =~= v@);
    }
    r
}

/// A forked child starts as a copy of its parent in what it inherits: the
/// same open descriptors, every one of them, and the same saved registers;
/// it is ready, has the given pid, the parent as parent, and no children.
/// The parent keeps its descriptors and registers and gains the child as its
/// last child; no other slot changes.
pub proof fn lemma_fork_child_inherits(s: Seq<Option<TaskRecord>>, cur: int, child: usize)
    requires
        live(s, cur),
        cur != child,
        child <= s.len(),
    ensures
        live(after_fork(s, cur, child), child as int),
        rec(after_fork(s, cur, child), child as int).fd_table == rec(s, cur).fd_table,
        rec(after_fork(s, cur, child), child as int).fd_table.len() == rec(s, cur).fd_table.len(),
        forall|fd: int|
            0 <= fd < rec(s, cur).fd_table.len() ==> #[trigger] rec(after_fork(s, cur, child), child as int).fd_table[fd]
                == rec(s, cur).fd_table[fd],
        rec(after_fork(s, cur, child), child as int).trap_cx == rec(s, cur).trap_cx,
        rec(after_fork(s, cur, child), child as int).pid == child,
        rec(after_fork(s, cur, child), child as int).parent == Some(cur as usize),
        rec(after_fork(s, cur, child), child as int).children.len() == 0,
        rec(after_fork(s, cur, child), child as int).task_status == TaskStatus::Ready,
        rec(after_fork(s, cur, child), cur).fd_table == rec(s, cur).fd_table,
        rec(after_fork(s, cur, child), cur).trap_cx == rec(s, cur).trap_cx,
        rec(after_fork(s, cur, child), cur).children == rec(s, cur).children.push(child),
        forall|p: int|
            0 <= p < s.len() && p != cur && p != child ==> #[trigger] after_fork(s, cur, child)[p] == s[p],
{
}

/// Forking keeps the table consistent.
pub proof fn lemma_fork_keeps_wf(s: Seq<Option<TaskRecord>>, cur: int, child: usize)
    requires
        table_wf(s),
        live(s, cur),
        rec(s, cur).task_status != TaskStatus::Zombie,
        !live(s, child as int),
        child <= s.len(),
        child < isize::MAX,
    ensures
        table_wf(after_fork(s, cur, child)),
        forall|p: int| live(s, p) ==> live(after_fork(s, cur, child), p),
        forall|p: int|
            #![trigger after_fork(s, cur, child)[p]]
            live(s, p) && p != cur ==> after_fork(s, cur, child)[p] == s[p],
{
    let s2 = after_fork(s, cur, child);
    assert(child != cur);
    assert(s2.len() == if child < s.len() { s.len() } else { s.len() + 1 });
    assert forall|p: int| live(s, p) implies live(s2, p) && (p != cur ==> s2[p] == s[p]) by {
        assert(p != child);
    }
    assert forall|p: int| live(s2, p) implies #[trigger] rec(s2, p).pid == p by {
        if p != child && p != cur {
            assert(live(s, p));
        }
    }
    assert forall|a: int, k: int|
        live(s2, a) && 0 <= k < rec(s2, a).children.len() implies linked(
        s2,
        a,
        #[trigger] rec(s2, a).children[k],
    ) by {
        if a == child {
        } else if a == cur {
            if k < rec(s, cur).children.len() {
                assert(rec(s2, a).children[k] == rec(s, cur).children[k]);
                assert(linked(s, cur, rec(s, cur).children[k]));
                assert(rec(s, cur).children[k] != child);
            }
        } else {
            assert(live(s, a));
            assert(linked(s, a, rec(s, a).children[k]));
            assert(rec(s, a).children[k] != child);
        }
    }
    assert forall|p: int| live(s2, p) implies #[trigger] rec(s2, p).children.no_duplicates() by {
        if p == cur {
            let ch = rec(s, cur).children;
            assert forall|i: int, j: int|
                0 <= i < ch.push(child).len() && 0 <= j < ch.push(child).len() && i != j implies ch.push(
                child,
            )[i] != ch.push(child)[j] by {
                if i < ch.len() {
                    assert(linked(s, cur, ch[i]));
                }
                if j < ch.len() {
                    assert(linked(s, cur, ch[j]));
                }
            }
        } else if p != child {
            assert(live(s, p));
        }
    }
    assert forall|p: int|
        live(s2, p) && rec(s2, p).task_status == TaskStatus::Zombie implies rec(
        s2,
        p,
    ).children.len() == 0 by {
        if p != child && p != cur {
            assert(live(s, p));
        }
    }
    assert forall|p: int| live(s2, p) implies rec(s2, p).parent != Some(p as usize) by {
        if p != child && p != cur {
            assert(live(s, p));
        }
    }
}

impl TaskTable {
    /// A table with no tasks.
    pub fn new() -> (ret: Self)
        ensures
            ret@ == Seq::<Option<TaskRecord>>::empty(),
            table_wf(ret@),
    {
        TaskTable { tasks: Vec::new() }
    }

    /// Whether slot `pid` holds a task.
    pub fn contains(&self, pid: usize) -> (b: bool)
        ensures
            b == live(self@, pid as int),
    {
        pid < self.tasks.len() && self.tasks[pid].is_some()
    }

    /// The task in slot `p`.
    pub fn get(&self, p: usize) -> (t: &TaskControlBlock)
        requires
            live(self@, p as int),
        ensures
            t@ == rec(self@, p as int),
    {
        self.tasks[p].as_ref().unwrap()
    }

    /// Task `cur` forks a child with pid `child`: the child starts ready, with
    /// no children and copies of `cur`'s open files and saved registers, and
    /// `cur` lists it as its last child.
    pub fn fork(&mut self, cur: usize, child: usize)
        requires
            table_wf(old(self)@),
            live(old(self)@, cur as int),
            rec(old(self)@, cur as int).task_status != TaskStatus::Zombie,
            !live(old(self)@, child as int),
            child <= old(self)@.len(),
            child < isize::MAX,
        ensures
            final(self)@ == after_fork(old(self)@, cur as int, child),
            table_wf(final(self)@),
            live(final(self)@, child as int),
            rec(final(self)@, child as int).fd_table == rec(old(self)@, cur as int).fd_table,
            rec(final(self)@, child as int).trap_cx == rec(old(self)@, cur as int).trap_cx,
            rec(final(self)@, child as int).pid == child,
            rec(final(self)@, child as int).parent == Some(cur),
            rec(final(self)@, child as int).children.len() == 0,
            rec(final(self)@, child as int).task_status == TaskStatus::Ready,
            rec(final(self)@, cur as int).children == rec(old(self)@, cur as int).children.push(child),
            rec(final(self)@, cur as int).fd_table == rec(old(self)@, cur as int).fd_table,
    {
        proof {
            lemma_fork_child_inherits(old(self)@, cur as int, child);
        }
        let ghost s = self@;
        let mut t = self.take(cur);
        let fd_table = copy_fd_table(&t.fd_table);
        let trap_cx = t.trap_cx;
        t.children.push(child);
        self.put(cur, t);
        let c = TaskControlBlock {
            pid: child,
            parent: Some(cur),
            children: Vec::new(),
            task_status: TaskStatus::Ready,
            exit_code: 0,
            fd_table,
            trap_cx,
        };
        if child < self.tasks.len() {
            self.put(child, c);
        } else {
            let ghost s1 = self@;
            let ghost cv = c@;
            self.tasks.push(Some(c));
            proof {
                assert(self@ =~= s1.push(Some(cv)));
                assert(self@ =~= after_fork(s, cur as int, child));
            }
        }
        proof {
            lemma_fork_keeps_wf(s, cur as int, child);
        }
    }

    /// Takes the task out of slot `p`, leaving the slot empty.
    pub(crate) fn take(&mut self, p: usize) -> (t: TaskControlBlock)
        requires
            live(old(self)@, p as int),
        ensures
            t@ == rec(old(self)@, p as int),
            final(self)@ == old(self)@.update(p as int, None),
    {
        let mut slot: Option<TaskControlBlock> = None;
        self.tasks.set_and_swap(p, &mut slot);
        proof {
            assert(self@ =~= old(self)@.update(p as int, None));
        }
        slot.unwrap()
    }

    /// Puts task `t` in slot `p`.
    pub(crate) fn put(&mut self, p: usize, t: TaskControlBlock)
        requires
            p < old(self)@.len(),
        ensures
            final(self)@ == old(self)@.update(p as int, Some(t@)),
    {
        self.tasks.set(p, Some(t));
        proof {
            assert(self@ =~= old(self)@.update(p as int, Some(t@)));
        }
    }
}

} // verus!

verus! {

/// There is a first exited child to collect whenever there is one at all,
/// and only one position is first.
pub proof fn lemma_first_reapable(s: Seq<Option<TaskRecord>>, cur: int, pid: isize)
    requires
        has_reapable_child(s, cur, pid),
    ensures
        is_first_reapable(s, cur, pid, first_reapable(s, cur, pid)),
        forall|k: int| is_first_reapable(s, cur, pid, k) ==> k == first_reapable(s, cur, pid),
{
    let k0 = choose|k: int|
        0 <= k < rec(s, cur).children.len() && reapable(s, pid, #[trigger] rec(s, cur).children[k]);
    lemma_first_reapable_below(s, cur, pid, k0);
    assert forall|k: int| is_first_reapable(s, cur, pid, k) implies k == first_reapable(s, cur, pid) by {
        let f = first_reapable(s, cur, pid);
        if k < f {
            assert(!reapable(s, pid, rec(s, cur).children[k]));
        } else if f < k {
            assert(!reapable(s, pid, rec(s, cur).children[f]));
        }
    }
}

/// If the child at position `k` can be collected, some position at or
/// before `k` is the first one that can.
proof fn lemma_first_reapable_below(s: Seq<Option<TaskRecord>>, cur: int, pid: isize, k: int)
    requires
        0 <= k < rec(s, cur).children.len(),
        reapable(s, pid, rec(s, cur).children[k]),
    ensures
        exists|j: int| is_first_reapable(s, cur, pid, j),
    decreases k,
{
    if forall|j: int| 0 <= j < k ==> !reapable(s, pid, #[trigger] rec(s, cur).children[j]) {
        assert(is_first_reapable(s, cur, pid, k));
    } else {
        let j = choose|j: int| 0 <= j < k && reapable(s, pid, #[trigger] rec(s, cur).children[j]);
        lemma_first_reapable_below(s, cur, pid, j);
    }
}

/// Collecting an exited child keeps the table consistent, keeps every live
/// task other than the collected one, and changes no task's status.
pub proof fn lemma_wait_keeps_wf(s: Seq<Option<TaskRecord>>, cur: int, pid: isize)
    requires
        table_wf(s),
        live(s, cur),
    ensures
        table_wf(after_wait(s, cur, pid)),
        after_wait(s, cur, pid).len() == s.len(),
        forall|p: int|
            live(s, p) && rec(s, p).task_status != TaskStatus::Zombie ==> {
                &&& live(after_wait(s, cur, pid), p)
                &&& rec(after_wait(s, cur, pid), p).task_status == rec(s, p).task_status
                &&& rec(after_wait(s, cur, pid), p).parent == rec(s, p).parent
            },
{
    if has_matching_child(s, cur, pid) && has_reapable_child(s, cur, pid) {
        lemma_first_reapable(s, cur, pid);
        let k = first_reapable(s, cur, pid);
        let ch = rec(s, cur).children;
        let c = ch[k];
        let s2 = after_wait(s, cur, pid);
        assert(linked(s, cur, c));
        assert(c != cur);
        assert(reapable(s, pid, ch[k]));
        assert(pid == -1 || ch[k] == pid as usize);
        assert(rec(s, ch[k] as int).task_status == TaskStatus::Zombie);
        assert(wait_code(s, cur, pid) == c as isize);
        assert(c as isize >= 0);
        assert(!(forall|kk: int| 0 <= kk < ch.len() ==> !(pid == -1 || #[trigger] ch[kk] == pid as usize)));
        assert forall|p: int| live(s2, p) implies #[trigger] rec(s2, p).pid == p by {
            assert(live(s, p));
        }
        assert forall|a: int, j: int|
            live(s2, a) && 0 <= j < rec(s2, a).children.len() implies linked(
            s2,
            a,
            #[trigger] rec(s2, a).children[j],
        ) by {
            assert(live(s, a));
            if a == cur {
                let d = ch.remove(k)[j];
                let jj = if j < k { j } else { j + 1 };
                assert(d == ch[jj]);
                assert(linked(s, cur, ch[jj]));
                assert(ch.no_duplicates());
                assert(d != c);
            } else {
                let d = rec(s, a).children[j];
                assert(linked(s, a, d));
                assert(d != c);
            }
        }
        assert forall|p: int| live(s2, p) implies #[trigger] rec(s2, p).children.no_duplicates() by {
            assert(live(s, p));
            if p == cur {
                let r = ch.remove(k);
                assert forall|i: int, j: int| 0 <= i < r.len() && 0 <= j < r.len() && i != j implies r[i]
                    != r[j] by {
                    let ii = if i < k { i } else { i + 1 };
                    let jj = if j < k { j } else { j + 1 };
                    assert(r[i] == ch[ii] && r[j] == ch[jj]);
                }
            }
        }
        assert forall|p: int|
            live(s2, p) && rec(s2, p).task_status == TaskStatus::Zombie implies rec(
            s2,
            p,
        ).children.len() == 0 by {
            assert(live(s, p));
        }
        assert forall|p: int| live(s2, p) implies rec(s2, p).parent != Some(p as usize) by {
            assert(live(s, p));
        }
    }
}

} // verus!

verus! {

/// The code a wait returns is `-1` exactly when no child is accepted, `-2`
/// exactly when some is accepted but none of those has exited, and the pid
/// of a child otherwise.
proof fn lemma_wait_code_cases(s: Seq<Option<TaskRecord>>, cur: int, pid: isize)
    requires
        table_wf(s),
        live(s, cur),
    ensures
        (wait_code(s, cur, pid) == -1) == !has_matching_child(s, cur, pid),
        (wait_code(s, cur, pid) == -2) == (has_matching_child(s, cur, pid) && !has_reapable_child(
            s,
            cur,
            pid,
        )),
        wait_code(s, cur, pid) >= -2,
{
    if has_matching_child(s, cur, pid) && has_reapable_child(s, cur, pid) {
        lemma_first_reapable(s, cur, pid);
        let k = first_reapable(s, cur, pid);
        let ch = rec(s, cur).children;
        assert(linked(s, cur, ch[k]));
        assert(ch[k] < s.len());
        assert(wait_code(s, cur, pid) >= 0);
    }
}

/// When a wait for `pid` by task `cur` fails: `-1` exactly when no child is
/// accepted (`-1` accepts every child, any other value only the child with
/// that pid), `-2` exactly when some child is accepted but none of those has
/// exited; a failed wait changes nothing and returns no exit code, and no
/// other negative value is returned.
pub proof fn lemma_wait_failure_codes(s: Seq<Option<TaskRecord>>, cur: int, pid: isize)
    requires
        table_wf(s),
        live(s, cur),
    ensures
        (wait_code(s, cur, pid) == -1) <==> (forall|k: int|
            0 <= k < rec(s, cur).children.len() ==> !child_matches(pid, #[trigger] rec(s, cur).children[k])),
        (wait_code(s, cur, pid) == -2) <==> ((exists|k: int|
            0 <= k < rec(s, cur).children.len() && child_matches(pid, #[trigger] rec(s, cur).children[k])) && (forall|k: int|
            0 <= k < rec(s, cur).children.len() && child_matches(pid, #[trigger] rec(s, cur).children[k]) ==> rec(s, rec(s, cur).children[k] as int).task_status
                != TaskStatus::Zombie)),
        wait_code(s, cur, pid) >= -2,
        wait_code(s, cur, pid) < 0 ==> after_wait(s, cur, pid) == s && wait_exit_code(s, cur, pid)
            is None,
{
    lemma_wait_code_cases(s, cur, pid);
    let ch = rec(s, cur).children;
    let no_match = forall|k: int| 0 <= k < ch.len() ==> !child_matches(pid, #[trigger] ch[k]);
    assert(no_match == !has_matching_child(s, cur, pid)) by {
        if has_matching_child(s, cur, pid) {
            let k0 = choose|k: int| 0 <= k < ch.len() && child_matches(pid, #[trigger] ch[k]);
        } else {
            assert forall|k: int| 0 <= k < ch.len() implies !child_matches(pid, #[trigger] ch[k]) by {
                assert(!child_matches(pid, ch[k]));
            }
        }
    }
    let none_exited = forall|k: int|
        0 <= k < ch.len() && child_matches(pid, #[trigger] ch[k]) ==> rec(s, ch[k] as int).task_status
            != TaskStatus::Zombie;
    assert(has_matching_child(s, cur, pid) ==> (none_exited == !has_reapable_child(s, cur, pid))) by {
        if has_reapable_child(s, cur, pid) {
            let k0 = choose|k: int| 0 <= k < ch.len() && reapable(s, pid, #[trigger] ch[k]);
            assert(rec(s, ch[k0] as int).task_status == TaskStatus::Zombie);
        } else {
            assert forall|k: int|
                0 <= k < ch.len() && child_matches(pid, #[trigger] ch[k]) implies rec(
                s,
                ch[k] as int,
            ).task_status != TaskStatus::Zombie by {
                assert(linked(s, cur, ch[k]));
                assert(!reapable(s, pid, ch[k]));
            }
        }
    }
}

/// What a successful wait for `pid` by task `cur` does: it returns the pid
/// of an accepted, exited child of `cur` with no such child before it in
/// `cur`'s list, and that child's exit code. The child is dropped from
/// `cur`'s children, every other child stays, and the child's slot is
/// emptied, so it is freed; no other slot changes.
pub proof fn lemma_wait_collects_child(s: Seq<Option<TaskRecord>>, cur: int, pid: isize)
    requires
        table_wf(s),
        live(s, cur),
        wait_code(s, cur, pid) >= 0,
    ensures
        ({
            let c = wait_code(s, cur, pid) as usize;
            let s2 = after_wait(s, cur, pid);
            &&& c as isize == wait_code(s, cur, pid)
            &&& rec(s, cur).children.contains(c)
            &&& (pid == -1 || c == pid as usize)
            &&& live(s, c as int)
            &&& rec(s, c as int).task_status == TaskStatus::Zombie
            &&& wait_exit_code(s, cur, pid) == Some(rec(s, c as int).exit_code)
            &&& !live(s2, c as int)
            &&& s2.len() == s.len()
            &&& live(s2, cur)
            &&& rec(s2, cur).children.len() + 1 == rec(s, cur).children.len()
            &&& !rec(s2, cur).children.contains(c)
            &&& forall|d: usize| #[trigger] rec(s, cur).children.contains(d) && d != c ==> rec(
                s2,
                cur,
            ).children.contains(d)
            &&& forall|k: int|
                0 <= k < rec(s, cur).children.len() && #[trigger] rec(s, cur).children[k] == c
                    ==> forall|j: int|
                    0 <= j < k ==> !((pid == -1 || #[trigger] rec(s, cur).children[j] == pid as usize)
                        && live(s, rec(s, cur).children[j] as int) && rec(
                        s,
                        rec(s, cur).children[j] as int,
                    ).task_status == TaskStatus::Zombie)
            &&& forall|p: int| 0 <= p < s.len() && p != cur && p != c ==> #[trigger] s2[p] == s[p]
        }),
{
    let ch = rec(s, cur).children;
    assert(has_matching_child(s, cur, pid) && has_reapable_child(s, cur, pid));
    lemma_first_reapable(s, cur, pid);
    let k = first_reapable(s, cur, pid);
    let c = ch[k];
    let s2 = after_wait(s, cur, pid);
    assert(linked(s, cur, c));
    assert(c != cur);
    assert(reapable(s, pid, c));
    assert(c < s.len());
    assert(ch.contains(c));
    let r = ch.remove(k);
    assert(rec(s2, cur).children == r);
    assert(ch.no_duplicates());
    assert forall|j: int| 0 <= j < r.len() implies r[j] != c by {
        let jj = if j < k { j } else { j + 1 };
        assert(r[j] == ch[jj]);
    }
    assert forall|d: usize| #[trigger] ch.contains(d) && d != c implies r.contains(d) by {
        let i = choose|i: int| 0 <= i < ch.len() && ch[i] == d;
        if i < k {
            assert(r[i] == d);
        } else {
            assert(i != k);
            assert(r[i - 1] == d);
        }
    }
    assert forall|kk: int| 0 <= kk < ch.len() && #[trigger] ch[kk] == c implies forall|j: int|
        0 <= j < kk ==> !((pid == -1 || #[trigger] ch[j] == pid as usize) && live(s, ch[j] as int)
            && rec(s, ch[j] as int).task_status == TaskStatus::Zombie) by {
        assert(kk == k);
        assert forall|j: int| 0 <= j < kk implies !((pid == -1 || #[trigger] ch[j] == pid as usize)
            && live(s, ch[j] as int) && rec(s, ch[j] as int).task_status == TaskStatus::Zombie) by {
            assert(!reapable(s, pid, ch[j]));
        }
    }
}

} // verus!
