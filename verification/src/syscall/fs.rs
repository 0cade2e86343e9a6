//! File-descriptor system calls: the descriptor table of the calling task.
use vstd::prelude::*;
use crate::task::task::{TaskControlBlock, TaskRecord, TaskTable, linked, live, rec, table_wf};
use crate::task::{current_ok, init_ok, queue_ok};

verus! {

/// The open-file handle behind descriptor `fd`, if `fd` is open.
pub open spec fn fd_lookup(fd_table: Seq<Option<usize>>, fd: usize) -> Option<usize> {
    if fd < fd_table.len() {
        fd_table[fd as int]
    } else {
        None
    }
}

/// Descriptor `fd` is the lowest one free in `fd_table`, or one past its
/// end when none is free.
pub open spec fn is_first_free(fd_table: Seq<Option<usize>>, fd: usize) -> bool {
    &&& fd <= fd_table.len()
    &&& fd < fd_table.len() ==> fd_table[fd as int] is None
    &&& forall|j: int| 0 <= j < fd ==> #[trigger] fd_table[j] is Some
}

/// `fd_table` with handle `h` at descriptor `fd`, growing it by one when
/// `fd` is one past its end.
pub open spec fn place(fd_table: Seq<Option<usize>>, fd: usize, h: usize) -> Seq<Option<usize>> {
    if fd < fd_table.len() {
        fd_table.update(fd as int, Some(h))
    } else {
        fd_table.push(Some(h))
    }
}

/// Exactly one descriptor is the lowest free one: the first empty slot, or
/// one past the end when none is empty.
pub proof fn lemma_first_free_unique(fd_table: Seq<Option<usize>>, a: usize, b: usize)
    requires
        is_first_free(fd_table, a),
        is_first_free(fd_table, b),
    ensures
        a == b,
{
    if a < b {
        assert(fd_table[a as int] is Some);
    } else if b < a {
        assert(fd_table[b as int] is Some);
    }
}

/// A descriptor `fd` that is free, or one past the end, is the lowest free
/// one exactly when every descriptor below it is open.
pub proof fn lemma_first_free_means(fd_table: Seq<Option<usize>>, fd: usize)
    requires
        fd <= fd_table.len(),
        fd_table.len() <= usize::MAX,
        fd < fd_table.len() ==> fd_table[fd as int] is None,
    ensures
        is_first_free(fd_table, fd) <==> forall|j: int| 0 <= j < fd ==> #[trigger] fd_table[j] is Some,
        is_first_free(fd_table, fd_table.len() as usize) <==> forall|j: int|
            0 <= j < fd_table.len() ==> #[trigger] fd_table[j] is Some,
{
}

/// Putting a handle at a descriptor opens that descriptor on the handle and
/// leaves every other descriptor as it was; the table grows only when the
/// descriptor is one past its end.
pub proof fn lemma_place_opens_fd(fd_table: Seq<Option<usize>>, fd: usize, h: usize)
    requires
        fd <= fd_table.len(),
    ensures
        fd_lookup(place(fd_table, fd, h), fd) == Some(h),
        forall|j: usize| j != fd ==> #[trigger] fd_lookup(place(fd_table, fd, h), j) == fd_lookup(fd_table, j),
        place(fd_table, fd, h).len() == if fd < fd_table.len() { fd_table.len() } else { fd_table.len() + 1 },
{
}

/// The table with task `p`'s descriptor table replaced by `fds`.
pub open spec fn with_fds(s: Seq<Option<TaskRecord>>, p: int, fds: Seq<Option<usize>>) -> Seq<
    Option<TaskRecord>,
> {
    s.update(p, Some(TaskRecord { fd_table: fds, ..rec(s, p) }))
}

/// Replacing a task's descriptor table keeps the whole state consistent.
pub proof fn lemma_fds_change_keeps_wf(s: Seq<Option<TaskRecord>>, p: int, fds: Seq<Option<usize>>)
    requires
        table_wf(s),
        live(s, p),
    ensures
        table_wf(with_fds(s, p, fds)),
        forall|q: Seq<usize>| queue_ok(s, q) ==> queue_ok(with_fds(s, p, fds), q),
        forall|c: Option<usize>| current_ok(s, c) ==> current_ok(with_fds(s, p, fds), c),
        forall|i: usize| init_ok(s, i) ==> init_ok(with_fds(s, p, fds), i),
{
    let s2 = with_fds(s, p, fds);
    assert forall|a: int, k: int|
        live(s2, a) && 0 <= k < rec(s2, a).children.len() implies linked(
        s2,
        a,
        #[trigger] rec(s2, a).children[k],
    ) by {
        assert(rec(s2, a).children == rec(s, a).children);
        assert(linked(s, a, rec(s, a).children[k]));
    }
    assert forall|q: Seq<usize>| queue_ok(s, q) implies queue_ok(s2, q) by {
        assert forall|i: int| 0 <= i < q.len() implies live(s2, #[trigger] q[i] as int) && rec(
            s2,
            q[i] as int,
        ).task_status == crate::task::task::TaskStatus::Ready by {
            assert(live(s, q[i] as int));
        }
    }
}

/// A descriptor that was just closed no longer names a file, and closing it
/// again is refused.
pub proof fn lemma_closed_fd_unusable(fd_table: Seq<Option<usize>>, fd: usize)
    requires
        fd < fd_table.len(),
    ensures
        fd_lookup(fd_table.update(fd as int, None), fd) is None,
{
}

impl TaskControlBlock {
    /// Claims the lowest free descriptor, growing the table by one free slot
    /// when none is free, and returns it.
    pub fn alloc_fd(&mut self) -> (fd: usize)
        requires
            old(self).fd_table.len() < usize::MAX,
        ensures
            is_first_free(old(self)@.fd_table, fd),
            final(self)@ == (TaskRecord {
                fd_table: if fd < old(self)@.fd_table.len() {
                    old(self)@.fd_table
                } else {
                    old(self)@.fd_table.push(None)
                },
                ..old(self)@
            }),
    {
        let mut i: usize = 0;
        while i < self.fd_table.len()
            invariant
                i <= self.fd_table.len(),
                self@ == old(self)@,
                forall|j: int| 0 <= j < i ==> #[trigger] self.fd_table@[j] is Some,
            decreases self.fd_table.len() - i,
        {
            if self.fd_table[i].is_none() {
                return i;
            }
            i = i + 1;
        }
        self.fd_table.push(None);
        i
    }
}

/// Claims the lowest free descriptor of `fds` and puts handle `h` there.
fn install(fds: &mut Vec<Option<usize>>, h: usize) -> (fd: usize)
    requires
        old(fds).len() < usize::MAX,
    ensures
        is_first_free(old(fds)@, fd),
        final(fds)@ == place(old(fds)@, fd, h),
{
    let mut i: usize = 0;
    while i < fds.len()
        invariant
            i <= fds.len(),
            fds@ == old(fds)@,
            forall|j: int| 0 <= j < i ==> #[trigger] fds@[j] is Some,
        decreases fds.len() - i,
    {
        if fds[i].is_none() {
            fds.set(i, Some(h));
            return i;
        }
        i = i + 1;
    }
    fds.push(Some(h));
    i
}

/// The handle that `sys_write` on descriptor `fd` writes to; `Err(-1)` when
/// `fd` is not open in task `cur`.
pub fn sys_write(tasks: &TaskTable, cur: usize, fd: usize) -> (r: Result<usize, isize>)
    requires
        live(tasks@, cur as int),
    ensures
        r == match fd_lookup(rec(tasks@, cur as int).fd_table, fd) {
            Some(h) => Ok::<usize, isize>(h),
            None => Err::<usize, isize>(-1isize),
        },
{
    let t = tasks.get(cur);
    if fd >= t.fd_table.len() {
        return Err(-1);
    }
    match t.fd_table[fd] {
        Some(h) => Ok(h),
        None => Err(-1),
    }
}

/// The handle that `sys_read` on descriptor `fd` reads from; `Err(-1)` when
/// `fd` is not open in task `cur`.
pub fn sys_read(tasks: &TaskTable, cur: usize, fd: usize) -> (r: Result<usize, isize>)
    requires
        live(tasks@, cur as int),
    ensures
        r == match fd_lookup(rec(tasks@, cur as int).fd_table, fd) {
            Some(h) => Ok::<usize, isize>(h),
            None => Err::<usize, isize>(-1isize),
        },
{
    let t = tasks.get(cur);
    if fd >= t.fd_table.len() {
        return Err(-1);
    }
    match t.fd_table[fd] {
        Some(h) => Ok(h),
        None => Err(-1),
    }
}

/// Closes descriptor `fd` of task `cur`: `0` and the descriptor becomes free,
/// or `-1` and nothing changes when `fd` is not open.
pub fn sys_close(tasks: &mut TaskTable, cur: usize, fd: usize) -> (r: isize)
    requires
        table_wf(old(tasks)@),
        live(old(tasks)@, cur as int),
    ensures
        fd_lookup(rec(old(tasks)@, cur as int).fd_table, fd) is None ==> r == -1 && final(tasks)@
            == old(tasks)@,
        fd_lookup(rec(old(tasks)@, cur as int).fd_table, fd) is Some ==> r == 0 && final(tasks)@
            == with_fds(
            old(tasks)@,
            cur as int,
            rec(old(tasks)@, cur as int).fd_table.update(fd as int, None),
        ),
        table_wf(final(tasks)@),
        forall|q: Seq<usize>| queue_ok(old(tasks)@, q) ==> queue_ok(final(tasks)@, q),
        forall|c: Option<usize>| current_ok(old(tasks)@, c) ==> current_ok(final(tasks)@, c),
        forall|i: usize| init_ok(old(tasks)@, i) ==> init_ok(final(tasks)@, i),
{
    {
        let t = tasks.get(cur);
        if fd >= t.fd_table.len() {
            return -1;
        }
        if t.fd_table[fd].is_none() {
            return -1;
        }
    }
    let mut t = tasks.take(cur);
    t.fd_table.set(fd, None);
    tasks.put(cur, t);
    proof {
        let s = old(tasks)@;
        let fds = rec(s, cur as int).fd_table.update(fd as int, None);
        lemma_fds_change_keeps_wf(s, cur as int, fds);
        assert(tasks@ =~= with_fds(s, cur as int, fds));
    }
    0
}

/// Opens the two ends of a new pipe, handles `pipe_read` and `pipe_write`,
/// in task `cur`: each end takes the lowest free descriptor, the read end
/// first. Returns the two descriptors.
pub fn sys_pipe(tasks: &mut TaskTable, cur: usize, pipe_read: usize, pipe_write: usize) -> (fds: (
    usize,
    usize,
))
    requires
        table_wf(old(tasks)@),
        live(old(tasks)@, cur as int),
        rec(old(tasks)@, cur as int).fd_table.len() + 2 <= usize::MAX,
    ensures
        ({
            let t0 = rec(old(tasks)@, cur as int).fd_table;
            let t1 = place(t0, fds.0, pipe_read);
            &&& is_first_free(t0, fds.0)
            &&& is_first_free(t1, fds.1)
            &&& final(tasks)@ == with_fds(old(tasks)@, cur as int, place(t1, fds.1, pipe_write))
        }),
        fds.0 != fds.1,
        table_wf(final(tasks)@),
        forall|q: Seq<usize>| queue_ok(old(tasks)@, q) ==> queue_ok(final(tasks)@, q),
        forall|c: Option<usize>| current_ok(old(tasks)@, c) ==> current_ok(final(tasks)@, c),
        forall|i: usize| init_ok(old(tasks)@, i) ==> init_ok(final(tasks)@, i),
{
    let mut t = tasks.take(cur);
    let read_fd = install(&mut t.fd_table, pipe_read);
    let write_fd = install(&mut t.fd_table, pipe_write);
    tasks.put(cur, t);
    proof {
        let s = old(tasks)@;
        let t0 = rec(s, cur as int).fd_table;
        let t1 = place(t0, read_fd, pipe_read);
        assert(t1[read_fd as int] is Some);
        lemma_fds_change_keeps_wf(s, cur as int, place(t1, write_fd, pipe_write));
        assert(tasks@ =~= with_fds(s, cur as int, place(t1, write_fd, pipe_write)));
    }
    (read_fd, write_fd)
}

/// Duplicates descriptor `fd` of task `cur` onto its lowest free
/// descriptor and returns the new descriptor; `-1` and nothing changes when
/// `fd` is not open.
pub fn sys_dup(tasks: &mut TaskTable, cur: usize, fd: usize) -> (r: isize)
    requires
        table_wf(old(tasks)@),
        live(old(tasks)@, cur as int),
        rec(old(tasks)@, cur as int).fd_table.len() < isize::MAX,
    ensures
        ({
            let t0 = rec(old(tasks)@, cur as int).fd_table;
            match fd_lookup(t0, fd) {
                None => r == -1 && final(tasks)@ == old(tasks)@,
                Some(h) => r >= 0 && is_first_free(t0, r as usize) && final(tasks)@ == with_fds(
                    old(tasks)@,
                    cur as int,
                    place(t0, r as usize, h),
                ),
            }
        }),
        table_wf(final(tasks)@),
        forall|q: Seq<usize>| queue_ok(old(tasks)@, q) ==> queue_ok(final(tasks)@, q),
        forall|c: Option<usize>| current_ok(old(tasks)@, c) ==> current_ok(final(tasks)@, c),
        forall|i: usize| init_ok(old(tasks)@, i) ==> init_ok(final(tasks)@, i),
{
    let h = {
        let t = tasks.get(cur);
        if fd >= t.fd_table.len() {
            return -1;
        }
        match t.fd_table[fd] {
            Some(h) => h,
            None => {
                return -1;
            },
        }
    };
    let mut t = tasks.take(cur);
    let new_fd = install(&mut t.fd_table, h);
    tasks.put(cur, t);
    proof {
        let s = old(tasks)@;
        let t0 = rec(s, cur as int).fd_table;
        lemma_fds_change_keeps_wf(s, cur as int, place(t0, new_fd, h));
        assert(tasks@ =~= with_fds(s, cur as int, place(t0, new_fd, h)));
    }
    new_fd as isize
}

} // verus!
