use os_kernel::syscall::fs::{sys_close, sys_dup, sys_pipe, sys_read, sys_write};
use os_kernel::syscall::process::{sys_fork, sys_get_time, sys_getpid, sys_waitpid, sys_yield};
use os_kernel::task::manager::TaskManager;
use os_kernel::task::process::Processor;
use os_kernel::task::task::{TaskControlBlock, TaskStatus, TaskTable};
use os_kernel::trap::TrapContext;
use os_kernel::task::{add_initproc, exit_current_and_run_next, suspend_current_and_run_next};

struct Kernel {
    tasks: TaskTable,
    manager: TaskManager,
    processor: Processor,
}

fn boot() -> Kernel {
    let mut tasks = TaskTable::new();
    let mut manager = TaskManager::new();
    let mut regs = TrapContext { x: [0; 32], sstatus: 0x20, sepc: 0x8040_0000 };
    regs.x[10] = 77;
    regs.x[2] = 0x9000;
    let init = add_initproc(&mut tasks, &mut manager, vec![Some(100), Some(101), Some(101)], regs);
    assert_eq!(init, 0);
    Kernel { tasks, manager, processor: Processor::new() }
}

fn status(k: &Kernel, pid: usize) -> TaskStatus {
    k.tasks.get(pid).task_status
}

#[test]
fn initproc_is_queued_and_runs_first() {
    let mut k = boot();
    assert!(k.tasks.contains(0));
    assert_eq!(status(&k, 0), TaskStatus::Ready);
    assert_eq!(k.processor.run(&mut k.manager, &mut k.tasks), Some(0));
    assert_eq!(k.processor.current(), Some(0));
    assert_eq!(status(&k, 0), TaskStatus::Running);
    assert_eq!(sys_getpid(&k.processor, &k.tasks), 0);
}

#[test]
fn run_with_empty_queue_does_nothing() {
    let mut k = boot();
    k.processor.run(&mut k.manager, &mut k.tasks);
    k.processor.take_current();
    let mut empty = TaskManager::new();
    assert_eq!(k.processor.run(&mut empty, &mut k.tasks), None);
    assert_eq!(k.processor.current(), None);
}

#[test]
fn fork_creates_ready_child_with_copied_files() {
    let mut k = boot();
    k.processor.run(&mut k.manager, &mut k.tasks);
    assert_eq!(sys_fork(&k.processor, &mut k.manager, &mut k.tasks, 1), 1);
    let child: &TaskControlBlock = k.tasks.get(1);
    assert_eq!(child.pid, 1);
    assert_eq!(child.parent, Some(0));
    assert_eq!(child.task_status, TaskStatus::Ready);
    assert_eq!(child.fd_table, vec![Some(100), Some(101), Some(101)]);
    assert_eq!(k.tasks.get(0).children, vec![1]);
    assert_eq!(k.manager.fetch(), Some(1));
}

#[test]
fn forked_child_sees_zero_and_parent_registers_stay() {
    let mut k = boot();
    k.processor.run(&mut k.manager, &mut k.tasks);
    let parent_regs = k.tasks.get(0).trap_cx;
    assert_eq!(sys_fork(&k.processor, &mut k.manager, &mut k.tasks, 1), 1);
    let child_regs = k.tasks.get(1).trap_cx;
    assert_eq!(child_regs.x[10], 0);
    assert_eq!(child_regs.x[2], 0x9000);
    assert_eq!(child_regs.sepc, 0x8040_0000);
    assert_eq!(child_regs.sstatus, 0x20);
    assert_eq!(k.tasks.get(0).trap_cx, parent_regs);
    assert_eq!(parent_regs.x[10], 77);
}

#[test]
fn yield_sends_task_to_back_of_queue() {
    let mut k = boot();
    k.processor.run(&mut k.manager, &mut k.tasks);
    sys_fork(&k.processor, &mut k.manager, &mut k.tasks, 1);
    sys_fork(&k.processor, &mut k.manager, &mut k.tasks, 2);
    assert_eq!(sys_yield(&mut k.processor, &mut k.manager, &mut k.tasks), 0);
    assert_eq!(k.processor.current(), None);
    assert_eq!(status(&k, 0), TaskStatus::Ready);
    assert_eq!(k.processor.run(&mut k.manager, &mut k.tasks), Some(1));
    suspend_current_and_run_next(&mut k.processor, &mut k.manager, &mut k.tasks);
    assert_eq!(k.processor.run(&mut k.manager, &mut k.tasks), Some(2));
    suspend_current_and_run_next(&mut k.processor, &mut k.manager, &mut k.tasks);
    assert_eq!(k.processor.run(&mut k.manager, &mut k.tasks), Some(0));
    assert_eq!(k.processor.take_current(), Some(0));
}

#[test]
fn waitpid_without_children_is_minus_one() {
    let mut k = boot();
    k.processor.run(&mut k.manager, &mut k.tasks);
    assert_eq!(sys_waitpid(&k.processor, &mut k.tasks, -1), (-1, None));
    assert_eq!(sys_waitpid(&k.processor, &mut k.tasks, 3), (-1, None));
}

#[test]
fn waitpid_on_live_child_is_minus_two() {
    let mut k = boot();
    k.processor.run(&mut k.manager, &mut k.tasks);
    sys_fork(&k.processor, &mut k.manager, &mut k.tasks, 1);
    assert_eq!(sys_waitpid(&k.processor, &mut k.tasks, -1), (-2, None));
    assert_eq!(sys_waitpid(&k.processor, &mut k.tasks, 1), (-2, None));
    assert_eq!(sys_waitpid(&k.processor, &mut k.tasks, 2), (-1, None));
    assert!(k.tasks.contains(1));
}

/// Runs task 0, which forks `n` children with pids 1..=n, then lets each
/// child whose exit code is given run and exit, and puts task 0 back on the
/// processor.
fn family(n: usize, exits: &[(usize, i32)]) -> Kernel {
    let mut k = boot();
    k.processor.run(&mut k.manager, &mut k.tasks);
    for pid in 1..=n {
        sys_fork(&k.processor, &mut k.manager, &mut k.tasks, pid);
    }
    suspend_current_and_run_next(&mut k.processor, &mut k.manager, &mut k.tasks);
    loop {
        let pid = k.processor.run(&mut k.manager, &mut k.tasks).unwrap();
        if pid == 0 {
            break;
        }
        match exits.iter().find(|(p, _)| *p == pid) {
            Some((_, code)) => exit_current_and_run_next(&mut k.processor, &mut k.tasks, 0, *code),
            None => suspend_current_and_run_next(&mut k.processor, &mut k.manager, &mut k.tasks),
        }
    }
    k
}

#[test]
fn exit_then_wait_returns_pid_and_exit_code() {
    let mut k = family(1, &[(1, 7)]);
    assert_eq!(status(&k, 1), TaskStatus::Zombie);
    assert_eq!(k.tasks.get(1).exit_code, 7);
    assert_eq!(sys_waitpid(&k.processor, &mut k.tasks, 1), (1, Some(7)));
    assert!(!k.tasks.contains(1));
    assert!(k.tasks.get(0).children.is_empty());
    assert_eq!(sys_waitpid(&k.processor, &mut k.tasks, 1), (-1, None));
}

#[test]
fn wait_any_collects_first_exited_child_in_fork_order() {
    let mut k = family(3, &[(3, 30), (2, 20)]);
    assert_eq!(sys_waitpid(&k.processor, &mut k.tasks, -1), (2, Some(20)));
    assert_eq!(sys_waitpid(&k.processor, &mut k.tasks, -1), (3, Some(30)));
    assert_eq!(sys_waitpid(&k.processor, &mut k.tasks, -1), (-2, None));
    assert_eq!(k.tasks.get(0).children, vec![1]);
}

#[test]
fn exit_hands_children_to_initproc() {
    let mut k = boot();
    k.processor.run(&mut k.manager, &mut k.tasks);
    sys_fork(&k.processor, &mut k.manager, &mut k.tasks, 1);
    suspend_current_and_run_next(&mut k.processor, &mut k.manager, &mut k.tasks);
    assert_eq!(k.processor.run(&mut k.manager, &mut k.tasks), Some(1));
    sys_fork(&k.processor, &mut k.manager, &mut k.tasks, 2);
    sys_fork(&k.processor, &mut k.manager, &mut k.tasks, 3);
    exit_current_and_run_next(&mut k.processor, &mut k.tasks, 0, -4);
    assert_eq!(k.processor.current(), None);
    assert_eq!(k.tasks.get(0).children, vec![1, 2, 3]);
    assert_eq!(k.tasks.get(2).parent, Some(0));
    assert_eq!(k.tasks.get(3).parent, Some(0));
    assert!(k.tasks.get(1).children.is_empty());
    assert_eq!(k.tasks.get(1).exit_code, -4);
}

#[test]
fn fork_reuses_freed_pid_slot() {
    let mut k = family(1, &[(1, 0)]);
    assert_eq!(sys_waitpid(&k.processor, &mut k.tasks, -1), (1, Some(0)));
    assert_eq!(sys_fork(&k.processor, &mut k.manager, &mut k.tasks, 1), 1);
    assert_eq!(status(&k, 1), TaskStatus::Ready);
}

#[test]
fn get_time_passes_milliseconds_through() {
    assert_eq!(sys_get_time(0), 0);
    assert_eq!(sys_get_time(123_456), 123_456);
}

#[test]
fn write_and_read_look_up_descriptors() {
    let mut k = boot();
    k.processor.run(&mut k.manager, &mut k.tasks);
    assert_eq!(sys_write(&k.tasks, 0, 1), Ok(101));
    assert_eq!(sys_read(&k.tasks, 0, 0), Ok(100));
    assert_eq!(sys_write(&k.tasks, 0, 3), Err(-1));
    assert_eq!(sys_read(&k.tasks, 0, 99), Err(-1));
}

#[test]
fn close_frees_descriptor_once() {
    let mut k = boot();
    assert_eq!(sys_close(&mut k.tasks, 0, 1), 0);
    assert_eq!(sys_write(&k.tasks, 0, 1), Err(-1));
    assert_eq!(sys_close(&mut k.tasks, 0, 1), -1);
    assert_eq!(sys_close(&mut k.tasks, 0, 7), -1);
    assert_eq!(k.tasks.get(0).fd_table, vec![Some(100), None, Some(101)]);
}

#[test]
fn pipe_takes_lowest_free_descriptors() {
    let mut k = boot();
    sys_close(&mut k.tasks, 0, 1);
    assert_eq!(sys_pipe(&mut k.tasks, 0, 200, 201), (1, 3));
    assert_eq!(k.tasks.get(0).fd_table, vec![Some(100), Some(200), Some(101), Some(201)]);
    assert_eq!(sys_read(&k.tasks, 0, 1), Ok(200));
    assert_eq!(sys_write(&k.tasks, 0, 3), Ok(201));
}

#[test]
fn dup_copies_handle_to_lowest_free_descriptor() {
    let mut k = boot();
    assert_eq!(sys_dup(&mut k.tasks, 0, 0), 3);
    assert_eq!(sys_read(&k.tasks, 0, 3), Ok(100));
    sys_close(&mut k.tasks, 0, 1);
    assert_eq!(sys_dup(&mut k.tasks, 0, 2), 1);
    assert_eq!(sys_dup(&mut k.tasks, 0, 9), -1);
}

#[test]
fn alloc_fd_prefers_holes_then_grows() {
    let mut t = TaskControlBlock {
        pid: 5,
        parent: None,
        children: vec![],
        task_status: TaskStatus::Running,
        exit_code: 0,
        fd_table: vec![Some(1), None, Some(2)],
        trap_cx: TrapContext { x: [0; 32], sstatus: 0, sepc: 0 },
    };
    assert_eq!(t.alloc_fd(), 1);
    assert_eq!(t.fd_table, vec![Some(1), None, Some(2)]);
    t.fd_table[1] = Some(9);
    assert_eq!(t.alloc_fd(), 3);
    assert_eq!(t.fd_table, vec![Some(1), Some(9), Some(2), None]);
    assert_eq!(t.get_pid(), 5);
    assert!(!t.is_zombie());
}
