# os_kernel

The decision-making core of a small RISC-V teaching kernel, verified with Verus.

- `src/frame_allocator.rs`, `src/address.rs`: the physical frame allocator
  (recycled frames first, then a bump pointer) and page rounding.
- `src/loader.rs`: where applications, their stacks and their first contexts go.
- `src/syscall/`: reading a system call number and arguments, and the
  descriptor-table and process system calls.
- `src/task/`: the task table (one slot per pid), the ready queue, the
  processor, and the transitions between them: fork, exit, wait, yield, run.
- `src/fs/stdio.rs`: console input and output as seen by the kernel.
- `src/trap.rs`: the registers a trap saves, kept per task.
- `src/virtio.rs`: the VirtIO driver error type.

`app/` holds what touches the machine: the global state behind spin locks,
the console, the open-file objects, user memory, and the system-call entry.
