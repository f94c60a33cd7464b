# os_core

The scheduling, mailbox, directory and system-call logic of a small RISC-V
teaching kernel, written in Verus and verified.

- `src/binary_heap.rs`: a binary min-heap over any `PartialOrd` item type;
  inserting and popping keep the heap property, and a pop returns a least item.
- `src/stride_order.rs`, `src/stride_scheduler.rs`: stride scheduling with
  wrap-around stride comparison; picking keeps all strides within half the
  stride range of each other, and the block picked has the least stride.
- `src/manager.rs`: the ready tasks by pid, each with exactly one scheduling block.
- `src/mailbox.rs`: a ring of sixteen mail slots read in the order written.
- `src/vfs.rs`: directory lookups, creation, links and unlinks, and `fstat`.
- `src/syscall/`: what each system call checks and answers; page-table
  queries reach it as closures, and a call that goes on to act on files,
  user memory or the page table hands back what is to be done.
- `src/lifecycle.rs`: `fork`, `exec` and `spawn`: a new child joins its
  parent's children and the ready queue; `exec` swaps the address space.
- `src/task.rs`: task states and what a task's exit does to it and its children.
- `src/timer.rs`, `src/config.rs`: clock conversion and constants.

`app/` holds the shared, locked kernel objects (tasks, mailbox registry, ready
queue), the console files, the timer register read, an in-memory directory, and
the system calls of the current task, which gather its state, call the checked
calls of `src/syscall/` and carry out their answers. The user address space is
a trait (`app/mm.rs`) that a kernel implements with its page tables.
