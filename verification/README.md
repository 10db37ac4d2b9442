# rcore_os

The core logic of a small RISC-V teaching kernel and its user library,
written in Verus and proved against its contracts.

- `src/` is the verified library: Sv39 addresses and page numbers
  (`mm::address`), the stack frame allocator (`mm::frame_allocator`), pids
  and kernel stacks (`task::pid`), task contexts, signal sets and actions,
  the task control block, signal delivery and the bookkeeping of running,
  ready and exited tasks (`task::manager`), trap dispatch (`trap`), system
  call decoding (`syscall`), clock arithmetic (`timer`) and the decisions of
  the user library (`user`).
- `app/` is the kernel around it: boot, control registers through the
  `riscv` crate, raw physical memory, the global allocators and task table,
  the `ecall` instructions of the user library and its heap.
- `tests/` runs the library on concrete values.
