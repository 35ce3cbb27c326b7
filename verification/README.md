# zeus

The logic of a small riscv64 kernel, its user-space support library and its disk-image
builder, written in Verus with contracts and proofs.

- `src/memory.rs`: the free-list memory allocator (first fit, carving, merging of
  neighbouring chunks).
- `src/kernel/fs/`: the on-disk layout (header, directory entries, clusters), the zone
  bitmap, the directory cache, mounting a built image, cluster-chain reads and writes, and
  the descriptor table.
- `src/kernel/drivers/`, `src/drivers/`: virtio block requests, device probing, UART
  registers, DMA page hand-out.
- `src/process.rs`, `src/kernel/process/`: the round-robin scheduler and the ELF loader.
- `src/exception.rs`, `src/kernel/syscall.rs`, `src/syscall.rs`: trap causes and system-call
  decoding.
- `src/kernel/shell.rs`: line editing and command dispatch of the kernel shell.
- `src/stdlib/`: the user-space error codes and system-call results.
- `src/mkfs.rs`: the layout of a disk image built from a directory tree.

`app/` holds what runs around the library: the disk-image builder program with its file
I/O, and the kernel's global state, device and disk loops, system-call dispatch and
shell loop.
