# felix_kernel

The decisions and data structures of the Felix hobby kernel (x86, 32-bit),
written in Verus and proved against their contracts: paging and physical
memory bookkeeping, MMIO and DMA resources, the task table and scheduler,
process and file-descriptor system calls, pipes, the VFS mount namespace,
DevFS (a stateless mount over a device registry) and ProcFS, ext2
on-disk structures and their step-by-step operations, FAT directory
entries, MBR partitions, PCI configuration, timekeeping, the
root-filesystem bring-up, socket `connect` and application-processor
start-up as step machines, and the guest-memory checks of the WASI host
calls.

Layout:

- `src/` — the verified library, one module per kernel area (see
  `src/lib.rs`). Where an operation needs the hardware or a disk, the
  library gives a step function or a plan and takes the result back as an
  argument.
- `tests/` — tests of the library on concrete values.
- `app/` — thin glue that drives the step functions over traits standing
  for ports, disks, kernel memory, the console, the network stack and the
  Local APIC.

No outside crate is used.
