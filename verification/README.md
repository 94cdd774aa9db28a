# lee_os

The decisions and data structures of a small x86_64 kernel, written in
Verus and proved against their contracts: device numbers, time keeping,
identifier allocation, the frame allocator and page tables, process
creation and scheduling, the keyboard decoder, the IDE disk set-up, the
ext4 layout (superblock, group descriptors, extent trees, checksums),
path walking over the dentry cache, mounts and their propagation.

Layout:

- `src/` — the verified library, one module per kernel part. The buddy
  frame allocator of `buddy_system_allocator` is used behind a few trusted
  wrappers in `src/memory.rs`; everything else is proved.
- `tests/` — tests of the library on concrete values.
- `app/` — a host-side driver that feeds the library disk images, scan
  codes, paths, executables and files and prints what it decides:
  `disks`, `keys`, `mount`, `crc`, `mkfs`, `walk` and `elf`.

Where the kernel reads a disk or waits for an answer, the library states
the decision as a function of what came back (for example
`named` answers which directory to load, and
`ext4_get_logic_block_idx` which extent block to read) and the caller
does the reading.
