//! Verified core logic of a small x86_64 kernel: bit operations, device
//! numbers, time keeping, identifier allocation, page-table entries,
//! ext4 layout computations, scheduling and the other decisions that the
//! kernel makes on plain values.

pub mod bitops;
pub mod device;
pub mod errno_base;
pub mod crc32c;
pub mod time;
pub mod ida;
pub mod string;
pub mod ext4;
pub mod memory;
pub mod list;
pub mod semaphore;
pub mod input;
pub mod slub;
pub mod keyboard;
pub mod device_table;
pub mod vfs;
pub mod fs_context;
pub mod mount;
pub mod propagation;
pub mod process;
pub mod execve;
pub mod mm_type;
pub mod elf64;
pub mod io;
pub mod buffer;
pub mod cpu;
pub mod clock;
pub mod fs_types;
pub mod namei;
pub mod super_block;
pub mod relocation;
pub mod page_table;
pub mod dcache;
pub mod file_system;
