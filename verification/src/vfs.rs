use vstd::prelude::*;

verus! {

pub const SB_RDONLY: u32 = 0x1;
pub const SB_NOSUID: u32 = 0x2;
pub const SB_NODEV: u32 = 0x4;
pub const SB_NOEXEC: u32 = 0x8;
pub const SB_SYNCHRONOUS: u32 = 0x10;
pub const SB_MANDLOCK: u32 = 0x40;
pub const SB_DIRSYNC: u32 = 0x80;
pub const SB_NOATIME: u32 = 0x400;
pub const SB_NODIRATIME: u32 = 0x800;
pub const SB_SILENT: u32 = 0x8000;
pub const SB_POSIXACL: u32 = 0x10000;
pub const SB_INLINECRYPT: u32 = 0x20000;
pub const SB_KERNMOUNT: u32 = 0x400000;
pub const SB_I_VERSION: u32 = 0x800000;
pub const SB_LAZYTIME: u32 = 0x2000000;
pub const SB_DEAD: u32 = 0x200000;
pub const SB_DYING: u32 = 0x1000000;
pub const SB_SUBMOUNT: u32 = 0x4000000;
pub const SB_FORCE: u32 = 0x8000000;
pub const SB_NOSEC: u32 = 0x10000000;
pub const SB_BORN: u32 = 0x20000000;
pub const SB_ACTIVE: u32 = 0x40000000;
pub const SB_NOUSER: u32 = 0x80000000;
pub const MNT_FORCE: u32 = 0x00000001;
pub const MNT_DETACH: u32 = 0x00000002;
pub const MNT_EXPIRE: u32 = 0x00000004;
pub const UMOUNT_NOFOLLOW: u32 = 0x00000008;
pub const UMOUNT_UNUSED: u32 = 0x80000000;
pub const SB_I_CGROUPWB: u32 = 0x00000001;
pub const SB_I_NOEXEC: u32 = 0x00000002;
pub const SB_I_NODEV: u32 = 0x00000004;
pub const SB_I_STABLE_WRITES: u32 = 0x00000008;
pub const SB_I_USERNS_VISIBLE: u32 = 0x00000010;
pub const SB_I_IMA_UNVERIFIABLE_SIGNATURE: u32 = 0x00000020;
pub const SB_I_UNTRUSTED_MOUNTER: u32 = 0x00000040;
pub const SB_I_EVM_UNSUPPORTED: u32 = 0x00000080;
pub const SB_I_SKIP_SYNC: u32 = 0x00000100;
pub const SB_I_PERSB_BDI: u32 = 0x00000200;
pub const SB_I_TS_EXPIRY_WARNED: u32 = 0x00000400;
pub const SB_I_RETIRED: u32 = 0x00000800;
pub const SB_I_NOUMASK: u32 = 0x00001000;

} // verus!
