use vstd::prelude::*;

verus! {

pub const FILE_MODE_IFMT: u16 = 0o170000;
pub const FILE_MODE_IFREG: u16 = 0o100000;
pub const FILE_MODE_IFBLK: u16 = 0o60000;
pub const FILE_MODE_IFDIR: u16 = 0o40000;
pub const FILE_MODE_IFCHR: u16 = 0o20000;
pub const FILE_MODE_IFIFO: u16 = 0o10000;
pub const FILE_MODE_IFLNK: u16 = 0o120000;
pub const FILE_MODE_IFSOCK: u16 = 0o140000;

pub const FS_IRWXU: u16 = 0o700;
pub const FS_IRUSR: u16 = 0o400;
pub const FS_IWUSR: u16 = 0o200;
pub const FS_IXUSR: u16 = 0o100;
pub const FS_IRWXG: u16 = 0o070;
pub const FS_IRGRP: u16 = 0o040;
pub const FS_IWGRP: u16 = 0o020;
pub const FS_IXGRP: u16 = 0o010;
pub const FS_IRWXO: u16 = 0o007;
pub const FS_IROTH: u16 = 0o004;
pub const FS_IWOTH: u16 = 0o002;
pub const FS_IXOTH: u16 = 0o001;
pub const FS_MASK: u16 = 0o777;
pub const FS_EXEC: u16 = 0o001;
pub const FS_READ: u16 = 0o004;
pub const FS_WRITE: u16 = 0o002;

pub const O_RDONLY: u64 = 0o0;
pub const O_WRONLY: u64 = 0o1;
pub const O_RDWR: u64 = 0o2;
pub const O_ACCMODE: u64 = 0o3;
pub const O_CREAT: u64 = 0o100;
pub const O_EXCL: u64 = 0o200;
pub const O_NOCTTY: u64 = 0o400;
pub const O_TRUNC: u64 = 0o1000;
pub const O_APPEND: u64 = 0o2000;
pub const O_NONBLOCK: u64 = 0o4000;

pub const STDIN: u32 = 0;
pub const STDOUT: u32 = 1;
pub const STDERR: u32 = 2;
pub const EOF: i64 = -1;

/// The kinds of filesystem a directory entry belongs to.
#[derive(Clone, Copy, PartialEq, Eq, Structural)]
pub enum FSType {
    Unknown,
    Ext4,
    Shmem,
}

/// A name with its hash.
pub struct QStr {
    pub name: String,
    pub hash: u64,
}

pub const DENTRY_OP_HASH: u32 = 0x1;
pub const DENTRY_OP_COMPARE: u32 = 0x2;
pub const DENTRY_OP_REVALIDATE: u32 = 0x4;
pub const DENTRY_OP_DELETE: u32 = 0x8;
pub const DENTRY_OP_PRUNE: u32 = 0x10;
pub const DENTRY_DISCONNECTED: u32 = 0x20;
pub const DENTRY_REFERENED: u32 = 0x40;
pub const DENTRY_DONTCACHE: u32 = 0x80;
pub const DENTRY_CANT_MOUNT: u32 = 0x100;
pub const DENTRY_GENOCIDE: u32 = 0x200;
pub const DENTRY_SHRINK_LIST: u32 = 0x400;
pub const DENTRY_OP_WEAK_REVALIDATE: u32 = 0x800;
pub const DENTRY_NFSFS_RENAMED: u32 = 0x1000;
pub const DENTRY_FSNOTIFIY_PARENT_WATCHED: u32 = 0x2000;
pub const DENTRY_KILLED: u32 = 0x4000;
pub const DENTRY_MOUNTED: u32 = 0x8000;
pub const DENTRY_NEED_AUTOMOUNT: u32 = 0x10000;
pub const DENTRY_MANAGE_TRANSIT: u32 = 0x20000;

/// The identity mapping of a mount, with its reference count.
pub struct MntIdmap {
    pub count: u64,
}

impl MntIdmap {
    /// A mapping with one reference.
    pub fn new() -> (m: MntIdmap)
        ensures
            m.count == 1,
    {
        MntIdmap { count: 1 }
    }
}

/// A partition table entry as the NTFS boot code reads it.
#[derive(Clone, Copy)]
pub struct DptByte {
    pub active_partition: u8,
    pub start_info: [u8; 3],
    pub partition_type: u8,
    pub end_info: [u8; 3],
    pub used_sector: [u8; 4],
    pub total_sector: [u8; 4],
}

pub const FSPT_NULL_TYPE: u8 = 0x00;
pub const FSP_FAT32: u8 = 0x01;
pub const FSPT_XENIT_ROOT: u8 = 0x02;
pub const FSPT_XENIX_USR: u8 = 0x03;
pub const FSPT_FAT16_32M: u8 = 0x04;
pub const FSPT_EXTENDED: u8 = 0x05;
pub const FSPT_FAT16: u8 = 0x06;
pub const FSPT_HPFS_NTFS: u8 = 0x07;
pub const FSPT_LAN_STEP: u8 = 0xfe;
pub const FSPT_BBT: u8 = 0xff;

/// The default quota limits of a shared-memory filesystem.
pub struct ShmemQuotaLimits {
    pub usrquota_bhardlimit: usize,
    pub usrquota_ihardlimit: usize,
    pub grpquota_bhardlimit: usize,
    pub grpquota_ihardlimit: usize,
}

impl ShmemQuotaLimits {
    /// No limit set.
    pub fn empty() -> (q: Self)
        ensures
            q.usrquota_bhardlimit == 0 && q.usrquota_ihardlimit == 0,
            q.grpquota_bhardlimit == 0 && q.grpquota_ihardlimit == 0,
    {
        ShmemQuotaLimits { usrquota_bhardlimit: 0, usrquota_ihardlimit: 0, grpquota_bhardlimit: 0, grpquota_ihardlimit: 0 }
    }
}

/// The access check of a path walk: the superuser may do anything;
/// otherwise the owner's, the group's or the others' permission bits of
/// `i_perm` apply (owner first, then group), and all the bits asked for
/// in `perm` (read 4, write 2, execute 1) must be there.
pub open spec fn spec_permission(i_perm: u16, i_uid: u32, i_gid: u32, uid: u32, gid: u32, perm: u16) -> bool {
    let mode: u16 = if uid == i_uid { i_perm >> 6u16 } else if gid == i_gid { i_perm >> 3u16 } else { i_perm };
    uid == 0 || (mode & perm & 7u16) == perm
}

/// Whether the process with user `uid` and group `gid` may access, in
/// the ways of `perm`, an inode with the permission bits `i_perm`, owned
/// by `i_uid` and `i_gid`.
pub fn permission(i_perm: u16, i_uid: u32, i_gid: u32, uid: u32, gid: u32, perm: u16) -> (b: bool)
    ensures
        b == spec_permission(i_perm, i_uid, i_gid, uid, gid, perm),
{
    let mut mode = i_perm;
    if uid == 0 {
        return true;
    }
    if uid == i_uid {
        mode >>= 6;
    } else if gid == i_gid {
        mode >>= 3;
    }
    (mode & perm & 0b111) == perm
}

} // verus!
