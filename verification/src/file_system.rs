//! The mounted logical parts (superblocks) of the file system, kept by
//! device number, and the decision of making a node in a directory.

use vstd::prelude::*;
use std::collections::BTreeMap;
use crate::device::DevT;
use crate::errno_base::{ErrCode, EBUSY, EPERM};
use crate::fs_context::str_eq;
use crate::fs_types::FSType;

verus! {

broadcast use vstd::laws_cmp::group_laws_cmp;

/// The directory bit of an inode mode.
pub const FILE_MODE_IFDIR: u16 = 0o40000;

/// A logical part of a device that holds a file system: its device, the
/// kind and the registered type (by address) of its file system, its block
/// size and counts, its root dentry and mount (by address, 0 for none) and
/// its flags.
#[derive(Clone, Copy)]
pub struct LogicalPart {
    pub s_dev: DevT,
    pub old_fs_type: FSType,
    pub fs_type: usize,
    pub logic_block_size: i32,
    pub logic_block_count: usize,
    pub inode_count: usize,
    pub s_root: usize,
    pub sb_mount: usize,
    pub s_flags: u32,
}

impl LogicalPart {
    /// A logical part with nothing set.
    pub fn new() -> (p: LogicalPart)
        ensures
            p == (LogicalPart {
                s_dev: 0, old_fs_type: FSType::Unknown, fs_type: 0, logic_block_size: 0, logic_block_count: 0,
                inode_count: 0, s_root: 0, sb_mount: 0, s_flags: 0,
            }),
    {
        LogicalPart {
            s_dev: 0, old_fs_type: FSType::Unknown, fs_type: 0, logic_block_size: 0, logic_block_count: 0,
            inode_count: 0, s_root: 0, sb_mount: 0, s_flags: 0,
        }
    }
}

/// The logical parts in use, by device, the root, and the names of the
/// registered filesystem types in the order of their list.
pub struct FileSystem {
    pub logical_part: BTreeMap<DevT, LogicalPart>,
    pub iroot: usize,
    pub root_dev: DevT,
    pub file_systems: Vec<String>,
}

impl FileSystem {
    /// No logical part, no root.
    pub fn new() -> (f: FileSystem)
        ensures
            f.logical_part@ == Map::<DevT, LogicalPart>::empty(),
            f.iroot == 0,
            f.root_dev == 0,
            f.file_systems@.len() == 0,
    {
        FileSystem { logical_part: BTreeMap::new(), iroot: 0, root_dev: 0, file_systems: Vec::new() }
    }

    /// The place in the list of the first registered filesystem type named
    /// `name`. The list's walk has no end check, so the name must be there.
    pub fn find_fs_type(&self, name: &str) -> (i: usize)
        requires
            exists|k: int| 0 <= k < self.file_systems@.len() && #[trigger] self.file_systems@[k]@ == name@,
        ensures
            i < self.file_systems@.len(),
            self.file_systems@[i as int]@ == name@,
            forall|k: int| 0 <= k < i ==> #[trigger] self.file_systems@[k]@ != name@,
    {
        let mut i: usize = 0;
        while i < self.file_systems.len()
            invariant
                i <= self.file_systems@.len(),
                forall|k: int| 0 <= k < i ==> #[trigger] self.file_systems@[k]@ != name@,
                exists|k: int| 0 <= k < self.file_systems@.len() && #[trigger] self.file_systems@[k]@ == name@,
            decreases self.file_systems@.len() - i,
        {
            if str_eq(self.file_systems[i].as_str(), name) {
                return i;
            }
            i += 1;
        }
        i
    }

    /// Registers a filesystem type that is already in a list (its `next`
    /// link is set): refused with `-EBUSY`, nothing changes. A type not yet
    /// in a list is never registered: the registration takes the list's
    /// lock and the lookup of the name takes it again, which waits forever.
    pub fn register_filesystem(&mut self, in_a_list: bool) -> (r: ErrCode)
        requires
            in_a_list,
        ensures
            r == -EBUSY as ErrCode,
            final(self).file_systems == old(self).file_systems,
            final(self).logical_part == old(self).logical_part,
    {
        -EBUSY
    }

    /// The logical part of `dev`, made when it has none: a new part of that
    /// device with the flags `sb_flags` and the file system type `fs_type`
    /// that the mount context holds.  Gives whether it was made.
    pub fn sget_dev(&mut self, sb_flags: u32, fs_type: usize, dev: DevT) -> (made: bool)
        ensures
            made == !old(self).logical_part@.contains_key(dev),
            made ==> final(self).logical_part@ == old(self).logical_part@.insert(dev, LogicalPart {
                s_dev: dev, old_fs_type: FSType::Unknown, fs_type: fs_type, logic_block_size: 0,
                logic_block_count: 0, inode_count: 0, s_root: 0, sb_mount: 0, s_flags: sb_flags,
            }),
            !made ==> final(self).logical_part@ == old(self).logical_part@,
            final(self).iroot == old(self).iroot,
            final(self).root_dev == old(self).root_dev,
    {
        if self.logical_part.contains_key(&dev) {
            return false;
        }
        let mut sb = LogicalPart::new();
        sb.s_dev = dev;
        sb.s_flags = sb_flags;
        sb.fs_type = fs_type;
        self.logical_part.insert(dev, sb);
        true
    }

    /// Drops the logical part of `dev`.
    pub fn kill_block_super(&mut self, dev: DevT)
        ensures
            final(self).logical_part@ == old(self).logical_part@.remove(dev),
            final(self).iroot == old(self).iroot,
            final(self).root_dev == old(self).root_dev,
    {
        self.logical_part.remove(&dev);
    }

    /// Puts `p` as the logical part of `dev`.
    pub fn set_logical_part(&mut self, dev: DevT, p: LogicalPart)
        ensures
            final(self).logical_part@ == old(self).logical_part@.insert(dev, p),
            final(self).iroot == old(self).iroot,
            final(self).root_dev == old(self).root_dev,
    {
        self.logical_part.insert(dev, p);
    }

    /// The logical part of `dev`, if it has one.
    pub fn get_logical_part(&self, dev: DevT) -> (p: Option<LogicalPart>)
        ensures
            p == (if self.logical_part@.contains_key(dev) { Some(self.logical_part@[dev]) } else { None }),
    {
        match self.logical_part.get(&dev) {
            Some(p) => Some(*p),
            None => None,
        }
    }
}

/// Whether a node may be made in the directory whose inode has the mode
/// `dir_mode` and whose operations have (`has_mknod`) or lack a node
/// maker: `None` to call the maker, or the error.  An inode with the
/// directory bit is refused, as is one with no maker.
pub fn do_mknodat(dir_mode: u16, has_mknod: bool) -> (r: Option<ErrCode>)
    ensures
        dir_mode & FILE_MODE_IFDIR != 0 ==> r == Some((-EPERM) as ErrCode),
        dir_mode & FILE_MODE_IFDIR == 0 && !has_mknod ==> r == Some((-EPERM) as ErrCode),
        dir_mode & FILE_MODE_IFDIR == 0 && has_mknod ==> r.is_none(),
{
    if dir_mode & FILE_MODE_IFDIR != 0 {
        return Some(-EPERM);
    }
    if !has_mknod {
        return Some(-EPERM);
    }
    None
}

/// A logical part made for a device is what a later look-up of that device
/// gives, until it is dropped.
pub proof fn lemma_sget_then_get(m: Map<DevT, LogicalPart>, dev: DevT, p: LogicalPart, other: DevT)
    ensures
        m.insert(dev, p).contains_key(dev) && m.insert(dev, p)[dev] == p,
        !m.insert(dev, p).remove(dev).contains_key(dev),
        other != dev ==> m.insert(dev, p).remove(dev).contains_key(other) == m.contains_key(other),
{
}

} // verus!
