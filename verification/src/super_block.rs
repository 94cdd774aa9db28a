use vstd::prelude::*;
use crate::device::{DevT, mkdev, spec_mkdev};
use crate::errno_base::{ErrCode, EBUSY, EINVAL, ENOSPC};
use crate::ida::{Ida, alloc_range_spec};
use crate::vfs::{SB_ACTIVE, SB_RDONLY};
use crate::dcache::DEntry;
use crate::file_system::{FileSystem, LogicalPart};
use crate::fs_context::FsContext;
use crate::fs_types::FSType;

verus! {

/// The device of the root filesystem: the first partition of the first
/// disk (major 259, minor 0).
pub const ROOT_DEV: DevT = 0x10300000;

/// The next thing that getting the tree of a block-device filesystem
/// does, as the answers of the steps made elsewhere come in.
#[derive(PartialEq, Eq, Structural)]
pub enum TreeBdevStep {
    /// Look up the block device named by the source.
    LookupBdev,
    /// Find or make the superblock of the device.
    GetSuper,
    /// Fill the new superblock with the filesystem's own `fill_super`.
    FillSuper,
    /// Give up the superblock and answer the error.
    DeactivateAndFail(ErrCode),
    /// Set the superblock's flags to the value (now active), then take its
    /// root.
    Activate(u32),
    /// Take the root of the superblock (answer 0).
    TakeRoot,
    /// Answer the error.
    Fail(ErrCode),
}

/// The first step: a context with no source is refused (`-EINVAL`);
/// otherwise the source's block device is looked up.
pub fn get_tree_bdev_start(source: &String) -> (step: TreeBdevStep)
    ensures
        source@.len() == 0 ==> step == TreeBdevStep::Fail(-EINVAL as ErrCode),
        source@.len() != 0 ==> step == TreeBdevStep::LookupBdev,
{
    if source.as_str().is_empty() {
        return TreeBdevStep::Fail(-EINVAL);
    }
    TreeBdevStep::LookupBdev
}

/// After the lookup of the block device answered `err`: an error is
/// answered; otherwise the device's superblock is sought.
pub fn get_tree_bdev_looked_up(err: ErrCode) -> (step: TreeBdevStep)
    ensures
        err != 0 ==> step == TreeBdevStep::Fail(err),
        err == 0 ==> step == TreeBdevStep::GetSuper,
{
    if err != 0 {
        return TreeBdevStep::Fail(err);
    }
    TreeBdevStep::GetSuper
}

/// After the superblock was sought: `sget_err` is the error it answered
/// with, if any. A superblock already in use must agree with the context
/// on being read-only (else `-EBUSY`), and its root is taken; a new one is
/// filled first.
pub fn get_tree_bdev_got_super(sget_err: Option<ErrCode>, has_root: bool, s_flags: u32, sb_flags: u32) -> (step: TreeBdevStep)
    ensures
        sget_err matches Some(e) ==> step == TreeBdevStep::Fail(e),
        sget_err.is_none() && has_root && ((s_flags ^ sb_flags) & SB_RDONLY) != 0 ==> step == TreeBdevStep::DeactivateAndFail(-EBUSY as ErrCode),
        sget_err.is_none() && has_root && ((s_flags ^ sb_flags) & SB_RDONLY) == 0 ==> step == TreeBdevStep::TakeRoot,
        sget_err.is_none() && !has_root ==> step == TreeBdevStep::FillSuper,
{
    match sget_err {
        Some(e) => TreeBdevStep::Fail(e),
        None => {
            if has_root {
                if ((s_flags ^ sb_flags) & SB_RDONLY) != 0 {
                    TreeBdevStep::DeactivateAndFail(-EBUSY)
                } else {
                    TreeBdevStep::TakeRoot
                }
            } else {
                TreeBdevStep::FillSuper
            }
        },
    }
}

/// After the new superblock was filled with the answer `fill_err` (its
/// set-up before that never fails here): an error gives the superblock up;
/// otherwise it becomes active.
pub fn get_tree_bdev_filled(fill_err: ErrCode, s_flags: u32) -> (step: TreeBdevStep)
    ensures
        fill_err != 0 ==> step == TreeBdevStep::DeactivateAndFail(fill_err),
        fill_err == 0 ==> step == TreeBdevStep::Activate(s_flags | SB_ACTIVE),
{
    if fill_err != 0 {
        return TreeBdevStep::DeactivateAndFail(fill_err);
    }
    TreeBdevStep::Activate(s_flags | SB_ACTIVE)
}

/// The logical part that `sget_dev` gives for `dev` under the context's
/// flags and filesystem type: the one in use, or a new one.
pub open spec fn sget_part(parts: Map<DevT, LogicalPart>, dev: DevT, sb_flags: u32, fs_type: usize) -> LogicalPart {
    if parts.contains_key(dev) {
        parts[dev]
    } else {
        LogicalPart {
            s_dev: dev, old_fs_type: FSType::Unknown, fs_type: fs_type, logic_block_size: 0, logic_block_count: 0,
            inode_count: 0, s_root: 0, sb_mount: 0, s_flags: sb_flags,
        }
    }
}

/// Gets the tree of a block-device filesystem for the mount context `fc`:
/// the source's device is looked up (the lookup answered `lookup_err`,
/// and the device `dev` when it answered 0), its logical part is found or
/// made in `fs`, and the context takes the part's root dentry, `root`.
///
/// - No source: `-EINVAL`, nothing changes.
/// - The lookup failed: its error, nothing changes.
/// - The part had a root: if it disagrees with the context on being
///   read-only, the part is dropped and `-EBUSY` answered.
/// - The part had no root: the filesystem's `fill_super` is called, which
///   answered `fill_err` and set the root `fill_root`; on an error the part
///   is dropped and the error answered; otherwise the part takes that root
///   and becomes active.
/// - On success (0) the context's root is the part's root, and `root`
///   (that dentry) has one more reference.
///
/// `fill_err` and `fill_root` are used only when `fill_super` is called.
pub fn get_tree_bdev(fs: &mut FileSystem, fc: &mut FsContext, lookup_err: ErrCode, dev: DevT, fill_err: ErrCode,
    fill_root: usize, root: &mut DEntry) -> (err: ErrCode)
    requires
        old(fc).root == 0,
    ensures
        ({
            let parts = old(fs).logical_part@;
            let s = sget_part(parts, dev, old(fc).sb_flags, old(fc).fs_type);
            let ok_root = if s.s_root != 0 { s.s_root } else { fill_root };
            let failed = err != 0;
            &&& old(fc).source@.len() == 0 ==> err == -EINVAL as ErrCode
            &&& old(fc).source@.len() != 0 && lookup_err != 0 ==> err == lookup_err
            &&& old(fc).source@.len() != 0 && lookup_err == 0 ==> {
                &&& s.s_root != 0 && ((s.s_flags ^ old(fc).sb_flags) & SB_RDONLY) != 0 ==> err == -EBUSY as ErrCode
                        && final(fs).logical_part@ == parts.remove(dev)
                &&& s.s_root != 0 && ((s.s_flags ^ old(fc).sb_flags) & SB_RDONLY) == 0 ==> err == 0
                        && final(fs).logical_part@ == parts.insert(dev, s)
                &&& s.s_root == 0 && fill_err != 0 ==> err == fill_err && final(fs).logical_part@ == parts.remove(dev)
                &&& s.s_root == 0 && fill_err == 0 ==> err == 0
                        && final(fs).logical_part@ == parts.insert(dev, LogicalPart { s_root: fill_root, s_flags: s.s_flags | SB_ACTIVE, ..s })
            }
            &&& (old(fc).source@.len() == 0 || lookup_err != 0) ==> final(fs).logical_part@ == parts
            &&& failed ==> final(fc).root == 0 && *final(root) == *old(root)
            &&& !failed ==> final(fc).root == ok_root && final(root).d_ref == old(root).d_ref.wrapping_add(1)
                    && final(root).d_parent == old(root).d_parent && final(root).d_inode == old(root).d_inode
                    && final(root).d_children == old(root).d_children && final(root).d_flags == old(root).d_flags
            &&& final(fs).iroot == old(fs).iroot && final(fs).root_dev == old(fs).root_dev
            &&& final(fc).source == old(fc).source && final(fc).sb_flags == old(fc).sb_flags
            &&& final(fc).fs_type == old(fc).fs_type
        }),
{
    let ghost parts = fs.logical_part@;
    if let TreeBdevStep::Fail(e) = get_tree_bdev_start(&fc.source) {
        return e;
    }
    if let TreeBdevStep::Fail(e) = get_tree_bdev_looked_up(lookup_err) {
        return e;
    }
    fs.sget_dev(fc.sb_flags, fc.fs_type, dev);
    let s = match fs.get_logical_part(dev) {
        Some(p) => p,
        None => {
            proof {
                assert(false);
            }
            return 0;
        },
    };
    assert(s == sget_part(parts, dev, fc.sb_flags, fc.fs_type));
    let new_root;
    match get_tree_bdev_got_super(None, s.s_root != 0, s.s_flags, fc.sb_flags) {
        TreeBdevStep::DeactivateAndFail(e) => {
            fs.kill_block_super(dev);
            assert(fs.logical_part@ =~= parts.remove(dev));
            return e;
        },
        TreeBdevStep::FillSuper => {
            match get_tree_bdev_filled(fill_err, s.s_flags) {
                TreeBdevStep::Activate(flags) => {
                    let mut p = s;
                    p.s_root = fill_root;
                    p.s_flags = flags;
                    fs.set_logical_part(dev, p);
                    assert(fs.logical_part@ =~= parts.insert(dev, p));
                    new_root = fill_root;
                },
                _ => {
                    fs.kill_block_super(dev);
                    assert(fs.logical_part@ =~= parts.remove(dev));
                    return fill_err;
                },
            }
        },
        _ => {
            assert(fs.logical_part@ =~= parts.insert(dev, s));
            new_root = s.s_root;
        },
    }
    fc.root = new_root;
    root.dget();
    0
}

/// Gives an anonymous superblock a device number: the next free minor
/// number below 2^20 from `ida` under major 0, stored in `dev` (answer
/// 0); `-ENOSPC` when none is left, leaving `dev` as it was.
pub fn get_anon_bdev(ida: &mut Ida, dev: &mut DevT) -> (r: ErrCode)
    requires
        0 <= old(ida).next_id() <= 0x100000 ==> old(ida).next_id() < i32::MAX,
    ensures
        ({
            let ghost_t = if old(ida).next_id() < 0 { 0i32 } else if old(ida).next_id() > 0x100000 { -ENOSPC as i32 } else { old(ida).next_id() };
            &&& alloc_range_spec(old(ida).next_id(), 0, 0x100000, final(ida).next_id(), ghost_t)
            &&& ghost_t < 0 ==> r == ghost_t as i64 && *final(dev) == *old(dev)
            &&& ghost_t >= 0 ==> r == 0 && *final(dev) == spec_mkdev(0, ghost_t as u32)
        }),
{
    let tdev = ida.alloc_range(0, 0x100000);
    if tdev < 0 {
        return tdev as ErrCode;
    }
    *dev = mkdev(0, tdev as DevT);
    0
}

} // verus!
