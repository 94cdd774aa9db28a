use vstd::prelude::*;
use std::collections::BTreeMap;
use crate::errno_base::{ErrCode, EFAULT, EINVAL, ENOSPC};
use crate::vfs::{SB_I_NODEV, SB_I_NOEXEC, SB_I_USERNS_VISIBLE};

verus! {

broadcast use vstd::laws_cmp::group_laws_cmp;

pub const MNT_NOSUID: u32 = 0x1;
pub const MNT_NODEV: u32 = 0x2;
pub const MNT_NOEXEC: u32 = 0x4;
pub const MNT_NOATIME: u32 = 0x8;
pub const MNT_NODIRATIME: u32 = 0x10;
pub const MNT_RELATIME: u32 = 0x20;
pub const MNT_READONLY: u32 = 0x40;
pub const MNT_NOSYMFOLLOW: u32 = 0x80;
pub const MNT_SHRINKABLE: u32 = 0x100;
pub const MNT_WRITE_HOLD: u32 = 0x200;
pub const MNT_SHARED: u32 = 0x1000;
pub const MNT_UNBINDABLE: u32 = 0x2000;
pub const MNT_SHARED_MASK: u32 = 0x2000;
pub const MNT_USER_SETTABLE_MASK: u32 = 0xff;
pub const MNT_ATIME_MASK: u32 = 0x38;
pub const MNT_INTERNEL: u32 = 0x400;
pub const MNT_LOCK_ATIME: u32 = 0x40000;
pub const MNT_LOCK_NOEXEC: u32 = 0x80000;
pub const MNT_LOCK_NOSUID: u32 = 0x100000;
pub const MNT_LOCK_NODEV: u32 = 0x200000;
pub const MNT_LOCK_READONLY: u32 = 0x400000;
pub const MNT_LOCKED: u32 = 0x800000;
pub const MNT_DOOMED: u32 = 0x1000000;
pub const MNT_SYNC_UMOUNT: u32 = 0x2000000;
pub const MNT_MARKED: u32 = 0x4000000;
pub const MNT_UMOUNT: u32 = 0x8000000;
pub const MNT_ONRB: u32 = 0x10000000;

/// The longest path a mount call takes, in bytes.
pub const PATH_MAX: usize = 4096;

/// How a tree of mounts is attached: as a new mount, moved, or beneath
/// the top mount.
#[derive(Clone, Copy, PartialEq, Eq, Structural)]
pub enum MntTreeFlag {
    Empty,
    MntTreeMove,
    MntTreeBeneath,
}

/// A mount namespace's counters: the mounts it holds, those about to be
/// added, and its sequence number (0 for an anonymous namespace).
pub struct MntNamespace {
    pub root: usize,
    pub ucounts: usize,
    pub nr_mounts: u32,
    pub pending_mounts: u32,
    pub seq: u64,
}

impl MntNamespace {
    /// An empty anonymous namespace.
    pub fn new() -> (ns: MntNamespace)
        ensures
            ns.root == 0,
            ns.ucounts == 0,
            ns.nr_mounts == 0,
            ns.pending_mounts == 0,
            ns.seq == 0,
    {
        MntNamespace { root: 0, ucounts: 0, nr_mounts: 0, pending_mounts: 0, seq: 0 }
    }

    /// Whether the namespace is anonymous.
    pub fn is_anon_ns(&self) -> (b: bool)
        ensures
            b == (self.seq == 0),
    {
        self.seq == 0
    }
}

/// The mount flags after making a mount shared: not unbindable, shared.
pub open spec fn spec_set_mnt_shared(flags: u32) -> u32 {
    (flags & !MNT_SHARED_MASK) | MNT_SHARED
}

/// Makes a mount shared: its flags lose `MNT_UNBINDABLE` and gain
/// `MNT_SHARED`.
pub fn set_mnt_shared(mnt_flags: &mut u32)
    ensures
        *final(mnt_flags) == spec_set_mnt_shared(*old(mnt_flags)),
{
    *mnt_flags = (*mnt_flags & !MNT_SHARED_MASK) | MNT_SHARED;
}

/// A mount made shared is shared, and is not unbindable.
pub proof fn lemma_set_mnt_shared_is_shared(flags: u32)
    ensures
        spec_set_mnt_shared(flags) & MNT_SHARED != 0,
        spec_set_mnt_shared(flags) & MNT_UNBINDABLE == 0,
{
    assert(((flags & !0x2000u32) | 0x1000u32) & 0x1000u32 != 0 && ((flags & !0x2000u32) | 0x1000u32) & 0x2000u32 == 0)
        by (bit_vector);
}

/// Whether a mount with these flags is shared.
pub fn is_mnt_shared(mnt_flags: u32) -> (b: bool)
    ensures
        b == (mnt_flags & MNT_SHARED != 0),
{
    mnt_flags & MNT_SHARED != 0
}

/// Whether mounting a superblock with the flags `s_iflags` would reveal
/// more than its filesystem allows: only for a filesystem visible in user
/// namespaces, and then unless it is marked both no-exec and no-dev.
pub fn mount_too_revealing(s_iflags: u32) -> (b: bool)
    ensures
        b == ((SB_I_USERNS_VISIBLE & s_iflags) != 0 && (s_iflags & 0x6u32) != 0x6u32),
{
    let requited_flags: u32 = SB_I_NOEXEC + SB_I_NODEV;
    assert(requited_flags == 6);
    if !((SB_I_USERNS_VISIBLE & s_iflags) != 0) {
        return false;
    }
    if (s_iflags & requited_flags) != requited_flags {
        return true;
    }
    false
}

/// Reserves room in `ns` for a tree of `mounts` new mounts, the number the
/// walk over the tree counts, under the limit `max`: refused with
/// `-ENOSPC` when the namespace is full, when its pending mounts fill what
/// is left, or when the tree does not fit; otherwise the tree's mounts
/// become pending.
pub fn count_mounts(ns: &mut MntNamespace, sysctl_mount_max: u32, mounts: u32) -> (r: ErrCode)
    requires
        ns_room(*old(ns), sysctl_mount_max, mounts) ==> old(ns).pending_mounts + mounts <= u32::MAX,
    ensures
        ({
            let fits = ns_room(*old(ns), sysctl_mount_max, mounts);
            &&& !fits ==> r == -ENOSPC && final(ns).pending_mounts == old(ns).pending_mounts
            &&& fits ==> r == 0 && final(ns).pending_mounts == old(ns).pending_mounts + mounts
        }),
        final(ns).nr_mounts == old(ns).nr_mounts,
        final(ns).seq == old(ns).seq,
        final(ns).root == old(ns).root,
{
    let mut max = sysctl_mount_max;
    if ns.nr_mounts >= max {
        return -ENOSPC;
    }
    max -= ns.nr_mounts;
    if ns.pending_mounts >= max {
        return -ENOSPC;
    }
    if mounts > max {
        return -ENOSPC;
    }
    ns.pending_mounts += mounts;
    0
}

/// A tree of `mounts` mounts fits in `ns` under the limit `max`.
pub open spec fn ns_room(ns: MntNamespace, max: u32, mounts: u32) -> bool {
    &&& ns.nr_mounts < max
    &&& ns.pending_mounts < max - ns.nr_mounts
    &&& mounts <= max - ns.nr_mounts
}

/// `std::str::from_utf8`: whether the bytes are valid UTF-8, which is
/// when `from_utf8` answers `Ok`.
#[verifier::external_body]
fn is_utf8(bytes: &[u8]) -> (r: bool)
    ensures
        r == vstd::utf8::valid_utf8(bytes@),
{
    std::str::from_utf8(bytes).is_ok()
}

/// The answer of the mount call's check of one name (its bytes before the
/// terminating NUL): not UTF-8 or longer than `PATH_MAX` bytes gives
/// `-EINVAL`, empty gives `-EFAULT`; a good name gives 0.
pub open spec fn mount_name_error(name: Seq<u8>) -> ErrCode {
    if !vstd::utf8::valid_utf8(name) {
        -EINVAL as ErrCode
    } else if name.len() == 0 {
        -EFAULT as ErrCode
    } else if name.len() > PATH_MAX {
        -EINVAL as ErrCode
    } else {
        0
    }
}

fn check_mount_name(name: &[u8]) -> (r: ErrCode)
    ensures
        r == mount_name_error(name@),
{
    if !is_utf8(name) {
        return -EINVAL;
    }
    if name.len() == 0 {
        return -EFAULT;
    }
    if name.len() > PATH_MAX {
        return -EINVAL;
    }
    0
}

/// The mount call's checks of the device name, the directory and the
/// filesystem type, in that order: the first bad name's error. When all
/// are good the answer is that of the mount itself, which this kernel
/// gives as 0.
pub fn sys_mount(dev_name: &[u8], dir_name: &[u8], fstype: &[u8]) -> (r: ErrCode)
    ensures
        mount_name_error(dev_name@) != 0 ==> r == mount_name_error(dev_name@),
        mount_name_error(dev_name@) == 0 && mount_name_error(dir_name@) != 0 ==> r == mount_name_error(dir_name@),
        mount_name_error(dev_name@) == 0 && mount_name_error(dir_name@) == 0 ==> r == mount_name_error(fstype@),
{
    let e = check_mount_name(dev_name);
    if e != 0 {
        return e;
    }
    let e = check_mount_name(dir_name);
    if e != 0 {
        return e;
    }
    let e = check_mount_name(fstype);
    if e != 0 {
        return e;
    }
    0
}

/// The place a mount is attached at: its dentry's address and the count
/// of mounts on it.
#[derive(Clone, Copy)]
pub struct Mountpoint {
    pub m_dentry: usize,
    pub m_count: u32,
}

/// The mount points, by the address of their dentry.
pub struct MountPoints {
    pub points: BTreeMap<usize, Mountpoint>,
}

impl MountPoints {
    /// No mount point.
    pub fn new() -> (m: MountPoints)
        ensures
            m.points@ == Map::<usize, Mountpoint>::empty(),
    {
        MountPoints { points: BTreeMap::new() }
    }

    /// The mount point on `dentry`, if there is one.
    pub fn find_mount(&self, dentry: usize) -> (r: Option<Mountpoint>)
        ensures
            r == (if self.points@.contains_key(dentry) { Some(self.points@[dentry]) } else { None::<Mountpoint> }),
    {
        match self.points.get(&dentry) {
            Some(mp) => Some(*mp),
            None => None,
        }
    }

    /// The mount point on `dentry`, with one more mount counted on it; a
    /// new one, counting one mount, when there was none.
    pub fn get_mountpoint(&mut self, dentry: usize) -> (mp: Mountpoint)
        requires
            old(self).points@.contains_key(dentry) ==> old(self).points@[dentry].m_count < u32::MAX,
        ensures
            old(self).points@.contains_key(dentry) ==> mp == (Mountpoint { m_count: (old(self).points@[dentry].m_count + 1) as u32, ..old(self).points@[dentry] }),
            !old(self).points@.contains_key(dentry) ==> mp == (Mountpoint { m_dentry: dentry, m_count: 1 }),
            final(self).points@ == old(self).points@.insert(dentry, mp),
    {
        match self.points.remove(&dentry) {
            Some(old_mp) => {
                let mut m = old_mp;
                m.m_count = m.m_count + 1;
                self.points.insert(dentry, m);
                proof {
                    assert(self.points@ =~= old(self).points@.insert(dentry, m));
                }
                m
            },
            None => {
                let m = Mountpoint { m_dentry: dentry, m_count: 1 };
                self.points.insert(dentry, m);
                proof {
                    assert(self.points@ =~= old(self).points@.insert(dentry, m));
                }
                m
            },
        }
    }
}

/// After `get_mountpoint(dentry)` answered `mp`, `find_mount(dentry)`
/// answers `mp`, and the count of mounts on it went up by one (from none
/// to one).
pub proof fn lemma_get_then_find_mountpoint(points: Map<usize, Mountpoint>, dentry: usize, mp: Mountpoint)
    requires
        points.contains_key(dentry) ==> mp == (Mountpoint { m_count: (points[dentry].m_count + 1) as u32, ..points[dentry] }),
        !points.contains_key(dentry) ==> mp == (Mountpoint { m_dentry: dentry, m_count: 1 }),
        points.contains_key(dentry) ==> points[dentry].m_count < u32::MAX,
    ensures
        ({
            let after = points.insert(dentry, mp);
            &&& (if after.contains_key(dentry) { Some(after[dentry]) } else { None::<Mountpoint> }) == Some(mp)
            &&& after[dentry].m_count == (if points.contains_key(dentry) { points[dentry].m_count + 1 } else { 1 })
        }),
{
}

/// The answers of the steps of attaching a mount tree that are made
/// elsewhere: getting the mount point of the tree's root (0 or an error),
/// whether the destination mount is shared, giving the tree group ids
/// (0 or an error), and propagating it to the destination's peers (0 or an
/// error).
pub struct AttachSteps {
    pub smp_err: ErrCode,
    pub dest_shared: bool,
    pub invent_err: ErrCode,
    pub propagate_err: ErrCode,
}

/// The error that attaching a tree of `mounts` mounts into `ns` ends
/// with, when it ends with one: that of getting the mount point; then, for
/// a new (not moved) tree, that of reserving room for it; then, for a
/// shared destination, that of giving group ids and that of propagating.
pub open spec fn attach_error(ns: MntNamespace, max: u32, mounts: u32, flags: MntTreeFlag, steps: AttachSteps) -> ErrCode {
    let moving = flags == MntTreeFlag::MntTreeMove;
    if steps.smp_err != 0 {
        steps.smp_err
    } else if !moving && !ns_room(ns, max, mounts) {
        -ENOSPC as ErrCode
    } else if steps.dest_shared && steps.invent_err != 0 {
        steps.invent_err
    } else if steps.dest_shared {
        steps.propagate_err
    } else {
        0
    }
}

/// Attaches a tree of `mounts` mounts as far as this kernel does: it
/// answers the first error of its steps (see `attach_error`) and then
/// clears the namespace's pending mounts, except for an error in getting
/// the mount point or in propagating, which leave them. Every path without
/// an error, and every error in propagating, reaches work this kernel has
/// not written, so one of the other errors must occur.
pub fn attach_recursive_mnt(ns: &mut MntNamespace, sysctl_mount_max: u32, mounts: u32, flags: MntTreeFlag, steps: &AttachSteps) -> (r: ErrCode)
    requires
        ns_room(*old(ns), sysctl_mount_max, mounts) ==> old(ns).pending_mounts + mounts <= u32::MAX,
        steps.smp_err != 0
            || (flags != MntTreeFlag::MntTreeMove && !ns_room(*old(ns), sysctl_mount_max, mounts))
            || (steps.dest_shared && steps.invent_err != 0),
    ensures
        r == attach_error(*old(ns), sysctl_mount_max, mounts, flags, *steps),
        r != 0,
        steps.smp_err != 0 ==> final(ns).pending_mounts == old(ns).pending_mounts,
        steps.smp_err == 0 ==> final(ns).pending_mounts == 0,
        final(ns).nr_mounts == old(ns).nr_mounts,
{
    let moving = flags == MntTreeFlag::MntTreeMove;
    if steps.smp_err != 0 {
        return steps.smp_err;
    }
    if !moving {
        let err = count_mounts(ns, sysctl_mount_max, mounts);
        if err != 0 {
            ns.pending_mounts = 0;
            return err;
        }
    }
    ns.pending_mounts = 0;
    steps.invent_err
}

} // verus!
