use vstd::prelude::*;
use crate::string::{EOS, is_separator, spec_is_separator, has_eos_from};
use crate::crc32c::{crc32c_le, crc_bits, lemma_crc_bits_concat, CRC32C_POLY_LE};

verus! {

/// A block number on a device or in a file.
pub type Idx = u64;

pub const EXT4_NAME_LEN: usize = 0xff;
pub const EXT4_LABEL_MAX: usize = 0x10;
pub const EXT4_NDIR_BLOCKS: usize = 12;
pub const EXT4_IND_BLOCK: usize = 12;
pub const EXT4_DIND_BLOCK: usize = 13;
pub const EXT4_TIND_BLOCK: usize = 14;
pub const EXT4_N_BLOCKS: usize = 15;
pub const EXT4_DIRECT_BLOCK: u64 = 12;
pub const EXT4_INDIRECT1_BLOCK: u64 = 12 + 1024;
pub const EXT4_INDIRECT2_BLOCK: u64 = 12 + 1024 * 1024;
pub const EXT4_INDIRECT3_BLOCK: u64 = 12 + 1024 * 1024 * 1024;

pub const RO_COMPAT_SPARSE_SUPER: i32 = 0x1;
pub const RO_COMPAT_LARGE_FILE: i32 = 0x2;
pub const RO_COMPAT_BTREE_DIR: i32 = 0x4;
pub const RO_COMPAT_HUGE_FILE: i32 = 0x8;
pub const RO_COMPAT_GDT_CSUM: i32 = 0x10;
pub const RO_COMPAT_DIR_NLINK: i32 = 0x20;
pub const RO_COMPAT_EXTRA_ISIZE: i32 = 0x40;
pub const RO_COMPAT_HAS_SNAPSHOT: i32 = 0x80;
pub const RO_COMPAT_QUOTA: i32 = 0x100;
pub const RO_COMPAT_BIGALLOC: i32 = 0x200;
pub const RO_COMPAT_METADATA_CSUM: i32 = 0x400;
pub const RO_COMPAT_REPLICA: i32 = 0x800;
pub const RO_COMPAT_READONLY: i32 = 0x1000;
pub const RO_COMPAT_PROJECT: i32 = 0x2000;
pub const RO_COMPAT_VERITY: i32 = 0x8000;
pub const RO_COMPAT_ORPHAN_PRESENT: i32 = 0x10000;

pub const DEF_HASH_VERSION_LEGACY: u8 = 0;
pub const DEF_HASH_VERSION_HALF_MD4: u8 = 0;

/// File type bits of an inode mode.
pub const EXT4_IFMT: u16 = 0o170000;
pub const EXT4_IFREG: u16 = 0o100000;
pub const EXT4_IFBLK: u16 = 0o60000;
pub const EXT4_IFDIR: u16 = 0o40000;
pub const EXT4_IFCHR: u16 = 0o20000;
pub const EXT4_IFIFO: u16 = 0o10000;
pub const EXT4_IFLNK: u16 = 0o120000;
pub const EXT4_IFSOCK: u16 = 0o140000;

/// Whether the mode describes a regular file.
pub fn is_file(f_mode: u16) -> (b: bool)
    ensures b == (f_mode & EXT4_IFMT == EXT4_IFREG),
{
    f_mode & EXT4_IFMT == EXT4_IFREG
}

/// Whether the mode describes a directory.
pub fn is_dir(f_mode: u16) -> (b: bool)
    ensures b == (f_mode & EXT4_IFMT == EXT4_IFDIR),
{
    f_mode & EXT4_IFMT == EXT4_IFDIR
}

/// Whether the mode describes a character device.
pub fn is_chr(f_mode: u16) -> (b: bool)
    ensures b == (f_mode & EXT4_IFMT == EXT4_IFCHR),
{
    f_mode & EXT4_IFMT == EXT4_IFCHR
}

/// Whether the mode describes a block device.
pub fn is_blk(f_mode: u16) -> (b: bool)
    ensures b == (f_mode & EXT4_IFMT == EXT4_IFBLK),
{
    f_mode & EXT4_IFMT == EXT4_IFBLK
}

/// Whether the mode describes a FIFO.
pub fn is_fifo(f_mode: u16) -> (b: bool)
    ensures b == (f_mode & EXT4_IFMT == EXT4_IFIFO),
{
    f_mode & EXT4_IFMT == EXT4_IFIFO
}

/// Whether the mode describes a symbolic link.
pub fn is_lnk(f_mode: u16) -> (b: bool)
    ensures b == (f_mode & EXT4_IFMT == EXT4_IFLNK),
{
    f_mode & EXT4_IFMT == EXT4_IFLNK
}

/// Whether the mode describes a socket.
pub fn is_sock(f_mode: u16) -> (b: bool)
    ensures b == (f_mode & EXT4_IFMT == EXT4_IFSOCK),
{
    f_mode & EXT4_IFMT == EXT4_IFSOCK
}

/// Whether the mode describes a regular file.
pub fn is_reg(f_mode: u16) -> (b: bool)
    ensures b == (f_mode & EXT4_IFMT == EXT4_IFREG),
{
    f_mode & EXT4_IFMT == EXT4_IFREG
}

/// At most one file type holds of a mode.
pub proof fn lemma_file_types_exclusive(m: u16)
    ensures
        m & EXT4_IFMT == EXT4_IFREG ==> m & EXT4_IFMT != EXT4_IFDIR,
        m & EXT4_IFMT == EXT4_IFDIR ==> m & EXT4_IFMT != EXT4_IFLNK && m & EXT4_IFMT != EXT4_IFBLK,
{
}

/// One entry of an MBR partition table.
#[derive(Clone, Copy)]
pub struct PartEntry {
    pub bootable: u8,
    pub start_head: u8,
    pub tart_sector: u8,
    pub start_cylinder: u8,
    pub system: u8,
    pub end_head: u8,
    pub end_sector: u8,
    pub end_cylinder: u8,
    pub start: u32,
    pub count: u32,
}

/// An ext4 block group descriptor.
#[derive(Clone, Copy)]
pub struct Ext4GroupDesc {
    pub bg_block_bitmap_lo: u32,
    pub bg_inode_bitmap_lo: u32,
    pub bg_inode_table_lo: i32,
    pub bg_free_blocks_count_lo: u16,
    pub bg_free_inodes_count_lo: u16,
    pub bg_used_dirs_count_lo: i16,
    pub bg_flags: i16,
    pub bg_exclude_bitmap_lo: i32,
    pub bg_block_bitmap_csum_lo: u16,
    pub bg_inode_bitmap_csum_lo: u16,
    pub bg_itable_unused_lo: i16,
    pub bg_checksum: u16,
    pub bg_block_bitmap_hi: i32,
    pub bg_inode_bitmap_hi: i32,
    pub bg_inode_table_hi: i32,
    pub bg_free_blocks_count_hi: i16,
    pub bg_free_inodes_count_hi: i16,
    pub bg_used_dirs_count_hi: i16,
    pub bg_itable_unused_hi: i16,
    pub bg_exclude_bitmap_hi: i32,
    pub bg_block_bitmap_csum_hi: u16,
    pub bg_inode_bitmap_csum_hi: u16,
    pub bg_reserved: u32,
}

impl Ext4GroupDesc {
    /// A descriptor with every field zero.
    pub fn zeroed() -> (d: Ext4GroupDesc)
        ensures d == spec_zero_group_desc(),
    {
        Ext4GroupDesc {
            bg_block_bitmap_lo: 0, bg_inode_bitmap_lo: 0, bg_inode_table_lo: 0,
            bg_free_blocks_count_lo: 0, bg_free_inodes_count_lo: 0, bg_used_dirs_count_lo: 0,
            bg_flags: 0, bg_exclude_bitmap_lo: 0, bg_block_bitmap_csum_lo: 0,
            bg_inode_bitmap_csum_lo: 0, bg_itable_unused_lo: 0, bg_checksum: 0,
            bg_block_bitmap_hi: 0, bg_inode_bitmap_hi: 0, bg_inode_table_hi: 0,
            bg_free_blocks_count_hi: 0, bg_free_inodes_count_hi: 0, bg_used_dirs_count_hi: 0,
            bg_itable_unused_hi: 0, bg_exclude_bitmap_hi: 0, bg_block_bitmap_csum_hi: 0,
            bg_inode_bitmap_csum_hi: 0, bg_reserved: 0,
        }
    }
}

pub open spec fn spec_zero_group_desc() -> Ext4GroupDesc {
    Ext4GroupDesc {
        bg_block_bitmap_lo: 0, bg_inode_bitmap_lo: 0, bg_inode_table_lo: 0,
        bg_free_blocks_count_lo: 0, bg_free_inodes_count_lo: 0, bg_used_dirs_count_lo: 0,
        bg_flags: 0, bg_exclude_bitmap_lo: 0, bg_block_bitmap_csum_lo: 0,
        bg_inode_bitmap_csum_lo: 0, bg_itable_unused_lo: 0, bg_checksum: 0,
        bg_block_bitmap_hi: 0, bg_inode_bitmap_hi: 0, bg_inode_table_hi: 0,
        bg_free_blocks_count_hi: 0, bg_free_inodes_count_hi: 0, bg_used_dirs_count_hi: 0,
        bg_itable_unused_hi: 0, bg_exclude_bitmap_hi: 0, bg_block_bitmap_csum_hi: 0,
        bg_inode_bitmap_csum_hi: 0, bg_reserved: 0,
    }
}

/// The header of an extent tree node.
#[derive(Clone, Copy)]
pub struct Ext4ExtentHeader {
    pub eh_magic: i16,
    pub eh_entries: i16,
    pub eh_max: i16,
    pub eh_depth: i16,
    pub eh_generation: i32,
}

/// A leaf of an extent tree: `ee_len` blocks from logical block `ee_block`
/// stored from physical block `ee_start_hi:ee_start_lo`.
#[derive(Clone, Copy)]
pub struct Ext4Extent {
    pub ee_block: i32,
    pub ee_len: i16,
    pub ee_start_hi: i16,
    pub ee_start_lo: i32,
}

/// An index entry of an extent tree: logical blocks from `ei_block` are
/// described by the node in physical block `ei_leaf_hi:ei_leaf_lo`.
#[derive(Clone, Copy)]
pub struct Ext4ExtentIdx {
    pub ei_block: i32,
    pub ei_leaf_lo: i32,
    pub ei_leaf_hi: i16,
    pub ei_unused: i16,
}

/// The checksum at the end of an extent block.
#[derive(Clone, Copy)]
pub struct Ext4ExtentTail {
    pub et_check_sum: u32,
}

/// Per-system fields of an inode for Linux.
#[derive(Clone, Copy)]
pub struct Linux2 {
    pub l_i_blocks_high: i16,
    pub l_i_file_acl_high: i16,
    pub l_i_uid_high: i16,
    pub l_i_gid_high: i16,
    pub l_i_check_sum_lo: i16,
    pub l_i_reserved: i16,
}

/// Per-system fields of an inode for Hurd.
#[derive(Clone, Copy)]
pub struct Hurd2 {
    pub h_i_reserved1: i16,
    pub h_i_mode_high: u16,
    pub h_i_uid_high: u16,
    pub h_i_gid_high: u16,
    pub h_i_author: u16,
}

/// Per-system fields of an inode for Masix.
#[derive(Clone, Copy)]
pub struct Masix2 {
    pub h_i_reserved1: i16,
    pub m_i_file_acl_high: i16,
    pub m_i_reserced2: [u32; 2],
}

/// An ext4 on-disk inode.  The two per-system unions are kept as the raw
/// words they overlay: `osd1` as one word, `osd2` as six half-words.
#[derive(Clone, Copy)]
pub struct Ext4Inode {
    pub i_mode: u16,
    pub i_uid: i16,
    pub i_size_lo: i32,
    pub i_atime: i32,
    pub i_ctime: i32,
    pub i_mtime: i32,
    pub i_dtime: i32,
    pub i_gid: i16,
    pub i_links_coint: i16,
    pub i_blocks_lo: i32,
    pub i_flags: i32,
    pub osd1: u32,
    pub i_block: [i32; 15],
    pub i_generation: i32,
    pub i_file_acl_lo: i32,
    pub i_size_high: i32,
    pub i_obso_faddr: i32,
    pub osd2: [u16; 6],
    pub i_extra_isize: i16,
    pub i_checksum_hi: i16,
    pub i_ctime_extra: i32,
    pub i_mtime_extra: i32,
    pub i_atime_extra: i32,
    pub i_crtime: i32,
    pub i_crtime_extra: i32,
    pub i_version_hi: i32,
    pub i_projid: i32,
}

/// Whether a process with user `uid` and group `gid` holds the permission
/// bits `perm` (a subset of read 4, write 2, execute 1) on a file of mode
/// `mode` owned by `owner_uid` and `owner_gid`: the superuser always does;
/// otherwise the owner's, the group's or the others' three bits are used.
pub open spec fn spec_permission(mode: u16, owner_uid: u32, owner_gid: u32, uid: u32, gid: u32, perm: u16) -> bool {
    if uid == 0 {
        true
    } else {
        let m: u16 = if uid == owner_uid { mode >> 6u16 } else if gid == owner_gid { mode >> 3u16 } else { mode };
        (m & perm & 7u16) == perm
    }
}

/// Whether a process with user `uid` and group `gid` holds `perm` on the
/// file described by the on-disk inode `desc`.  The owner numbers are the
/// inode's signed 16-bit fields widened with their sign.
pub fn ext4_permission_check(desc: &Ext4Inode, uid: u32, gid: u32, perm: u16) -> (b: bool)
    ensures
        b == spec_permission(desc.i_mode, desc.i_uid as u32, desc.i_gid as u32, uid, gid, perm),
{
    let mut mode = desc.i_mode;
    if uid == 0 {
        return true;
    }
    if uid == desc.i_uid as u32 {
        mode >>= 6;
    } else if gid == desc.i_gid as u32 {
        mode >>= 3;
    }
    (mode & perm & 0b111) == perm
}

/// How a name matches a directory entry name: `Some(next)` when the entry
/// name is a whole component at the front of `name[start..]`, with `next`
/// the position after it and after one separator that follows it.
pub open spec fn spec_match_name(name: Seq<u8>, start: int, entry: Seq<u8>, next: Option<usize>) -> bool {
    exists|k: int| #![trigger entry[k]]
        0 <= k && start + k < name.len() && k < entry.len()
        && (forall|j: int| 0 <= j < k ==> name[start + j] == entry[j] && entry[j] != EOS)
        && (name[start + k] != entry[k] || name[start + k] == EOS || entry[k] == EOS)
        && next == (if entry[k] != EOS {
            None
        } else if name[start + k] != EOS && !spec_is_separator(name[start + k]) {
            None
        } else if spec_is_separator(name[start + k]) {
            Some((start + k + 1) as usize)
        } else {
            Some((start + k) as usize)
        })
}

/// Compares the path component at `name[start..]` with a directory entry
/// name; on a match gives the position where the rest of the path starts.
pub fn ext4_match_name(name: &[u8], start: usize, entry_name: &[u8]) -> (next: Option<usize>)
    requires
        start < name.len(),
        has_eos_from(name@, start as int),
        has_eos_from(entry_name@, 0),
    ensures
        spec_match_name(name@, start as int, entry_name@, next),
{
    let mut l = start;
    let mut r: usize = 0;
    while l < name.len() && r < entry_name.len() && name[l] == entry_name[r] && name[l] != EOS && entry_name[r] != EOS
        invariant
            start <= l,
            l - start == r,
            has_eos_from(name@, start as int),
            has_eos_from(entry_name@, 0),
            forall|j: int| 0 <= j < r ==> name@[start + j] == entry_name@[j] && entry_name@[j] != EOS,
            forall|j: int| start <= j < l ==> name@[j] != EOS,
            forall|j: int| 0 <= j < r ==> entry_name@[j] != EOS,
        decreases name.len() - l,
    {
        l += 1;
        r += 1;
    }
    if l >= name.len() {
        proof {
            let k = choose|k: int| start <= k < name@.len() && name@[k] == EOS;
            assert(name@[k] != EOS);
        }
    }
    if r >= entry_name.len() {
        proof {
            let k = choose|k: int| 0 <= k < entry_name@.len() && entry_name@[k] == EOS;
            assert(entry_name@[k] != EOS);
        }
    }
    assert(spec_match_name(name@, start as int, entry_name@, if entry_name@[r as int] != EOS {
            None
        } else if name@[l as int] != EOS && !spec_is_separator(name@[l as int]) {
            None
        } else if spec_is_separator(name@[l as int]) {
            Some((l + 1) as usize)
        } else {
            Some(l)
        }));
    if entry_name[r] != EOS {
        return None;
    }
    if name[l] != EOS && !is_separator(name[l]) {
        return None;
    }
    if is_separator(name[l]) {
        l += 1;
    }
    Some(l)
}


/// Two answers of the name comparison on the same input are the same.
proof fn lemma_match_name_unique(name: Seq<u8>, start: int, entry: Seq<u8>, r1: Option<usize>, r2: Option<usize>)
    requires
        spec_match_name(name, start, entry, r1),
        spec_match_name(name, start, entry, r2),
    ensures
        r1 == r2,
{
    let k1 = choose|k: int| #![trigger entry[k]]
        0 <= k && start + k < name.len() && k < entry.len()
        && (forall|j: int| 0 <= j < k ==> name[start + j] == entry[j] && entry[j] != EOS)
        && (name[start + k] != entry[k] || name[start + k] == EOS || entry[k] == EOS)
        && r1 == (if entry[k] != EOS { None } else if name[start + k] != EOS && !spec_is_separator(name[start + k]) { None }
            else if spec_is_separator(name[start + k]) { Some((start + k + 1) as usize) } else { Some((start + k) as usize) });
    let k2 = choose|k: int| #![trigger entry[k]]
        0 <= k && start + k < name.len() && k < entry.len()
        && (forall|j: int| 0 <= j < k ==> name[start + j] == entry[j] && entry[j] != EOS)
        && (name[start + k] != entry[k] || name[start + k] == EOS || entry[k] == EOS)
        && r2 == (if entry[k] != EOS { None } else if name[start + k] != EOS && !spec_is_separator(name[start + k]) { None }
            else if spec_is_separator(name[start + k]) { Some((start + k + 1) as usize) } else { Some((start + k) as usize) });
    if k1 < k2 {
        assert(name[start + k1] == entry[k1] && entry[k1] != EOS);
    }
    if k2 < k1 {
        assert(name[start + k2] == entry[k2] && entry[k2] != EOS);
    }
}

/// The answer of the name comparison, as a function of its input.
pub open spec fn match_name_fn(name: Seq<u8>, start: int, entry: Seq<u8>) -> Option<usize> {
    choose|r: Option<usize>| spec_match_name(name, start, entry, r)
}

/// The inode number of the directory entry at byte `p` of `d`
/// (little-endian at `p`).
pub open spec fn dirent_inode(d: Seq<u8>, p: int) -> int {
    d[p] as int + d[p + 1] as int * 0x100 + d[p + 2] as int * 0x10000 + d[p + 3] as int * 0x1000000
}

/// The signed record length of the directory entry at byte `p` of `d`
/// (little-endian at `p + 4`).
pub open spec fn dirent_rec_len(d: Seq<u8>, p: int) -> i16 {
    ((d[p + 4] as int + d[p + 5] as int * 256) as u16) as i16
}

/// What a directory scan left in the caller's entry: nothing yet (the
/// empty entry), the entry found at a byte offset, or the last empty entry
/// passed (an entry with inode 0, marked as no file).
#[derive(Clone, Copy, PartialEq, Eq, Structural)]
pub enum DirLookup {
    NoEntry,
    Found(usize),
    Blank(usize),
}

/// Where a directory scan stands: at the entry at a byte offset with the
/// caller's entry and path position as they are, done with them, or stuck
/// on an entry that does not lie in the directory's bytes.
#[derive(Clone, Copy, PartialEq, Eq, Structural)]
pub enum DirScan {
    At(usize, DirLookup, Option<usize>),
    Done(DirLookup, Option<usize>),
    Stuck,
}

/// One step of the scan of the directory bytes `d` for the component of
/// `name` at `start`. The entry's header and its name up to a NUL must lie
/// in `d`. The scan stops when the entry's record length, read as an
/// unsigned size, is not below the directory's size (the offset of the
/// entry is not counted). Otherwise the entry's name is compared: a match
/// records where the rest of the path starts, and a match with a nonzero
/// inode is the entry found. An entry with inode 0 is recorded as the last
/// empty entry, and the scan moves on by the record length.
pub open spec fn scan_step(d: Seq<u8>, name: Seq<u8>, start: int, s: DirScan) -> DirScan {
    match s {
        DirScan::At(p, res, nx) => {
            if !(p + 8 <= d.len() && has_eos_from(d, p + 8)) {
                DirScan::Stuck
            } else if !((dirent_rec_len(d, p as int) as usize) < d.len()) {
                DirScan::Done(res, nx)
            } else {
                let m = match_name_fn(name, start, d.subrange(p + 8, d.len() as int));
                if m is Some && dirent_inode(d, p as int) != 0 {
                    DirScan::Done(DirLookup::Found(p), m)
                } else {
                    let nx2 = if m is Some { m } else { nx };
                    let res2 = if dirent_inode(d, p as int) == 0 { DirLookup::Blank(p) } else { res };
                    let p2 = p + dirent_rec_len(d, p as int);
                    if 0 <= p2 <= usize::MAX { DirScan::At(p2 as usize, res2, nx2) } else { DirScan::Stuck }
                }
            }
        },
        _ => s,
    }
}

/// The scan after at most `fuel` steps.
pub open spec fn scan_walk(d: Seq<u8>, name: Seq<u8>, start: int, s: DirScan, fuel: nat) -> DirScan
    decreases fuel,
{
    if fuel == 0 {
        s
    } else {
        match s {
            DirScan::At(_, _, _) => scan_walk(d, name, start, scan_step(d, name, start, s), (fuel - 1) as nat),
            _ => s,
        }
    }
}

/// The scan from the first entry ends.
pub open spec fn scan_ends(d: Seq<u8>, name: Seq<u8>, start: int, res: DirLookup, nx: Option<usize>) -> bool {
    exists|f: nat| #[trigger] scan_walk(d, name, start, DirScan::At(0, res, nx), f) is Done
}

/// What the scan leaves: the caller's entry and path position.
pub open spec fn scan_result(d: Seq<u8>, name: Seq<u8>, start: int, res: DirLookup, nx: Option<usize>) -> DirScan {
    let f = choose|f: nat| #[trigger] scan_walk(d, name, start, DirScan::At(0, res, nx), f) is Done;
    scan_walk(d, name, start, DirScan::At(0, res, nx), f)
}

/// Looks the path component at `name[start..]` up among the entries of a
/// directory of mode `mode` whose bytes are `data` (see `scan_step`):
/// `result` ends as the entry found, or the last empty entry passed, or
/// as it was; `next` ends as the position after the last matching name,
/// or as it was. The mode must be a directory's. The scan must end: it
/// does not when no entry is found before the walk leaves the bytes.
pub fn ext4_find_entry(mode: u16, data: &[u8], name: &[u8], start: usize, next: &mut Option<usize>, result: &mut DirLookup)
    requires
        mode & EXT4_IFMT == EXT4_IFDIR,
        start < name@.len(),
        has_eos_from(name@, start as int),
        scan_ends(data@, name@, start as int, *old(result), *old(next)),
    ensures
        scan_result(data@, name@, start as int, *old(result), *old(next)) == DirScan::Done(*final(result), *final(next)),
{
    let ghost target = scan_result(data@, name@, start as int, *result, *next);
    let ghost mut fuel: nat = choose|f: nat| #[trigger] scan_walk(data@, name@, start as int, DirScan::At(0, *result, *next), f) is Done;
    let mut p: usize = 0;
    let dlen = data.len();
    loop
        invariant
            start < name@.len(),
            has_eos_from(name@, start as int),
            dlen == data@.len(),
            target == scan_result(data@, name@, start as int, *old(result), *old(next)),
            scan_walk(data@, name@, start as int, DirScan::At(p, *result, *next), fuel) == target,
            target is Done,
        decreases fuel,
    {
        let ghost here = DirScan::At(p, *result, *next);
        proof {
            assert(fuel > 0);
            let after = scan_step(data@, name@, start as int, here);
            assert(scan_walk(data@, name@, start as int, here, fuel) == scan_walk(data@, name@, start as int, after, (fuel - 1) as nat));
            if after is Stuck {
                assert(scan_walk(data@, name@, start as int, after, (fuel - 1) as nat) == after);
            }
            assert(p + 8 <= data@.len() && has_eos_from(data@, p + 8));
        }
        let rec_raw: u16 = data[p + 4] as u16 + (data[p + 5] as u16) * 256;
        let rec = rec_raw as i16;
        if !((rec as usize) < dlen) {
            proof {
                let after = scan_step(data@, name@, start as int, here);
                assert(after == DirScan::Done(*result, *next));
                assert(scan_walk(data@, name@, start as int, after, (fuel - 1) as nat) == after);
            }
            return;
        }
        let ino: u32 = data[p] as u32 + (data[p + 1] as u32) * 0x100 + (data[p + 2] as u32) * 0x10000
            + (data[p + 3] as u32) * 0x1000000;
        let entry = vstd::slice::slice_subrange(data, p + 8, dlen);
        proof {
            assert(has_eos_from(entry@, 0)) by {
                let k = choose|k: int| p + 8 <= k < data@.len() && data@[k] == EOS;
                assert(entry@[k - (p + 8)] == EOS);
            }
        }
        let m = ext4_match_name(name, start, entry);
        proof {
            let f = match_name_fn(name@, start as int, data@.subrange(p + 8, data@.len() as int));
            assert(spec_match_name(name@, start as int, entry@, f));
            lemma_match_name_unique(name@, start as int, entry@, m, f);
        }
        if m.is_some() {
            *next = m;
            if ino != 0 {
                *result = DirLookup::Found(p);
                proof {
                    let after = scan_step(data@, name@, start as int, here);
                    assert(after == DirScan::Done(*result, *next));
                    assert(scan_walk(data@, name@, start as int, after, (fuel - 1) as nat) == after);
                }
                return;
            }
        }
        if ino == 0 {
            *result = DirLookup::Blank(p);
        }
        proof {
            let after = scan_step(data@, name@, start as int, here);
            assert(after is At);
        }
        if rec >= 0 {
            p = p + rec as usize;
        } else {
            p = p - ((0i32 - rec as i32) as usize);
        }
        proof {
            assert(scan_step(data@, name@, start as int, here) == DirScan::At(p, *result, *next));
            fuel = (fuel - 1) as nat;
        }
    }
}

/// `n` is a power of `p`: `p` to some `k`, 1 (`k = 0`) included.
pub open spec fn is_power(n: int, p: int) -> bool {
    exists|k: nat| #[trigger] vstd::arithmetic::power::pow(p, k) == n
}

/// A nonzero number whose remainder by `p` (at least 2 in size) is 0 is
/// `p` times its quotient, which is smaller in size; it is a power of `p`
/// exactly when the quotient is.
proof fn lemma_power_step(m: int, p: int, q: int)
    requires
        m != 0,
        p >= 2 || p <= -2,
        m == p * q,
    ensures
        q != 0,
        (if q >= 0 { q } else { -q }) < (if m >= 0 { m } else { -m }),
        is_power(m, p) <==> is_power(q, p),
{
    reveal(vstd::arithmetic::power::pow);
    assert(q != 0) by (nonlinear_arith) requires m == p * q, m != 0;
    assert((if q >= 0 { q } else { -q }) < (if m >= 0 { m } else { -m })) by (nonlinear_arith)
        requires m == p * q, q != 0, p >= 2 || p <= -2;
    if is_power(m, p) {
        let k = choose|k: nat| #[trigger] vstd::arithmetic::power::pow(p, k) == m;
        if k == 0 {
            assert(vstd::arithmetic::power::pow(p, 0) == 1);
            assert(m == 1);
            assert(false) by (nonlinear_arith) requires 1 == p * q, p >= 2 || p <= -2;
        }
        let j = (k - 1) as nat;
        assert(vstd::arithmetic::power::pow(p, k) == p * vstd::arithmetic::power::pow(p, j));
        assert(vstd::arithmetic::power::pow(p, j) == q) by (nonlinear_arith)
            requires p * vstd::arithmetic::power::pow(p, j) == p * q, p != 0;
    }
    if is_power(q, p) {
        let j = choose|j: nat| #[trigger] vstd::arithmetic::power::pow(p, j) == q;
        assert(vstd::arithmetic::power::pow(p, j + 1) == p * vstd::arithmetic::power::pow(p, j));
        assert(vstd::arithmetic::power::pow(p, (j + 1) as nat) == m);
    }
}

/// `p` times `q`.
pub open spec fn times(p: int, q: int) -> int {
    p * q
}

/// A number other than 1 that `p` does not divide is not a power of `p`.
proof fn lemma_not_power(m: int, p: int)
    requires
        m != 1,
        p != 0,
        forall|q: int| m != #[trigger] times(p, q),
    ensures
        !is_power(m, p),
{
    reveal(vstd::arithmetic::power::pow);
    if is_power(m, p) {
        let k = choose|k: nat| #[trigger] vstd::arithmetic::power::pow(p, k) == m;
        if k > 0 {
            let j = (k - 1) as nat;
            assert(vstd::arithmetic::power::pow(p, k) == p * vstd::arithmetic::power::pow(p, j));
            assert(m == times(p, vstd::arithmetic::power::pow(p, j)));
        }
    }
}

/// Whether the nonzero `n` is a power of `p` (1 counts as `p` to the 0th);
/// 0 is not. `p` must not be 0 (a division by zero) nor 1 or -1 (the
/// division never ends) unless `n` is 0.
pub fn is_power_of_n(n: i64, p: i64) -> (b: bool)
    requires
        n == 0 || (p != 0 && p != 1 && p != -1),
    ensures
        b == (n != 0 && is_power(n as int, p as int)),
{
    let mut m = n;
    if p == 0 && p == 1 {
        return m == p;
    }
    while m != 0 && m % p == 0
        invariant
            n == 0 || (p != 0 && p != 1 && p != -1),
            n == 0 ==> m == 0,
            n != 0 ==> m != 0 && (is_power(m as int, p as int) <==> is_power(n as int, p as int)),
        decreases if m >= 0 { m as int } else { -(m as int) },
    {
        let ghost q: int = if m >= 0 { (m as int) / (p as int) } else { -((-(m as int)) / (p as int)) };
        proof {
            let mi = m as int;
            let pi = p as int;
            if mi >= 0 {
                vstd::arithmetic::div_mod::lemma_fundamental_div_mod(mi, pi);
                assert(mi % pi == 0);
            } else {
                vstd::arithmetic::div_mod::lemma_fundamental_div_mod(-mi, pi);
                assert((-mi) % pi == 0);
            }
            assert(mi == pi * q) by (nonlinear_arith)
                requires
                    mi >= 0 ==> mi == pi * (mi / pi) + 0,
                    mi < 0 ==> -mi == pi * ((-mi) / pi) + 0,
                    q == (if mi >= 0 { mi / pi } else { -((-mi) / pi) });
            lemma_power_step(mi, pi, q);
        }
        m = m / p;
    }
    proof {
        if n != 0 && m != 1 {
            let mi = m as int;
            let pi = p as int;
            assert forall|q: int| mi != #[trigger] times(pi, q) by {
                if mi == pi * q {
                    if mi >= 0 {
                        vstd::arithmetic::div_mod::lemma_fundamental_div_mod(mi, pi);
                        assert(mi % pi == 0) by (nonlinear_arith)
                            requires mi == pi * q, mi == pi * (mi / pi) + mi % pi, 0 <= mi % pi < (if pi >= 0 { pi } else { -pi });
                    } else {
                        vstd::arithmetic::div_mod::lemma_fundamental_div_mod(-mi, pi);
                        assert(-mi == pi * (-q)) by (nonlinear_arith) requires mi == pi * q;
                        assert((-mi) % pi == 0) by (nonlinear_arith)
                            requires -mi == pi * (-q), -mi == pi * ((-mi) / pi) + (-mi) % pi, 0 <= (-mi) % pi < (if pi >= 0 { pi } else { -pi });
                    }
                }
            }
            lemma_not_power(mi, pi);
        }
        if n != 0 && m == 1 {
            vstd::arithmetic::power::lemma_pow0(p as int);
        }
    }
    m == 1
}

/// Total number of blocks that the superblock describes, its two halves
/// read together as a signed 64-bit count (negative when the top bit of the
/// high half is set).
pub open spec fn sb_blocks_count(sb: Ext4SuperBlock) -> int {
    if sb.s_blocks_count_hi < 0x8000_0000 {
        sb.s_blocks_count_hi * 0x1_0000_0000int + sb.s_blocks_count_lo
    } else {
        sb.s_blocks_count_hi * 0x1_0000_0000int + sb.s_blocks_count_lo - 0x1_0000_0000_0000_0000int
    }
}

/// `x` divided by the positive `d`, rounded towards zero (as integer
/// division of the machine's signed types rounds).
pub open spec fn div_toward_zero(x: int, d: int) -> int {
    if x >= 0 { x / d } else { -((-x) / d) }
}

/// The free inode count that each group is given: 16 a free block, at
/// most the inodes a group holds.
pub open spec fn spec_group_free_inodes(sb: Ext4SuperBlock) -> int {
    let left = sb_blocks_count(sb);
    let bpg = sb.s_blocks_per_group as int;
    let fb = if left > bpg { bpg } else { left };
    let ipg = sb.s_inodes_per_group as int;
    if fb * 16 < ipg { fb * 16 } else { ipg }
}

/// Number of block groups: the block count divided by 32768, rounded up.
pub open spec fn sb_group_number(sb: Ext4SuperBlock) -> int {
    (sb_blocks_count(sb) + 32767) / 32768
}

/// Blocks that one copy of the group descriptor table spans: twice
/// `2^s_log_block_size`, or 0 for a negative logarithm.
pub open spec fn spec_group_bach(log_block_size: i32) -> int {
    if log_block_size < 0 { 0 } else { (vstd::arithmetic::power2::pow2(log_block_size as nat) * 2) as int }
}

/// Groups in one flexible block group: `2^n`, saturated at `i64::MAX`.
pub open spec fn spec_flex_batch(n: u8) -> int {
    if n >= 63 { i64::MAX as int } else { vstd::arithmetic::power2::pow2(n as nat) as int }
}

/// The descriptor that group `g` gets when the group descriptor table is
/// set up.  Every group is given the same free block and inode counts,
/// computed from the whole block count; the first group of each flexible
/// group records its block bitmap at block `2 + g`.
pub open spec fn spec_flex_group_desc(sb: Ext4SuperBlock, g: int) -> Ext4GroupDesc {
    let left = sb_blocks_count(sb);
    let bpg = sb.s_blocks_per_group as int;
    let fb: i64 = (if left > bpg { bpg } else { left }) as i64;
    let ipg = sb.s_inodes_per_group as int;
    let fi: i64 = (if fb * 16 < ipg { fb * 16 } else { ipg }) as i64;
    let fbb: i64 = (if g % spec_flex_batch(sb.s_log_groups_per_flex) == 0 { 2 + g } else { 0 }) as i64;
    let fib: i64 = (fbb + ((spec_group_bach(sb.s_log_block_size) as u64) as i64)) as i64;
    Ext4GroupDesc {
        bg_block_bitmap_lo: (fbb & 0xffffffffi64) as u32,
        bg_inode_bitmap_lo: (fib & 0xffffffffi64) as u32,
        bg_inode_table_lo: 0,
        bg_free_blocks_count_lo: (fb & 0xffffffi64) as u16,
        bg_free_inodes_count_lo: (fi & 0xffffffi64) as u16,
        bg_used_dirs_count_lo: 0,
        bg_flags: 0,
        bg_exclude_bitmap_lo: 0,
        bg_block_bitmap_csum_lo: 0,
        bg_inode_bitmap_csum_lo: 0,
        bg_itable_unused_lo: 0,
        bg_checksum: 0,
        bg_block_bitmap_hi: ((fbb >> 32i64) & 0xffffffffi64) as i32,
        bg_inode_bitmap_hi: ((fib >> 32i64) & 0xffffffffi64) as i32,
        bg_inode_table_hi: 0,
        bg_free_blocks_count_hi: ((fb >> 32i64) & 0xffffffffi64) as i16,
        bg_free_inodes_count_hi: ((fi >> 32i64) & 0xffffffffi64) as i16,
        bg_used_dirs_count_hi: 0,
        bg_itable_unused_hi: 0,
        bg_exclude_bitmap_hi: 0,
        bg_block_bitmap_csum_hi: 0,
        bg_inode_bitmap_csum_hi: 0,
        bg_reserved: 0,
    }
}

/// Block positions `q^k * 32768 * gb` for the powers `q^k` from `cur` on
/// that stay below `group_number`.
pub open spec fn spec_power_backups(cur: int, q: int, group_number: int, gb: int) -> Seq<u64>
    decreases (if group_number > cur { group_number - cur } else { 0 }),
    via power_backups_decreases
{
    if 3 <= cur < group_number && q >= 3 {
        seq![(cur * 32768 * gb) as u64] + spec_power_backups(cur * q, q, group_number, gb)
    } else {
        Seq::empty()
    }
}

#[via_fn]
proof fn power_backups_decreases(cur: int, q: int, group_number: int, gb: int) {
    if 3 <= cur < group_number && q >= 3 {
        assert(cur * q >= cur + 1) by (nonlinear_arith) requires cur >= 3, q >= 3;
    }
}

/// The blocks to which a full batch of 64 group descriptors is written:
/// block `gb`, block `32768 * gb`, then the backups at the powers of 3, 5
/// and 7 below the number of groups.
pub open spec fn spec_backup_blocks(group_number: int, gb: int) -> Seq<u64> {
    seq![gb as u64, (32768 * gb) as u64]
        + spec_power_backups(3, 3, group_number, gb)
        + spec_power_backups(5, 5, group_number, gb)
        + spec_power_backups(7, 7, group_number, gb)
}

/// A write of a copy of 64 group descriptors to a block of a device.
pub struct GroupDescWrite {
    pub block: Idx,
    pub count: u64,
    pub descs: Vec<Ext4GroupDesc>,
}

fn power_backups(q: i64, group_number: i64, gb: u64, out: &mut Vec<Idx>)
    requires
        q == 3 || q == 5 || q == 7,
        0 <= group_number <= 0x1_0000_0000_0000,
        group_number * 32768 * gb <= u64::MAX,
    ensures
        final(out)@ == old(out)@ + spec_power_backups(q as int, q as int, group_number as int, gb as int),
{
    let mut back_up_blocks: i64 = q;
    let ghost start = out@;
    while back_up_blocks < group_number
        invariant
            q == 3 || q == 5 || q == 7,
            3 <= back_up_blocks,
            0 <= group_number <= 0x1_0000_0000_0000,
            back_up_blocks < 0x8_0000_0000_0000,
            group_number * 32768 * gb <= u64::MAX,
            out@ + spec_power_backups(back_up_blocks as int, q as int, group_number as int, gb as int)
                == start + spec_power_backups(q as int, q as int, group_number as int, gb as int),
        decreases (if group_number > back_up_blocks { group_number - back_up_blocks } else { 0 }),
    {
        assert(back_up_blocks * 32768 * gb <= group_number * 32768 * gb) by (nonlinear_arith)
            requires back_up_blocks < group_number, 0 <= back_up_blocks;
        let blk: u64 = back_up_blocks as u64 * 32768 * gb;
        assert(blk == back_up_blocks * 32768 * gb);
        assert((back_up_blocks * 32768 * gb) as u64 == blk);
        proof {
            reveal_with_fuel(spec_power_backups, 2);
            assert(seq![(back_up_blocks * 32768 * gb) as u64] =~= seq![blk]);
            assert(spec_power_backups(back_up_blocks as int, q as int, group_number as int, gb as int)
                =~= seq![blk] + spec_power_backups(back_up_blocks * q, q as int, group_number as int, gb as int));
            assert((out@ + seq![blk]) + spec_power_backups(back_up_blocks * q, q as int, group_number as int, gb as int)
                == out@ + (seq![blk] + spec_power_backups(back_up_blocks * q, q as int, group_number as int, gb as int)));
        }
        out.push(blk);
        assert(back_up_blocks * q < 0x8_0000_0000_0000) by (nonlinear_arith)
            requires back_up_blocks < 0x1_0000_0000_0000, q <= 7, q >= 3;
        assert(back_up_blocks * q >= back_up_blocks + 3) by (nonlinear_arith)
            requires back_up_blocks >= 3, q >= 3;
        back_up_blocks = back_up_blocks * q;
    }
    assert(spec_power_backups(back_up_blocks as int, q as int, group_number as int, gb as int) == Seq::<u64>::empty());
    assert(out@ + Seq::<u64>::empty() == out@);
}

/// The blocks to which each full batch of 64 group descriptors is written.
pub fn ext4_group_desc_backup_blocks(group_number: i64, group_bach: u64) -> (v: Vec<Idx>)
    requires
        0 <= group_number <= 0x1_0000_0000_0000,
        group_number * 32768 * group_bach <= u64::MAX,
        group_number >= 2,
    ensures
        v@ == spec_backup_blocks(group_number as int, group_bach as int),
{
    let mut v: Vec<Idx> = Vec::new();
    assert(32768 * group_bach <= group_number * 32768 * group_bach) by (nonlinear_arith)
        requires group_number >= 2;
    v.push(1 * group_bach);
    v.push(32768 * group_bach);
    assert(v@ == seq![group_bach, (32768 * group_bach) as u64]);
    power_backups(3, group_number, group_bach, &mut v);
    power_backups(5, group_number, group_bach, &mut v);
    power_backups(7, group_number, group_bach, &mut v);
    v
}


/// Twice `2^log_block_size` (0 for a negative logarithm).
pub fn group_bach(log_block_size: i32) -> (gb: u64)
    requires
        log_block_size <= 62,
    ensures
        gb == spec_group_bach(log_block_size),
        gb <= 0x4000_0000_0000_0000 || gb == 0x8000_0000_0000_0000,
{
    if log_block_size < 0 {
        0
    } else {
        let n = log_block_size as u64;
        proof {
            vstd::arithmetic::power2::lemma2_to64_rest();
            if n < 61 {
                vstd::arithmetic::power2::lemma_pow2_strictly_increases(n as nat, 61);
            }
            vstd::bits::lemma_u64_pow2_no_overflow(n as nat);
            vstd::arithmetic::power2::lemma_pow2_strictly_increases(n as nat, 63);
            vstd::bits::lemma_u64_pow2_no_overflow(63);
            vstd::arithmetic::power2::lemma2_to64_rest();
            vstd::bits::lemma_u64_shl_is_mul(1, n);
        }
        (1u64 << n) * 2
    }
}

/// `2^n`, saturated at `i64::MAX`.
pub fn flex_batch(n: u8) -> (f: i64)
    ensures
        f == spec_flex_batch(n),
        f >= 1,
{
    if n >= 63 {
        i64::MAX
    } else {
        let m = n as u64;
        proof {
            vstd::bits::lemma_u64_pow2_no_overflow(m as nat);
            vstd::arithmetic::power2::lemma_pow2_strictly_increases(m as nat, 63);
            vstd::arithmetic::power2::lemma2_to64_rest();
            vstd::bits::lemma_u64_shl_is_mul(1, m);
            vstd::arithmetic::power2::lemma_pow2_pos(m as nat);
        }
        (1u64 << m) as i64
    }
}

/// The inputs on which setting up the group descriptor table runs without
/// an arithmetic overflow.
pub open spec fn flex_group_init_ok(sb: Ext4SuperBlock) -> bool {
    let gn = sb_group_number(sb);
    &&& sb.s_log_block_size <= 62
    &&& (gn > 0 ==> spec_flex_batch(sb.s_log_groups_per_flex) * 2 + gn <= i64::MAX)
    &&& (gn > 0 ==> div_toward_zero(spec_group_free_inodes(sb), 16) + spec_flex_batch(sb.s_log_groups_per_flex) * 2 + gn
            <= i64::MAX)
    &&& (gn >= 64 ==> gn * 32768 * spec_group_bach(sb.s_log_block_size) <= u64::MAX)
}

proof fn lemma_batch_index(bb: int, j: int, b: int, p: int)
    requires
        0 <= bb < b,
        0 <= j < p,
    ensures
        0 <= bb * p + j < b * p,
        0 <= bb * p,
{
    assert(bb * p + j < b * p) by (nonlinear_arith) requires 0 <= bb < b, 0 <= j < p;
    assert(0 <= bb * p) by (nonlinear_arith) requires 0 <= bb, 0 <= p;
}

/// The descriptors of groups `64 * b .. 64 * b + 64`.
pub open spec fn spec_flex_batch_descs(sb: Ext4SuperBlock, b: int) -> Seq<Ext4GroupDesc> {
    Seq::new(64, |i: int| spec_flex_group_desc(sb, 64 * b + i))
}

/// What setting up the group descriptor table writes, in order.
pub open spec fn ext4_flax_group_init_result(sb: Ext4SuperBlock, writes: Seq<GroupDescWrite>) -> bool {
    let gn = sb_group_number(sb);
    let blocks = spec_backup_blocks(gn, spec_group_bach(sb.s_log_block_size));
    &&& gn <= 0 ==> writes.len() == 0
    &&& gn > 0 ==> writes.len() == (gn / 64) * blocks.len()
    &&& forall|b: int, j: int| 0 <= b < gn / 64 && 0 <= j < blocks.len() ==> {
        let w = #[trigger] writes[b * blocks.len() + j];
        &&& w.block == blocks[j]
        &&& w.count == spec_group_bach(sb.s_log_block_size)
        &&& w.descs@ == spec_flex_batch_descs(sb, b)
    }
}

/// Sets up the group descriptor table of a new file system.  The
/// descriptors are kept 64 at a time; each time a batch of 64 is complete
/// it is written to every block of `ext4_group_desc_backup_blocks`, each
/// write `group_bach` blocks long.  The writes are returned in order (a
/// last batch of fewer than 64 groups is not written).  Fields that the
/// set-up does not compute are zero.
pub fn ext4_flax_group_init(sb: &Ext4SuperBlock) -> (writes: Vec<GroupDescWrite>)
    requires
        flex_group_init_ok(*sb),
    ensures
        ext4_flax_group_init_result(*sb, writes@),
{
    if sb.s_blocks_count_hi >= 0x8000_0000 {
        // The block count reads as negative: there is no group to set up.
        return Vec::new();
    }
    let left_blocks: i64 = (sb.s_blocks_count_hi as i64) * 0x1_0000_0000 + sb.s_blocks_count_lo as i64;
    let current_group_free_inodes_max = sb.s_inodes_per_group as i64;
    let gb = group_bach(sb.s_log_block_size);
    let flex = flex_batch(sb.s_log_groups_per_flex);
    assert(0 <= left_blocks < 0x8000_0000_0000_0000);
    let group_number: i64 = left_blocks / 32768 + if left_blocks % 32768 != 0 { 1 } else { 0 };
    assert(group_number == sb_group_number(*sb));
    assert(left_blocks / 32768 <= 0xffff_ffff_ffff) by (nonlinear_arith)
        requires 0 <= left_blocks < 0x8000_0000_0000_0000;
    assert(0 <= group_number <= 0x1_0000_0000_0000);
    let mut buffer: Vec<Ext4GroupDesc> = Vec::new();
    let mut k: usize = 0;
    while k < 64
        invariant
            k <= 64,
            buffer@.len() == k,
        decreases 64 - k,
    {
        buffer.push(Ext4GroupDesc::zeroed());
        k += 1;
    }
    let backups: Vec<Idx> = if group_number >= 64 {
        ext4_group_desc_backup_blocks(group_number, gb)
    } else {
        Vec::new()
    };
    let ghost blocks = spec_backup_blocks(group_number as int, gb as int);
    let mut writes: Vec<GroupDescWrite> = Vec::new();
    let mut group_no: i64 = 0;
    assert((group_no / 64) * blocks.len() == 0) by (nonlinear_arith) requires group_no == 0;
    while group_no < group_number
        invariant
            0 <= group_no <= group_number,
            group_number == sb_group_number(*sb),
            0 <= group_number <= 0x1_0000_0000_0000,
            left_blocks == sb_blocks_count(*sb),
            0 <= left_blocks < 0x8000_0000_0000_0000,
            current_group_free_inodes_max == sb.s_inodes_per_group as i64,
            gb == spec_group_bach(sb.s_log_block_size),
            gb <= 0x4000_0000_0000_0000 || gb == 0x8000_0000_0000_0000,
            flex == spec_flex_batch(sb.s_log_groups_per_flex),
            flex >= 1,
            flex_group_init_ok(*sb),
            buffer@.len() == 64,
            group_number >= 64 ==> backups@ == blocks,
            blocks == spec_backup_blocks(group_number as int, gb as int),
            forall|j: int| 0 <= j < group_no % 64 ==> buffer@[j] == spec_flex_group_desc(*sb, group_no - group_no % 64 + j),
            writes@.len() == (group_no / 64) * blocks.len(),
            forall|b: int, j: int| 0 <= b < group_no / 64 && 0 <= j < blocks.len() ==> {
                let w = #[trigger] writes@[b * blocks.len() + j];
                &&& w.block == blocks[j]
                &&& w.count == gb
                &&& w.descs@ == spec_flex_batch_descs(*sb, b)
            },
        decreases group_number - group_no,
    {
        let slot: usize = (group_no % 64) as usize;
        let current_group_free_blocks: i64 = if left_blocks > sb.s_blocks_per_group as i64 {
            sb.s_blocks_per_group as i64
        } else {
            left_blocks
        };
        let current_group_free_inodes: i64 = if current_group_free_blocks * 16 < current_group_free_inodes_max {
            current_group_free_blocks * 16
        } else {
            current_group_free_inodes_max
        };
        let mut used_blocks: i64 = current_group_free_inodes / 16;
        let mut first_block_bitmap: i64 = 0;
        if (group_no % flex) == 0 {
            used_blocks += flex * 2 + group_number;
            first_block_bitmap = 2 + group_no;
        }
        let gbi: i64 = gb as i64;
        assert(gb == 0x8000_0000_0000_0000u64 ==> gbi == i64::MIN) by (bit_vector) requires gbi == gb as i64;
        assert(gb <= 0x4000_0000_0000_0000u64 ==> gbi == gb) by (bit_vector) requires gbi == gb as i64;
        let first_inode_bitmap: i64 = first_block_bitmap + gbi;
        let desc = Ext4GroupDesc {
            bg_block_bitmap_lo: (first_block_bitmap & 0xffffffff) as u32,
            bg_inode_bitmap_lo: (first_inode_bitmap & 0xffffffff) as u32,
            bg_inode_table_lo: 0,
            bg_free_blocks_count_lo: (current_group_free_blocks & 0xffffff) as u16,
            bg_free_inodes_count_lo: (current_group_free_inodes & 0xffffff) as u16,
            bg_used_dirs_count_lo: 0,
            bg_flags: 0,
            bg_exclude_bitmap_lo: 0,
            bg_block_bitmap_csum_lo: 0,
            bg_inode_bitmap_csum_lo: 0,
            bg_itable_unused_lo: 0,
            bg_checksum: 0,
            bg_block_bitmap_hi: ((first_block_bitmap >> 32) & 0xffffffff) as i32,
            bg_inode_bitmap_hi: ((first_inode_bitmap >> 32) & 0xffffffff) as i32,
            bg_inode_table_hi: 0,
            bg_free_blocks_count_hi: ((current_group_free_blocks >> 32) & 0xffffffff) as i16,
            bg_free_inodes_count_hi: ((current_group_free_inodes >> 32) & 0xffffffff) as i16,
            bg_used_dirs_count_hi: 0,
            bg_itable_unused_hi: 0,
            bg_exclude_bitmap_hi: 0,
            bg_block_bitmap_csum_hi: 0,
            bg_inode_bitmap_csum_hi: 0,
            bg_reserved: 0,
        };
        assert(desc == spec_flex_group_desc(*sb, group_no as int));
        buffer.set(slot, desc);
        if (group_no % 64) == 63 {
            let ghost b = group_no / 64;
            assert forall|j: int| 0 <= j < 64 implies buffer@[j] == spec_flex_group_desc(*sb, 64 * b + j) by {
                assert(group_no - group_no % 64 == 64 * b);
            }
            assert(buffer@ =~= spec_flex_batch_descs(*sb, b));
            let mut i: usize = 0;
            while i < backups.len()
                invariant
                    0 <= i <= backups@.len(),
                    backups@ == blocks,
                    buffer@ == spec_flex_batch_descs(*sb, b),
                    b == group_no / 64,
                    0 <= b,
                    gb == spec_group_bach(sb.s_log_block_size),
                    writes@.len() == b * blocks.len() + i,
                    forall|bb: int, j: int| 0 <= bb < b && 0 <= j < blocks.len() ==> {
                        let w = #[trigger] writes@[bb * blocks.len() + j];
                        &&& w.block == blocks[j]
                        &&& w.count == gb
                        &&& w.descs@ == spec_flex_batch_descs(*sb, bb)
                    },
                    forall|j: int| 0 <= j < i ==> {
                        let w = #[trigger] writes@[b * blocks.len() + j];
                        &&& w.block == blocks[j]
                        &&& w.count == gb
                        &&& w.descs@ == spec_flex_batch_descs(*sb, b)
                    },
                decreases backups.len() - i,
            {
                let mut copy: Vec<Ext4GroupDesc> = Vec::new();
                let mut t: usize = 0;
                while t < 64
                    invariant
                        t <= 64,
                        buffer@.len() == 64,
                        copy@ == buffer@.subrange(0, t as int),
                    decreases 64 - t,
                {
                    copy.push(buffer[t]);
                    t += 1;
                }
                assert(copy@ =~= buffer@);
                let ghost before = writes@;
                assert(0 <= b * blocks.len()) by (nonlinear_arith) requires 0 <= b;
                writes.push(GroupDescWrite { block: backups[i], count: gb, descs: copy });
                proof {
                    assert forall|bb: int, j: int| 0 <= bb < b && 0 <= j < blocks.len() implies
                        #[trigger] writes@[bb * blocks.len() + j] == before[bb * blocks.len() + j] by {
                        lemma_batch_index(bb, j, b, blocks.len() as int);
                    }
                    assert forall|j: int| 0 <= j < i implies
                        #[trigger] writes@[b * blocks.len() + j] == before[b * blocks.len() + j] by {
                    }
                    assert(writes@[b * blocks.len() + i] == writes@[writes@.len() - 1]);
                }
                i += 1;
            }
        }
        proof {
            let q = group_no / 64;
            if group_no % 64 == 63 {
                assert((group_no + 1) / 64 == q + 1);
                vstd::arithmetic::mul::lemma_mul_is_distributive_add_other_way(blocks.len() as int, q as int, 1);
            } else {
                assert((group_no + 1) / 64 == q);
            }
        }
        group_no += 1;
    }
    writes
}

/// The ext4 superblock, field by field.
pub struct Ext4SuperBlock {
    pub s_inodes_count: u32,
    pub s_blocks_count_lo: u32,
    pub s_r_blocks_count_lo: u32,
    pub s_free_blocks_count_lo: u32,
    pub s_free_inodes_count: i32,
    pub s_first_data_block: i32,
    pub s_log_block_size: i32,
    pub s_log_cluster_size: i32,
    pub s_blocks_per_group: i32,
    pub s_clusters_per_group: i32,
    pub s_inodes_per_group: i32,
    pub s_mtime: u32,
    pub s_wtime: u32,
    pub s_mnt_count: i16,
    pub s_max_mnt_count: i16,
    pub s_magic: i16,
    pub s_state: i16,
    pub s_errors: i16,
    pub s_minor_rev_level: i16,
    pub s_lastcheck: u32,
    pub s_checkinterval: i32,
    pub s_creator_os: i32,
    pub s_rev_level: i32,
    pub s_def_resuid: i16,
    pub s_def_resgid: i16,
    pub s_first_ino: i32,
    pub s_inode_size: i16,
    pub s_block_group_nr: i16,
    pub s_feature_compat: i32,
    pub s_feature_incompat: i32,
    pub s_feature_ro_compat: i32,
    pub s_uuid: [u8; 16],
    pub s_volume_name: [u8; 16],
    pub s_last_mounted: [u8; 64],
    pub s_algorithm_usage_bitmap: i32,
    pub s_prealloc_blocks: u8,
    pub s_prealloc_dir_blocks: u8,
    pub s_reserved_gdt_blocks: i16,
    pub s_journal_uuid: [u8; 16],
    pub s_journal_inum: i32,
    pub s_journal_dev: i32,
    pub s_last_orphan: i32,
    pub s_hash_seed: [i32; 4],
    pub s_def_hash_version: u8,
    pub s_jnl_backup_type: u8,
    pub s_desc_size: i16,
    pub s_default_mount_opts: i32,
    pub s_first_meta_bg: i32,
    pub s_mkfs_time: u32,
    pub s_jnl_blocks: [i32; 17],
    pub s_blocks_count_hi: u32,
    pub s_r_blocks_count_hi: u32,
    pub s_free_blocks_count_hi: u32,
    pub s_min_extra_isize: i16,
    pub s_want_extra_isize: i16,
    pub s_flags: i32,
    pub s_raid_stride: i16,
    pub s_mmp_update_interval: i16,
    pub s_mmp_block: i64,
    pub s_raid_stripe_width: i32,
    pub s_log_groups_per_flex: u8,
    pub s_checksum_type: u8,
    pub s_encryption_level: u8,
    pub s_reserved_pad: u8,
    pub s_kbytes_written: i64,
    pub s_snapshot_inum: i32,
    pub s_snapshot_id: i32,
    pub s_snapshot_r_blocks_count: i64,
    pub s_snapshot_list: i32,
    pub s_error_count: i32,
    pub s_first_error_time: i32,
    pub s_first_error_ino: i32,
    pub s_first_error_block: i16,
    pub s_first_error_func: [u8; 32],
    pub s_first_error_line: i32,
    pub s_last_error_time: i32,
    pub s_last_error_ino: i32,
    pub s_last_error_line: i32,
    pub s_last_error_block: i64,
    pub s_last_error_func: [u8; 32],
    pub s_mount_opts: [u8; 64],
    pub s_usr_quota_inum: i32,
    pub s_grp_quota_inum: i32,
    pub s_overhead_clusters: i32,
    pub s_backup_bgs: [i32; 2],
    pub s_encrypt_algos: [u8; 4],
    pub s_encrypt_pw_salt: [u8; 16],
    pub s_lpf_ino: i32,
    pub s_prj_quota_inum: i32,
    pub s_checksum_seed: i32,
    pub s_wtime_hi: u8,
    pub s_mtime_hi: u8,
    pub s_mkfs_time_hi: u8,
    pub s_lastcheck_hi: u8,
    pub s_first_error_time_hi: u8,
    pub s_last_error_time_hi: u8,
    pub s_first_error_errcode: u8,
    pub s_last_error_errcode: u8,
    pub s_encoding: i16,
    pub s_encoding_flags: i16,
    pub s_orphan_file_inum: i32,
    pub s_reserved: [i32; 94],
    pub s_checksum: i32,
}

/// Every field of `sb` whose name is not listed in `set` is zero.
pub open spec fn sb_all_zero_except(sb: Ext4SuperBlock, set: Seq<int>) -> bool {
    &&& (set.contains(0) || sb.s_inodes_count == 0)
    &&& (set.contains(1) || sb.s_blocks_count_lo == 0)
    &&& (set.contains(2) || sb.s_r_blocks_count_lo == 0)
    &&& (set.contains(3) || sb.s_free_blocks_count_lo == 0)
    &&& (set.contains(4) || sb.s_free_inodes_count == 0)
    &&& (set.contains(5) || sb.s_first_data_block == 0)
    &&& (set.contains(6) || sb.s_log_block_size == 0)
    &&& (set.contains(7) || sb.s_log_cluster_size == 0)
    &&& (set.contains(8) || sb.s_blocks_per_group == 0)
    &&& (set.contains(9) || sb.s_clusters_per_group == 0)
    &&& (set.contains(10) || sb.s_inodes_per_group == 0)
    &&& (set.contains(11) || sb.s_mtime == 0)
    &&& (set.contains(12) || sb.s_wtime == 0)
    &&& (set.contains(13) || sb.s_mnt_count == 0)
    &&& (set.contains(14) || sb.s_max_mnt_count == 0)
    &&& (set.contains(15) || sb.s_magic == 0)
    &&& (set.contains(16) || sb.s_state == 0)
    &&& (set.contains(17) || sb.s_errors == 0)
    &&& (set.contains(18) || sb.s_minor_rev_level == 0)
    &&& (set.contains(19) || sb.s_lastcheck == 0)
    &&& (set.contains(20) || sb.s_checkinterval == 0)
    &&& (set.contains(21) || sb.s_creator_os == 0)
    &&& (set.contains(22) || sb.s_rev_level == 0)
    &&& (set.contains(23) || sb.s_def_resuid == 0)
    &&& (set.contains(24) || sb.s_def_resgid == 0)
    &&& (set.contains(25) || sb.s_first_ino == 0)
    &&& (set.contains(26) || sb.s_inode_size == 0)
    &&& (set.contains(27) || sb.s_block_group_nr == 0)
    &&& (set.contains(28) || sb.s_feature_compat == 0)
    &&& (set.contains(29) || sb.s_feature_incompat == 0)
    &&& (set.contains(30) || sb.s_feature_ro_compat == 0)
    &&& (set.contains(31) || (forall|i: int| 0 <= i < 16 ==> sb.s_uuid[i] == 0))
    &&& (set.contains(32) || (forall|i: int| 0 <= i < 16 ==> sb.s_volume_name[i] == 0))
    &&& (set.contains(33) || (forall|i: int| 0 <= i < 64 ==> sb.s_last_mounted[i] == 0))
    &&& (set.contains(34) || sb.s_algorithm_usage_bitmap == 0)
    &&& (set.contains(35) || sb.s_prealloc_blocks == 0)
    &&& (set.contains(36) || sb.s_prealloc_dir_blocks == 0)
    &&& (set.contains(37) || sb.s_reserved_gdt_blocks == 0)
    &&& (set.contains(38) || (forall|i: int| 0 <= i < 16 ==> sb.s_journal_uuid[i] == 0))
    &&& (set.contains(39) || sb.s_journal_inum == 0)
    &&& (set.contains(40) || sb.s_journal_dev == 0)
    &&& (set.contains(41) || sb.s_last_orphan == 0)
    &&& (set.contains(42) || (forall|i: int| 0 <= i < 4 ==> sb.s_hash_seed[i] == 0))
    &&& (set.contains(43) || sb.s_def_hash_version == 0)
    &&& (set.contains(44) || sb.s_jnl_backup_type == 0)
    &&& (set.contains(45) || sb.s_desc_size == 0)
    &&& (set.contains(46) || sb.s_default_mount_opts == 0)
    &&& (set.contains(47) || sb.s_first_meta_bg == 0)
    &&& (set.contains(48) || sb.s_mkfs_time == 0)
    &&& (set.contains(49) || (forall|i: int| 0 <= i < 17 ==> sb.s_jnl_blocks[i] == 0))
    &&& (set.contains(50) || sb.s_blocks_count_hi == 0)
    &&& (set.contains(51) || sb.s_r_blocks_count_hi == 0)
    &&& (set.contains(52) || sb.s_free_blocks_count_hi == 0)
    &&& (set.contains(53) || sb.s_min_extra_isize == 0)
    &&& (set.contains(54) || sb.s_want_extra_isize == 0)
    &&& (set.contains(55) || sb.s_flags == 0)
    &&& (set.contains(56) || sb.s_raid_stride == 0)
    &&& (set.contains(57) || sb.s_mmp_update_interval == 0)
    &&& (set.contains(58) || sb.s_mmp_block == 0)
    &&& (set.contains(59) || sb.s_raid_stripe_width == 0)
    &&& (set.contains(60) || sb.s_log_groups_per_flex == 0)
    &&& (set.contains(61) || sb.s_checksum_type == 0)
    &&& (set.contains(62) || sb.s_encryption_level == 0)
    &&& (set.contains(63) || sb.s_reserved_pad == 0)
    &&& (set.contains(64) || sb.s_kbytes_written == 0)
    &&& (set.contains(65) || sb.s_snapshot_inum == 0)
    &&& (set.contains(66) || sb.s_snapshot_id == 0)
    &&& (set.contains(67) || sb.s_snapshot_r_blocks_count == 0)
    &&& (set.contains(68) || sb.s_snapshot_list == 0)
    &&& (set.contains(69) || sb.s_error_count == 0)
    &&& (set.contains(70) || sb.s_first_error_time == 0)
    &&& (set.contains(71) || sb.s_first_error_ino == 0)
    &&& (set.contains(72) || sb.s_first_error_block == 0)
    &&& (set.contains(73) || (forall|i: int| 0 <= i < 32 ==> sb.s_first_error_func[i] == 0))
    &&& (set.contains(74) || sb.s_first_error_line == 0)
    &&& (set.contains(75) || sb.s_last_error_time == 0)
    &&& (set.contains(76) || sb.s_last_error_ino == 0)
    &&& (set.contains(77) || sb.s_last_error_line == 0)
    &&& (set.contains(78) || sb.s_last_error_block == 0)
    &&& (set.contains(79) || (forall|i: int| 0 <= i < 32 ==> sb.s_last_error_func[i] == 0))
    &&& (set.contains(80) || (forall|i: int| 0 <= i < 64 ==> sb.s_mount_opts[i] == 0))
    &&& (set.contains(81) || sb.s_usr_quota_inum == 0)
    &&& (set.contains(82) || sb.s_grp_quota_inum == 0)
    &&& (set.contains(83) || sb.s_overhead_clusters == 0)
    &&& (set.contains(84) || (forall|i: int| 0 <= i < 2 ==> sb.s_backup_bgs[i] == 0))
    &&& (set.contains(85) || (forall|i: int| 0 <= i < 4 ==> sb.s_encrypt_algos[i] == 0))
    &&& (set.contains(86) || (forall|i: int| 0 <= i < 16 ==> sb.s_encrypt_pw_salt[i] == 0))
    &&& (set.contains(87) || sb.s_lpf_ino == 0)
    &&& (set.contains(88) || sb.s_prj_quota_inum == 0)
    &&& (set.contains(89) || sb.s_checksum_seed == 0)
    &&& (set.contains(90) || sb.s_wtime_hi == 0)
    &&& (set.contains(91) || sb.s_mtime_hi == 0)
    &&& (set.contains(92) || sb.s_mkfs_time_hi == 0)
    &&& (set.contains(93) || sb.s_lastcheck_hi == 0)
    &&& (set.contains(94) || sb.s_first_error_time_hi == 0)
    &&& (set.contains(95) || sb.s_last_error_time_hi == 0)
    &&& (set.contains(96) || sb.s_first_error_errcode == 0)
    &&& (set.contains(97) || sb.s_last_error_errcode == 0)
    &&& (set.contains(98) || sb.s_encoding == 0)
    &&& (set.contains(99) || sb.s_encoding_flags == 0)
    &&& (set.contains(100) || sb.s_orphan_file_inum == 0)
    &&& (set.contains(101) || (forall|i: int| 0 <= i < 94 ==> sb.s_reserved[i] == 0))
    &&& (set.contains(102) || sb.s_checksum == 0)
}

impl Ext4SuperBlock {
    /// A superblock with every field zero.
    pub fn zeroed() -> (sb: Ext4SuperBlock)
        ensures
            sb_all_zero_except(sb, Seq::empty()),
    {
        let sb = Ext4SuperBlock {
            s_inodes_count: 0u32,
            s_blocks_count_lo: 0u32,
            s_r_blocks_count_lo: 0u32,
            s_free_blocks_count_lo: 0u32,
            s_free_inodes_count: 0i32,
            s_first_data_block: 0i32,
            s_log_block_size: 0i32,
            s_log_cluster_size: 0i32,
            s_blocks_per_group: 0i32,
            s_clusters_per_group: 0i32,
            s_inodes_per_group: 0i32,
            s_mtime: 0u32,
            s_wtime: 0u32,
            s_mnt_count: 0i16,
            s_max_mnt_count: 0i16,
            s_magic: 0i16,
            s_state: 0i16,
            s_errors: 0i16,
            s_minor_rev_level: 0i16,
            s_lastcheck: 0u32,
            s_checkinterval: 0i32,
            s_creator_os: 0i32,
            s_rev_level: 0i32,
            s_def_resuid: 0i16,
            s_def_resgid: 0i16,
            s_first_ino: 0i32,
            s_inode_size: 0i16,
            s_block_group_nr: 0i16,
            s_feature_compat: 0i32,
            s_feature_incompat: 0i32,
            s_feature_ro_compat: 0i32,
            s_uuid: [0u8; 16],
            s_volume_name: [0u8; 16],
            s_last_mounted: [0u8; 64],
            s_algorithm_usage_bitmap: 0i32,
            s_prealloc_blocks: 0u8,
            s_prealloc_dir_blocks: 0u8,
            s_reserved_gdt_blocks: 0i16,
            s_journal_uuid: [0u8; 16],
            s_journal_inum: 0i32,
            s_journal_dev: 0i32,
            s_last_orphan: 0i32,
            s_hash_seed: [0i32; 4],
            s_def_hash_version: 0u8,
            s_jnl_backup_type: 0u8,
            s_desc_size: 0i16,
            s_default_mount_opts: 0i32,
            s_first_meta_bg: 0i32,
            s_mkfs_time: 0u32,
            s_jnl_blocks: [0i32; 17],
            s_blocks_count_hi: 0u32,
            s_r_blocks_count_hi: 0u32,
            s_free_blocks_count_hi: 0u32,
            s_min_extra_isize: 0i16,
            s_want_extra_isize: 0i16,
            s_flags: 0i32,
            s_raid_stride: 0i16,
            s_mmp_update_interval: 0i16,
            s_mmp_block: 0i64,
            s_raid_stripe_width: 0i32,
            s_log_groups_per_flex: 0u8,
            s_checksum_type: 0u8,
            s_encryption_level: 0u8,
            s_reserved_pad: 0u8,
            s_kbytes_written: 0i64,
            s_snapshot_inum: 0i32,
            s_snapshot_id: 0i32,
            s_snapshot_r_blocks_count: 0i64,
            s_snapshot_list: 0i32,
            s_error_count: 0i32,
            s_first_error_time: 0i32,
            s_first_error_ino: 0i32,
            s_first_error_block: 0i16,
            s_first_error_func: [0u8; 32],
            s_first_error_line: 0i32,
            s_last_error_time: 0i32,
            s_last_error_ino: 0i32,
            s_last_error_line: 0i32,
            s_last_error_block: 0i64,
            s_last_error_func: [0u8; 32],
            s_mount_opts: [0u8; 64],
            s_usr_quota_inum: 0i32,
            s_grp_quota_inum: 0i32,
            s_overhead_clusters: 0i32,
            s_backup_bgs: [0i32; 2],
            s_encrypt_algos: [0u8; 4],
            s_encrypt_pw_salt: [0u8; 16],
            s_lpf_ino: 0i32,
            s_prj_quota_inum: 0i32,
            s_checksum_seed: 0i32,
            s_wtime_hi: 0u8,
            s_mtime_hi: 0u8,
            s_mkfs_time_hi: 0u8,
            s_lastcheck_hi: 0u8,
            s_first_error_time_hi: 0u8,
            s_last_error_time_hi: 0u8,
            s_first_error_errcode: 0u8,
            s_last_error_errcode: 0u8,
            s_encoding: 0i16,
            s_encoding_flags: 0i16,
            s_orphan_file_inum: 0i32,
            s_reserved: [0i32; 94],
            s_checksum: 0i32,
        };
        sb
    }
}


/// The set of superblock fields that making a file system sets.
pub open spec fn mkfs_set_fields() -> Seq<int> {
    seq![0int, 1int, 2int, 3int, 4int, 6int, 7int, 8int, 10int, 11int, 12int, 14int, 15int, 16int, 17int, 18int, 19int, 22int, 25int, 26int, 28int, 29int, 30int, 31int, 37int, 39int, 43int, 44int, 45int, 46int, 48int, 50int, 52int, 53int, 54int, 55int, 60int, 61int, 90int, 91int, 93int]
}

/// The plan of a new ext4 file system: the superblock (written from block 0
/// in a buffer of `super_block_write_count` bytes, at byte 1024 of it) and
/// the writes of the group descriptor table.
pub struct MkfsPlan {
    pub super_block: Ext4SuperBlock,
    pub group_desc_writes: Vec<GroupDescWrite>,
    pub super_block_write_count: usize,
}

/// Makes an ext4 file system on a device of `sector_count` sectors (as its
/// ioctl reports them, divided by 4096 to count blocks), with `icount`
/// inodes (0: one per block, rounded down to a multiple of 8), stamped with
/// the time `tick`.
pub fn devmkfs(sector_count: i64, icount: usize, tick: u64) -> (plan: MkfsPlan)
    ensures
        ({
            let total_block: i64 = div_toward_zero(sector_count as int, 4096) as i64;
            let icount = if icount == 0 { ((total_block / 8) * 8) as usize } else { icount };
            &&& plan.super_block.s_inodes_count == (icount as u32)
            &&& plan.super_block.s_blocks_count_lo == ((total_block & 0xffffffffi64) as u32)
            &&& plan.super_block.s_blocks_count_hi == ((total_block >> 32i64) as u32)
            &&& plan.super_block.s_r_blocks_count_lo == ((total_block >> 32i64) as u32)
            &&& plan.super_block.s_free_blocks_count_lo == 0u32
            &&& plan.super_block.s_free_blocks_count_hi == 0u32
            &&& plan.super_block.s_free_inodes_count == (icount as i32)
            &&& plan.super_block.s_log_block_size == 2i32
            &&& plan.super_block.s_log_cluster_size == 2i32
            &&& plan.super_block.s_blocks_per_group == 16384i32
            &&& plan.super_block.s_inodes_per_group == (if icount > 16384 { 16384i32 } else { icount as i32 })
            &&& plan.super_block.s_mtime == ((tick & 0xffffffffu64) as u32)
            &&& plan.super_block.s_mtime_hi == (((tick >> 32u64) & 0xffu64) as u8)
            &&& plan.super_block.s_wtime == ((tick & 0xffffffffu64) as u32)
            &&& plan.super_block.s_wtime_hi == (((tick >> 32u64) & 0xffu64) as u8)
            &&& plan.super_block.s_max_mnt_count == -1i16
            &&& plan.super_block.s_magic == -4269i16
            &&& plan.super_block.s_state == 1i16
            &&& plan.super_block.s_errors == 1i16
            &&& plan.super_block.s_minor_rev_level == 0i16
            &&& plan.super_block.s_lastcheck == ((tick & 0xffffffffu64) as u32)
            &&& plan.super_block.s_lastcheck_hi == (((tick >> 32u64) & 0xffu64) as u8)
            &&& plan.super_block.s_rev_level == 1i32
            &&& plan.super_block.s_first_ino == 11i32
            &&& plan.super_block.s_inode_size == 256i16
            &&& plan.super_block.s_feature_compat == 60i32
            &&& plan.super_block.s_feature_incompat == 706i32
            &&& plan.super_block.s_feature_ro_compat == 1131i32
            &&& plan.super_block.s_reserved_gdt_blocks == 3i16
            &&& plan.super_block.s_journal_inum == 8i32
            &&& plan.super_block.s_def_hash_version == 0u8
            &&& plan.super_block.s_jnl_backup_type == 0u8
            &&& plan.super_block.s_desc_size == 64i16
            &&& plan.super_block.s_default_mount_opts == 12i32
            &&& plan.super_block.s_mkfs_time == (tick as u32)
            &&& plan.super_block.s_min_extra_isize == 32i16
            &&& plan.super_block.s_want_extra_isize == 32i16
            &&& plan.super_block.s_flags == 1i32
            &&& plan.super_block.s_log_groups_per_flex == 4u8
            &&& plan.super_block.s_checksum_type == 1u8
            &&& forall|i: int| 0 <= i < 16 ==> plan.super_block.s_uuid[i] == 0
            &&& sb_all_zero_except(plan.super_block, mkfs_set_fields())
            &&& plan.super_block_write_count == 2048
            &&& flex_group_init_ok(plan.super_block)
            &&& ext4_flax_group_init_result(plan.super_block, plan.group_desc_writes@)
        }),
{
    let total_block: i64 = sector_count / 4096;
    assert(total_block == div_toward_zero(sector_count as int, 4096));
    let blocks_count = total_block;
    let mut icount = icount;
    if icount == 0 {
        // the block count divided by 8, rounded down
        let q: i64 = if blocks_count < 0 && blocks_count % 8 != 0 { blocks_count / 8 - 1 } else { blocks_count / 8 };
        assert(q == blocks_count / 8);
        icount = (q * 8) as usize;
    }
    let mut sb = Ext4SuperBlock::zeroed();
    sb.s_inodes_count = icount as u32;
    sb.s_blocks_count_lo = (total_block & 0xffffffff) as u32;
    sb.s_blocks_count_hi = (total_block >> 32) as u32;
    sb.s_r_blocks_count_lo = (total_block >> 32) as u32;
    sb.s_free_blocks_count_lo = 0;
    sb.s_free_blocks_count_hi = 0;
    sb.s_free_inodes_count = icount as i32;
    sb.s_log_block_size = 2;
    sb.s_log_cluster_size = 2;
    sb.s_blocks_per_group = 16384;
    sb.s_mtime = (tick & 0xffffffff) as u32;
    sb.s_mtime_hi = ((tick >> 32) & 0xff) as u8;
    sb.s_wtime = (tick & 0xffffffff) as u32;
    sb.s_wtime_hi = ((tick >> 32) & 0xff) as u8;
    sb.s_max_mnt_count = -1;
    sb.s_magic = -4269;
    sb.s_state = 1;
    sb.s_errors = 1;
    sb.s_minor_rev_level = 0;
    sb.s_lastcheck = (tick & 0xffffffff) as u32;
    sb.s_lastcheck_hi = ((tick >> 32) & 0xff) as u8;
    sb.s_rev_level = 1;
    sb.s_first_ino = 11;
    sb.s_inode_size = 256;
    sb.s_feature_compat = 60;
    sb.s_feature_incompat = 706;
    sb.s_feature_ro_compat = 1131;
    sb.s_reserved_gdt_blocks = 3;
    sb.s_journal_inum = 8;
    sb.s_def_hash_version = DEF_HASH_VERSION_HALF_MD4;
    sb.s_jnl_backup_type = 0;
    sb.s_desc_size = 64;
    sb.s_default_mount_opts = 12;
    sb.s_mkfs_time = tick as u32;
    sb.s_min_extra_isize = 32;
    sb.s_want_extra_isize = 32;
    sb.s_flags = 1;
    sb.s_log_groups_per_flex = 4;
    sb.s_checksum_type = 1;
    let ipg: i32 = if icount > 16384 { 16384 } else { icount as i32 };
    sb.s_inodes_per_group = ipg;
    sb.s_uuid = [0u8; 16];
    assert(sb_all_zero_except(sb, mkfs_set_fields()));
    proof {
        vstd::arithmetic::power2::lemma2_to64();
    }
    assert(-0x8_0000_0000_0000 <= total_block < 0x8_0000_0000_0000);
    let hi: u32 = (total_block >> 32i64) as u32;
    let lo: u32 = (total_block & 0xffffffffi64) as u32;
    assert((0 <= total_block ==> (hi as u64) * 0x1_0000_0000u64 + (lo as u64) == total_block as u64 && hi < 0x8_0000u32)
        && (total_block < 0 ==> hi >= 0x8000_0000u32
            && (hi as int) * 0x1_0000_0000 + (lo as int) - 0x1_0000_0000_0000_0000 == total_block as int)) by (bit_vector)
        requires -0x8_0000_0000_0000i64 <= total_block < 0x8_0000_0000_0000i64, hi == (total_block >> 32i64) as u32,
            lo == (total_block & 0xffffffffi64) as u32;
    assert(sb_blocks_count(sb) == total_block);
    assert(spec_flex_batch(4) == 16);
    assert(spec_group_bach(2) == 8);
    let ghost gn = sb_group_number(sb);
    assert(gn <= 0x10_0000_0000);
    proof {
        if gn >= 0 {
            assert(gn * 32768 * 8 <= 0x10_0000_0000int * 32768 * 8) by (nonlinear_arith) requires 0 <= gn <= 0x10_0000_0000;
        }
    }
    let writes = ext4_flax_group_init(&sb);
    MkfsPlan { super_block: sb, group_desc_writes: writes, super_block_write_count: 512 * 4 }
}


/// One 12-byte entry of an extent tree node, kept as the three words it
/// occupies; it reads as a leaf or as an index entry depending on the
/// node's depth.
#[derive(Clone, Copy)]
pub struct Ext4ExtentDescTreeNode {
    pub raw: [i32; 3],
}

pub open spec fn spec_leaf_of(raw: [i32; 3]) -> Ext4Extent {
    Ext4Extent {
        ee_block: raw[0],
        ee_len: raw[1] as i16,
        ee_start_hi: (raw[1] >> 16i32) as i16,
        ee_start_lo: raw[2],
    }
}

pub open spec fn spec_index_of(raw: [i32; 3]) -> Ext4ExtentIdx {
    Ext4ExtentIdx {
        ei_block: raw[0],
        ei_leaf_lo: raw[1],
        ei_leaf_hi: raw[2] as i16,
        ei_unused: (raw[2] >> 16i32) as i16,
    }
}

pub open spec fn spec_header_of(w0: i32, w1: i32, w2: i32) -> Ext4ExtentHeader {
    Ext4ExtentHeader {
        eh_magic: w0 as i16,
        eh_entries: (w0 >> 16i32) as i16,
        eh_max: w1 as i16,
        eh_depth: (w1 >> 16i32) as i16,
        eh_generation: w2,
    }
}

impl Ext4ExtentDescTreeNode {
    /// The entry read as a leaf.
    pub fn leaf_node(&self) -> (e: Ext4Extent)
        ensures e == spec_leaf_of(self.raw),
    {
        Ext4Extent {
            ee_block: self.raw[0],
            ee_len: self.raw[1] as i16,
            ee_start_hi: (self.raw[1] >> 16) as i16,
            ee_start_lo: self.raw[2],
        }
    }

    /// The entry read as an index entry.
    pub fn nonleaf(&self) -> (e: Ext4ExtentIdx)
        ensures e == spec_index_of(self.raw),
    {
        Ext4ExtentIdx {
            ei_block: self.raw[0],
            ei_leaf_lo: self.raw[1],
            ei_leaf_hi: self.raw[2] as i16,
            ei_unused: (self.raw[2] >> 16) as i16,
        }
    }
}

/// The root of an inode's extent tree, stored in its `i_block` words.
#[derive(Clone, Copy)]
pub struct Ext4InodeExtentDesc {
    pub head: Ext4ExtentHeader,
    pub node: [Ext4ExtentDescTreeNode; 4],
}

impl Ext4InodeExtentDesc {
    /// Reads the extent tree root from the fifteen `i_block` words of an
    /// inode: three words of header, then four entries of three words.
    pub fn from_i_block(i_block: &[i32; 15]) -> (d: Ext4InodeExtentDesc)
        ensures
            d.head == spec_header_of(i_block[0], i_block[1], i_block[2]),
            forall|k: int| 0 <= k < 4 ==> #[trigger] d.node[k].raw@ == i_block@.subrange(3 + 3 * k, 6 + 3 * k),
    {
        let head = Ext4ExtentHeader {
            eh_magic: i_block[0] as i16,
            eh_entries: (i_block[0] >> 16) as i16,
            eh_max: i_block[1] as i16,
            eh_depth: (i_block[1] >> 16) as i16,
            eh_generation: i_block[2],
        };
        let n0 = Ext4ExtentDescTreeNode { raw: [i_block[3], i_block[4], i_block[5]] };
        let n1 = Ext4ExtentDescTreeNode { raw: [i_block[6], i_block[7], i_block[8]] };
        let n2 = Ext4ExtentDescTreeNode { raw: [i_block[9], i_block[10], i_block[11]] };
        let n3 = Ext4ExtentDescTreeNode { raw: [i_block[12], i_block[13], i_block[14]] };
        let d = Ext4InodeExtentDesc { head, node: [n0, n1, n2, n3] };
        assert(d.node[0].raw@ =~= i_block@.subrange(3, 6));
        assert(d.node[1].raw@ =~= i_block@.subrange(6, 9));
        assert(d.node[2].raw@ =~= i_block@.subrange(9, 12));
        assert(d.node[3].raw@ =~= i_block@.subrange(12, 15));
        d
    }
}

/// An extent tree node stored in a block of its own: a header, 340 entries
/// and a checksum.
pub struct Ext4ExtentBlock {
    pub head: Ext4ExtentHeader,
    pub node: Vec<Ext4ExtentDescTreeNode>,
    pub tail: Ext4ExtentTail,
}

impl Ext4ExtentBlock {
    /// Reads an extent block from the 1024 words of a 4096-byte block.
    pub fn from_words(words: &[i32]) -> (b: Ext4ExtentBlock)
        requires
            words.len() == 1024,
        ensures
            b.head == spec_header_of(words[0], words[1], words[2]),
            b.node@.len() == 340,
            forall|k: int| 0 <= k < 340 ==> #[trigger] b.node@[k].raw@ == words@.subrange(3 + 3 * k, 6 + 3 * k),
            b.tail.et_check_sum == words[1023] as u32,
    {
        let head = Ext4ExtentHeader {
            eh_magic: words[0] as i16,
            eh_entries: (words[0] >> 16) as i16,
            eh_max: words[1] as i16,
            eh_depth: (words[1] >> 16) as i16,
            eh_generation: words[2],
        };
        let mut node: Vec<Ext4ExtentDescTreeNode> = Vec::new();
        let mut k: usize = 0;
        while k < 340
            invariant
                k <= 340,
                words.len() == 1024,
                node@.len() == k,
                forall|j: int| 0 <= j < k ==> #[trigger] node@[j].raw@ == words@.subrange(3 + 3 * j, 6 + 3 * j),
            decreases 340 - k,
        {
            let e = Ext4ExtentDescTreeNode { raw: [words[3 + 3 * k], words[4 + 3 * k], words[5 + 3 * k]] };
            assert(e.raw@ =~= words@.subrange(3 + 3 * k, 6 + 3 * k));
            node.push(e);
            k += 1;
        }
        Ext4ExtentBlock { head, node, tail: Ext4ExtentTail { et_check_sum: words[1023] as u32 } }
    }
}

/// The magic number of an extent tree header, read as unsigned.
pub const EXT4_EXT_MAGIC: u16 = 0xf30a;

/// One step of mapping a logical block through an extent tree.
pub enum ExtentStep {
    /// The logical block is stored in this physical block.
    Found(Idx),
    /// The walk goes on with the extent block stored in `block`, looking at
    /// its entry `var`; `inner` tells whether the walk is in its descent.
    ReadBlock { block: Idx, var: usize, inner: bool },
    /// The root header does not carry the extent magic number (the lookup
    /// asserts it).
    BadMagic,
    /// No inline extent covers the logical block (the lookup panics).
    OutOfRange,
    /// The root index has no child whose range starts after the logical
    /// block, so no extent block is read and the lookup goes on with none
    /// (it dereferences a null block).
    NoChild,
    /// An entry index goes past the four inline entries (the lookup panics).
    IndexOutOfBounds,
    /// A block number sum overflows 64 bits (the lookup panics).
    Overflow,
    /// The walk comes back to a state it was in and never ends.
    Hang,
}

/// The first block of an extent and the one after its last, as the lookup
/// computes them (the fields widened with their sign); none when the sum
/// overflows.
pub open spec fn leaf_end(e: Ext4Extent) -> Option<u64> {
    let s = (e.ee_block as u64) as int + (e.ee_len as u64) as int;
    if s > u64::MAX { None } else { Some(s as u64) }
}

/// The physical block where an extent starts; none when the sum overflows.
pub open spec fn leaf_start(e: Ext4Extent) -> Option<u64> {
    let s = (e.ee_start_lo as u64) as int + (((e.ee_start_hi as u64) << 32u64) as int);
    if s > u64::MAX { None } else { Some(s as u64) }
}

/// The block an index entry points to; none when the sum overflows.
pub open spec fn index_child(e: Ext4ExtentIdx) -> Option<u64> {
    let s = (((e.ei_leaf_hi as u64) << 32u64) as int) + (e.ei_leaf_lo as u64) as int;
    if s > u64::MAX { None } else { Some(s as u64) }
}

fn leaf_start_of(e: &Ext4Extent) -> (r: Option<u64>)
    ensures r == leaf_start(*e),
{
    (e.ee_start_lo as u64).checked_add((e.ee_start_hi as u64) << 32)
}

fn index_child_of(e: &Ext4ExtentIdx) -> (r: Option<u64>)
    ensures r == index_child(*e),
{
    ((e.ei_leaf_hi as u64) << 32).checked_add(e.ei_leaf_lo as u64)
}

/// What a depth-0 root gives for the logical block `idx`: the start of the
/// first of its four extents that covers `idx` (an extent whose first block
/// is above `idx` is skipped without adding its length).
pub open spec fn spec_leaf_scan(node: Seq<Ext4ExtentDescTreeNode>, idx: u64, from: int) -> ExtentStep
    decreases 4 - from,
{
    if from >= 4 || from < 0 {
        ExtentStep::OutOfRange
    } else {
        let e = spec_leaf_of(node[from].raw);
        if (e.ee_block as u64) <= idx {
            match leaf_end(e) {
                None => ExtentStep::Overflow,
                Some(end) => if end > idx {
                    match leaf_start(e) {
                        None => ExtentStep::Overflow,
                        Some(s) => ExtentStep::Found(s),
                    }
                } else {
                    spec_leaf_scan(node, idx, from + 1)
                },
            }
        } else {
            spec_leaf_scan(node, idx, from + 1)
        }
    }
}

/// What an indexed root gives for `idx`: the child of the first entry
/// `var` (below `entries - 1`) whose next entry starts after `idx`.
pub open spec fn spec_index_scan(node: Seq<Ext4ExtentDescTreeNode>, limit: int, idx: u64, var: int) -> ExtentStep
    decreases limit - var,
{
    if var >= limit || var < 0 {
        ExtentStep::NoChild
    } else if var + 1 >= 4 {
        ExtentStep::IndexOutOfBounds
    } else if (spec_index_of(node[var + 1].raw).ei_block as u64) > idx {
        match index_child(spec_index_of(node[var].raw)) {
            None => ExtentStep::Overflow,
            Some(b) => ExtentStep::ReadBlock { block: b, var: var as usize, inner: false },
        }
    } else {
        spec_index_scan(node, limit, idx, var + 1)
    }
}

/// The first step of mapping logical block `idx` through the extent tree
/// rooted in an inode.
pub open spec fn spec_extent_root_step(root: Ext4InodeExtentDesc, idx: u64) -> ExtentStep {
    if root.head.eh_magic as u16 != EXT4_EXT_MAGIC {
        ExtentStep::BadMagic
    } else if root.head.eh_depth == 0 {
        spec_leaf_scan(root.node@, idx, 0)
    } else if root.head.eh_entries == i16::MIN {
        ExtentStep::Overflow
    } else {
        spec_index_scan(root.node@, (((root.head.eh_entries - 1) as i16) as usize) as int, idx, 0)
    }
}

/// Maps logical block `idx` through the root of an inode's extent tree:
/// the first step of the lookup.
pub fn ext4_extent_root_step(root: &Ext4InodeExtentDesc, idx: Idx) -> (step: ExtentStep)
    ensures
        step == spec_extent_root_step(*root, idx),
{
    if root.head.eh_magic as u16 != EXT4_EXT_MAGIC {
        return ExtentStep::BadMagic;
    }
    if root.head.eh_depth == 0 {
        let mut var: usize = 0;
        while var < 4
            invariant
                var <= 4,
                root.head.eh_magic as u16 == EXT4_EXT_MAGIC,
                root.head.eh_depth == 0,
                spec_leaf_scan(root.node@, idx, 0) == spec_leaf_scan(root.node@, idx, var as int),
            decreases 4 - var,
        {
            let e = root.node[var].leaf_node();
            assert(spec_leaf_scan(root.node@, idx, var as int) == (if (e.ee_block as u64) <= idx {
                match leaf_end(e) {
                    None => ExtentStep::Overflow,
                    Some(end) => if end > idx {
                        match leaf_start(e) {
                            None => ExtentStep::Overflow,
                            Some(s) => ExtentStep::Found(s),
                        }
                    } else {
                        spec_leaf_scan(root.node@, idx, var + 1)
                    },
                }
            } else {
                spec_leaf_scan(root.node@, idx, var + 1)
            }));
            if e.ee_block as u64 <= idx {
                let sum = (e.ee_block as u64).checked_add(e.ee_len as u64);
                assert(sum == leaf_end(e));
                match sum {
                    None => { return ExtentStep::Overflow; }
                    Some(end) => {
                        if end > idx {
                            match leaf_start_of(&e) {
                                None => { return ExtentStep::Overflow; }
                                Some(s) => { return ExtentStep::Found(s); }
                            }
                        }
                    }
                }
            }
            var += 1;
        }
        return ExtentStep::OutOfRange;
    }
    if root.head.eh_entries == i16::MIN {
        return ExtentStep::Overflow;
    }
    let limit: usize = (root.head.eh_entries - 1) as usize;
    let mut var: usize = 0;
    while var < limit
        invariant
            limit == (((root.head.eh_entries - 1) as i16) as usize),
            root.head.eh_magic as u16 == EXT4_EXT_MAGIC,
            root.head.eh_depth != 0,
            root.head.eh_entries != i16::MIN,
            spec_index_scan(root.node@, limit as int, idx, 0) == spec_index_scan(root.node@, limit as int, idx, var as int),
        decreases limit - var,
    {
        assert(spec_index_scan(root.node@, limit as int, idx, var as int) == (if var + 1 >= 4 {
            ExtentStep::IndexOutOfBounds
        } else if (spec_index_of(root.node@[var + 1].raw).ei_block as u64) > idx {
            match index_child(spec_index_of(root.node@[var as int].raw)) {
                None => ExtentStep::Overflow,
                Some(b) => ExtentStep::ReadBlock { block: b, var: var, inner: false },
            }
        } else {
            spec_index_scan(root.node@, limit as int, idx, var + 1)
        }));
        if var + 1 >= 4 {
            return ExtentStep::IndexOutOfBounds;
        }
        let next = root.node[var + 1].nonleaf();
        if next.ei_block as u64 > idx {
            let cur = root.node[var].nonleaf();
            match index_child_of(&cur) {
                None => { return ExtentStep::Overflow; }
                Some(b) => { return ExtentStep::ReadBlock { block: b, var, inner: false }; }
            }
        }
        var += 1;
    }
    ExtentStep::NoChild
}

/// The step that an extent block read during the lookup gives.  In the
/// descent (`inner`) the walk reads the child of the block's first entry
/// while that entry starts below `idx`, whatever the block's depth; once it
/// does not, a block of nonzero depth is revisited forever.  At depth 0 the
/// entry `var` is checked: when it ends after `idx` its start is the
/// answer, otherwise the whole lookup starts again and so never ends.
pub open spec fn spec_extent_block_step(head: Ext4ExtentHeader, node: Seq<Ext4ExtentDescTreeNode>, idx: u64, var: int, inner: bool) -> ExtentStep {
    if inner && (spec_index_of(node[0].raw).ei_block as u64) < idx {
        match index_child(spec_index_of(node[0].raw)) {
            None => ExtentStep::Overflow,
            Some(b) => ExtentStep::ReadBlock { block: b, var: 0, inner: true },
        }
    } else if head.eh_depth != 0 {
        if inner {
            ExtentStep::Hang
        } else if (spec_index_of(node[0].raw).ei_block as u64) < idx {
            match index_child(spec_index_of(node[0].raw)) {
                None => ExtentStep::Overflow,
                Some(b) => ExtentStep::ReadBlock { block: b, var: 0, inner: true },
            }
        } else {
            ExtentStep::Hang
        }
    } else {
        let e = spec_leaf_of(node[var].raw);
        match leaf_end(e) {
            None => ExtentStep::Overflow,
            Some(end) => if end > idx {
                match leaf_start(e) {
                    None => ExtentStep::Overflow,
                    Some(s) => ExtentStep::Found(s),
                }
            } else {
                ExtentStep::Hang
            },
        }
    }
}

/// Goes on with the lookup in an extent block just read.
pub fn ext4_extent_block_step(block: &Ext4ExtentBlock, idx: Idx, var: usize, inner: bool) -> (step: ExtentStep)
    requires
        block.node@.len() == 340,
        var < 340,
    ensures
        step == spec_extent_block_step(block.head, block.node@, idx, var as int, inner),
{
    let first = block.node[0].nonleaf();
    let descend = (first.ei_block as u64) < idx;
    if (inner && descend) || (block.head.eh_depth != 0 && !inner && descend) {
        return match index_child_of(&first) {
            None => ExtentStep::Overflow,
            Some(b) => ExtentStep::ReadBlock { block: b, var: 0, inner: true },
        };
    }
    if block.head.eh_depth != 0 {
        return ExtentStep::Hang;
    }
    let e = block.node[var].leaf_node();
    match (e.ee_block as u64).checked_add(e.ee_len as u64) {
        None => ExtentStep::Overflow,
        Some(end) => {
            if end > idx {
                match leaf_start_of(&e) {
                    None => ExtentStep::Overflow,
                    Some(s) => ExtentStep::Found(s),
                }
            } else {
                ExtentStep::Hang
            }
        }
    }
}


/// The first of the loaded `blocks` from position `i` on that is stored at
/// `b`.
pub open spec fn loaded_block(blocks: Seq<(u64, Ext4ExtentBlock)>, b: u64, i: int) -> Option<Ext4ExtentBlock>
    decreases blocks.len() - i,
{
    if i < 0 || i >= blocks.len() {
        None
    } else if blocks[i].0 == b {
        Some(blocks[i].1)
    } else {
        loaded_block(blocks, b, i + 1)
    }
}

/// The lookup from `step` on, over the extent blocks already read
/// (`blocks`, by the block they are stored in), taking at most `fuel`
/// more block steps: a step that needs a block not loaded is the answer
/// (read it and look up again); a walk that needs more steps is `Hang`.
pub open spec fn extent_walk(step: ExtentStep, idx: u64, blocks: Seq<(u64, Ext4ExtentBlock)>, fuel: nat) -> ExtentStep
    decreases fuel,
{
    match step {
        ExtentStep::ReadBlock { block, var, inner } => {
            if var >= 340 {
                step
            } else {
                match loaded_block(blocks, block, 0) {
                    None => step,
                    Some(bl) => if fuel == 0 {
                        ExtentStep::Hang
                    } else {
                        extent_walk(spec_extent_block_step(bl.head, bl.node@, idx, var as int, inner), idx, blocks,
                            (fuel - 1) as nat)
                    },
                }
            }
        },
        _ => step,
    }
}

fn find_loaded(blocks: &Vec<(Idx, Ext4ExtentBlock)>, b: Idx) -> (k: Option<usize>)
    ensures
        match k {
            None => loaded_block(blocks@, b, 0).is_none(),
            Some(k) => k < blocks@.len() && loaded_block(blocks@, b, 0) == Some(blocks@[k as int].1),
        },
{
    let mut i: usize = 0;
    while i < blocks.len()
        invariant
            i <= blocks@.len(),
            loaded_block(blocks@, b, 0) == loaded_block(blocks@, b, i as int),
        decreases blocks@.len() - i,
    {
        if blocks[i].0 == b {
            return Some(i);
        }
        i += 1;
    }
    None
}

/// Maps logical block `idx` of an inode through its extent tree (rooted
/// in the inode, `root`) over the extent blocks read so far (`blocks`,
/// each with the block it is stored in, all read with `from_words`):
/// the physical block, the extent block to read next (when it is not
/// among `blocks`: read it and look up again with it), or how the lookup
/// fails. It takes at most one more block step than there are loaded
/// blocks; a walk that needs more has met a block twice in the same state
/// and never ends (`Hang`).
pub fn ext4_get_logic_block_idx(root: &Ext4InodeExtentDesc, idx: Idx, blocks: &Vec<(Idx, Ext4ExtentBlock)>) -> (step: ExtentStep)
    requires
        forall|k: int| 0 <= k < blocks@.len() ==> (#[trigger] blocks@[k]).1.node@.len() == 340,
    ensures
        step == extent_walk(spec_extent_root_step(*root, idx), idx, blocks@, (blocks@.len() + 1) as nat),
{
    let ghost target = extent_walk(spec_extent_root_step(*root, idx), idx, blocks@, (blocks@.len() + 1) as nat);
    let mut step = ext4_extent_root_step(root, idx);
    let mut fuel: u128 = blocks.len() as u128 + 1;
    loop
        invariant
            forall|k: int| 0 <= k < blocks@.len() ==> (#[trigger] blocks@[k]).1.node@.len() == 340,
            extent_walk(step, idx, blocks@, fuel as nat) == target,
            target == extent_walk(spec_extent_root_step(*root, idx), idx, blocks@, (blocks@.len() + 1) as nat),
        decreases fuel,
    {
        match step {
            ExtentStep::ReadBlock { block, var, inner } => {
                if var >= 340 {
                    return step;
                }
                match find_loaded(blocks, block) {
                    None => {
                        return step;
                    },
                    Some(k) => {
                        if fuel == 0 {
                            return ExtentStep::Hang;
                        }
                        let bl = &blocks[k].1;
                        assert(blocks@[k as int].1.node@.len() == 340);
                        step = ext4_extent_block_step(bl, idx, var, inner);
                        fuel = fuel - 1;
                    },
                }
            },
            _ => {
                return step;
            },
        }
    }
}

/// Extent `j` of an inline extent tree covers logical block `idx`: it
/// starts at or before it and ends after it.
pub open spec fn inline_extent_covers(root: Ext4InodeExtentDesc, j: int, idx: u64) -> bool {
    let e = spec_leaf_of(root.node[j].raw);
    (e.ee_block as u64) as int <= idx as int && (idx as int) < (e.ee_block as u64) as int + (e.ee_len as u64) as int
}

proof fn lemma_leaf_scan_finds(root: Ext4InodeExtentDesc, idx: u64, j: int, k: int)
    requires
        0 <= j <= k < 4,
        forall|m: int| j <= m <= k ==> {
            let e = #[trigger] spec_leaf_of(root.node[m].raw);
            (e.ee_block as u64) as int + (e.ee_len as u64) as int <= u64::MAX
        },
        inline_extent_covers(root, k, idx),
        forall|m: int| j <= m < k ==> !#[trigger] inline_extent_covers(root, m, idx),
        ({
            let e = spec_leaf_of(root.node[k].raw);
            (e.ee_start_lo as u64) as int + ((e.ee_start_hi as u64) << 32u64) as int <= u64::MAX
        }),
    ensures
        ({
            let e = spec_leaf_of(root.node[k].raw);
            spec_leaf_scan(root.node@, idx, j)
                == ExtentStep::Found(((e.ee_start_lo as u64) as int + ((e.ee_start_hi as u64) << 32u64) as int) as u64)
        }),
    decreases k - j,
{
    let e = spec_leaf_of(root.node[j].raw);
    assert(root.node@[j] == root.node[j]);
    if j < k {
        assert(!inline_extent_covers(root, j, idx));
        lemma_leaf_scan_finds(root, idx, j + 1, k);
    }
}

proof fn lemma_leaf_scan_misses(root: Ext4InodeExtentDesc, idx: u64, j: int)
    requires
        0 <= j <= 4,
        forall|m: int| j <= m < 4 ==> {
            let e = #[trigger] spec_leaf_of(root.node[m].raw);
            (e.ee_block as u64) as int + (e.ee_len as u64) as int <= u64::MAX
        },
        forall|m: int| j <= m < 4 ==> !#[trigger] inline_extent_covers(root, m, idx),
    ensures
        spec_leaf_scan(root.node@, idx, j) == ExtentStep::OutOfRange,
    decreases 4 - j,
{
    if j < 4 {
        assert(root.node@[j] == root.node[j]);
        assert(!inline_extent_covers(root, j, idx));
        lemma_leaf_scan_misses(root, idx, j + 1);
    }
}

/// In an inode whose extent tree is held inline, a logical block that none
/// of the four extents covers is out of range (the lookup panics there).
pub proof fn lemma_inline_extent_miss(root: Ext4InodeExtentDesc, idx: u64)
    requires
        root.head.eh_magic as u16 == EXT4_EXT_MAGIC,
        root.head.eh_depth == 0,
        forall|m: int| 0 <= m < 4 ==> {
            let e = #[trigger] spec_leaf_of(root.node[m].raw);
            (e.ee_block as u64) as int + (e.ee_len as u64) as int <= u64::MAX
        },
        forall|m: int| 0 <= m < 4 ==> !#[trigger] inline_extent_covers(root, m, idx),
    ensures
        spec_extent_root_step(root, idx) == ExtentStep::OutOfRange,
{
    lemma_leaf_scan_misses(root, idx, 0);
}

/// In an inode whose extent tree is held inline (the root carries the
/// extent magic and has depth 0), logical block `idx` maps to the first
/// physical block of the first of the four extents that covers it, its
/// first logical block included, whatever extent blocks were read.
pub proof fn lemma_inline_extent_lookup(root: Ext4InodeExtentDesc, idx: u64, k: int,
    blocks: Seq<(u64, Ext4ExtentBlock)>, fuel: nat)
    requires
        root.head.eh_magic as u16 == EXT4_EXT_MAGIC,
        root.head.eh_depth == 0,
        0 <= k < 4,
        inline_extent_covers(root, k, idx),
        forall|m: int| 0 <= m < k ==> !#[trigger] inline_extent_covers(root, m, idx),
        forall|m: int| 0 <= m <= k ==> {
            let e = #[trigger] spec_leaf_of(root.node[m].raw);
            (e.ee_block as u64) as int + (e.ee_len as u64) as int <= u64::MAX
        },
        ({
            let e = spec_leaf_of(root.node[k].raw);
            (e.ee_start_lo as u64) as int + ((e.ee_start_hi as u64) << 32u64) as int <= u64::MAX
        }),
    ensures
        ({
            let e = spec_leaf_of(root.node[k].raw);
            let start = ((e.ee_start_lo as u64) as int + ((e.ee_start_hi as u64) << 32u64) as int) as u64;
            &&& spec_extent_root_step(root, idx) == ExtentStep::Found(start)
            &&& extent_walk(spec_extent_root_step(root, idx), idx, blocks, fuel) == ExtentStep::Found(start)
        }),
{
    lemma_leaf_scan_finds(root, idx, 0, k);
}

/// Whether a bitmap read from disk carries the checksum its group
/// descriptor records: the CRC32C (from the filesystem's seed `seed`) of
/// its first `size` bytes against the two halves `csum_lo` and `csum_hi`.
/// Loading a bitmap whose checksum differs stops the kernel.
pub fn ext4_bitmap_csum_ok(seed: u32, map: &[u8], size: usize, csum_lo: u16, csum_hi: u16) -> (ok: bool)
    requires
        size <= map@.len(),
    ensures
        ok == (crc_bits(seed, map@.subrange(0, size as int), CRC32C_POLY_LE) == ((csum_lo as u32) | ((csum_hi as u32) << 16u32))),
{
    let part = slice_prefix(map, size);
    let calculated = crc32c_le(seed, part, 0, false);
    let provided: u32 = (csum_lo as u32) | ((csum_hi as u32) << 16);
    provided == calculated
}

fn slice_prefix(s: &[u8], n: usize) -> (p: &[u8])
    requires
        n <= s@.len(),
    ensures
        p@ == s@.subrange(0, n as int),
{
    slice_subrange(s, 0, n)
}

fn slice_subrange(s: &[u8], from: usize, to: usize) -> (p: &[u8])
    requires
        from <= to <= s@.len(),
    ensures
        p@ == s@.subrange(from as int, to as int),
{
    vstd::slice::slice_subrange(s, from, to)
}

/// The four bytes of `x`, least significant first.
pub open spec fn le_bytes32(x: u32) -> Seq<u8> {
    seq![(x & 0xff) as u8, ((x >> 8u32) & 0xff) as u8, ((x >> 16u32) & 0xff) as u8, ((x >> 24u32) & 0xff) as u8]
}

/// The checksum of a group descriptor when the filesystem has metadata
/// checksums: the low half of the CRC32C, from the seed `seed`, of the
/// group's number (four bytes, least significant first) and the
/// descriptor's bytes `gdp` with its checksum field (the two bytes at
/// `csum_offset`) read as zero.
pub fn ext4_group_desc_csum_metadata(seed: u32, block_group: u32, gdp: &[u8], csum_offset: usize) -> (r: u16)
    requires
        csum_offset + 2 <= gdp@.len(),
    ensures
        r == (crc_bits(seed, le_bytes32(block_group) + gdp@.subrange(0, csum_offset as int) + seq![0u8, 0u8]
            + gdp@.subrange(csum_offset + 2, gdp@.len() as int), CRC32C_POLY_LE) & 0xffff) as u16,
{
    let group: [u8; 4] = [(block_group & 0xff) as u8, ((block_group >> 8) & 0xff) as u8, ((block_group >> 16) & 0xff) as u8,
        ((block_group >> 24) & 0xff) as u8];
    let dummy: [u8; 2] = [0, 0];
    let head = slice_prefix(gdp, csum_offset);
    let n = gdp.len();
    let tail = slice_subrange(gdp, csum_offset + 2, n);
    let c1 = crc32c_le(seed, group.as_slice(), 0, false);
    let c2 = crc32c_le(c1, head, 0, false);
    let c3 = crc32c_le(c2, dummy.as_slice(), 0, false);
    let c4 = crc32c_le(c3, tail, 0, false);
    proof {
        let g = le_bytes32(block_group);
        assert(group@ =~= g);
        assert(dummy@ =~= seq![0u8, 0u8]);
        lemma_crc_bits_concat(seed, g, head@, CRC32C_POLY_LE);
        lemma_crc_bits_concat(seed, g + head@, dummy@, CRC32C_POLY_LE);
        lemma_crc_bits_concat(seed, g + head@ + dummy@, tail@, CRC32C_POLY_LE);
    }
    (c4 & 0xffff) as u16
}

/// Stamps the checksum of a superblock given as its bytes `sb`: the
/// CRC32C (from all ones) of every byte but the last four, stored in those
/// four (the `s_checksum` field), least significant first.
pub fn write_super_block_check_sum(sb: &mut [u8])
    requires
        old(sb)@.len() >= 4,
    ensures
        ({
            let n = old(sb)@.len() as int;
            final(sb)@ == old(sb)@.subrange(0, n - 4)
                + le_bytes32(crc_bits(0xffff_ffffu32, old(sb)@.subrange(0, n - 4), CRC32C_POLY_LE))
        }),
{
    let n = sb.len();
    let body = slice_prefix(sb, n - 4);
    let c = crc32c_le(0xffff_ffff, body, 0, false);
    sb[n - 4] = (c & 0xff) as u8;
    sb[n - 3] = ((c >> 8) & 0xff) as u8;
    sb[n - 2] = ((c >> 16) & 0xff) as u8;
    sb[n - 1] = ((c >> 24) & 0xff) as u8;
    proof {
        let ghost nn = sb@.len() as int;
        assert(sb@ =~= old(sb)@.subrange(0, nn - 4) + le_bytes32(c));
    }
}

/// Whether the superblock announces metadata checksums.
pub fn ext4_has_metadata_csum(super_block: &Ext4SuperBlock) -> (b: bool)
    ensures b == (super_block.s_feature_ro_compat & RO_COMPAT_METADATA_CSUM != 0),
{
    (super_block.s_feature_ro_compat & RO_COMPAT_METADATA_CSUM) != 0
}

/// The block group that holds data block `idx`.
pub fn get_data_block_group_idx(blocks_per_group: usize, idx: Idx) -> (g: usize)
    requires
        blocks_per_group > 0,
        idx <= usize::MAX,
    ensures
        g == (idx as usize) / blocks_per_group,
{
    idx as usize / blocks_per_group
}

/// Where the lookup of logical block `idx` in an ext2/ext3 block map
/// starts: the slot of `i_block` to read and the number of indirection
/// levels below it.
pub fn ext2_or_ext3_block_level(idx: Idx) -> (r: (Idx, u8))
    ensures
        r == (if (idx as usize) < EXT4_IND_BLOCK {
            (idx, 0u8)
        } else if idx < EXT4_INDIRECT1_BLOCK {
            ((EXT4_DIND_BLOCK - 1) as u64, 1u8)
        } else if idx < EXT4_INDIRECT2_BLOCK {
            ((EXT4_TIND_BLOCK - 1) as u64, 2u8)
        } else {
            ((EXT4_N_BLOCKS - 1) as u64, 3u8)
        }),
{
    if (idx as usize) < EXT4_IND_BLOCK {
        return (idx, 0);
    }
    if idx < EXT4_INDIRECT1_BLOCK {
        return (EXT4_DIND_BLOCK as u64 - 1, 1);
    }
    if idx < EXT4_INDIRECT2_BLOCK {
        return (EXT4_TIND_BLOCK as u64 - 1, 2);
    }
    (EXT4_N_BLOCKS as u64 - 1, 3)
}

/// The byte offset of inode `nr` (counted from 1) inside the block of the
/// inode table that holds it.
pub fn ext4_inode_format_offset(logic_block_size: i32, nr: Idx) -> (off: u64)
    requires
        1 <= nr,
        256 * (nr - 1) <= u64::MAX,
        0 < logic_block_size,
    ensures
        off == (256 * (nr - 1)) % (1024 * logic_block_size as u64),
{
    (256 * (nr - 1)) % (1024 * logic_block_size as u64)
}

/// Whether the mode is that of a regular file or of a directory.
pub open spec fn is_file_or_dir(m: u16) -> bool {
    m & EXT4_IFMT == EXT4_IFREG || m & EXT4_IFMT == EXT4_IFDIR
}

/// The size of a file from the two halves in its inode.
pub open spec fn spec_inode_size(desc: Ext4Inode) -> int {
    ((desc.i_size_lo as int + desc.i_size_high as int * 0x1_0000_0000) as i64) as usize as int
}

/// One piece of a read of a file: `len` bytes from byte `start` of the
/// file's logical block `block`.
#[derive(Clone, Copy)]
pub struct ReadChunk {
    pub block: Idx,
    pub start: usize,
    pub len: usize,
}

/// Plans a read of `len` bytes at `offset` of a file: `Err(EOF)` when the
/// offset is at or past the end, otherwise the pieces to copy, each from
/// the block that holds `offset` (the block number does not move on from
/// piece to piece), and the number of bytes read, `min(len, size - offset)`.
pub fn ext4_inode_read_plan(desc: &Ext4Inode, len: usize, offset: usize, logic_block_size: i32)
    -> (r: Result<(Vec<ReadChunk>, usize), i64>)
    requires
        0 < logic_block_size <= 0x10_0000,
        !(desc.i_size_high == i32::MIN && desc.i_size_lo < 0),
        is_file_or_dir(desc.i_mode),
    ensures
        offset >= spec_inode_size(*desc) ==> r == Err::<(Vec<ReadChunk>, usize), i64>(-1i64),
        offset < spec_inode_size(*desc) ==> r.is_ok() && ({
            let total = if len < spec_inode_size(*desc) - offset { len as int } else { spec_inode_size(*desc) - offset };
            let bs = 1024 * logic_block_size;
            &&& r.unwrap().1 == total
            &&& chunks_cover(r.unwrap().0@, offset as int, total, bs, (offset / 1024 / (logic_block_size as usize)) as u64)
        }),
{
    let file_size = ((desc.i_size_lo as i64) + (desc.i_size_high as i64) * 0x1_0000_0000) as usize;
    if offset >= file_size {
        return Err(-1);
    }
    let bs: usize = 1024 * logic_block_size as usize;
    let idx = (offset / 1024 / logic_block_size as usize) as u64;
    let mut read_begin = offset;
    let mut left = if len < file_size - offset { len } else { file_size - offset };
    let total = left;
    let mut chunks: Vec<ReadChunk> = Vec::new();
    while left > 0
        invariant
            bs == 1024 * logic_block_size,
            bs > 0,
            read_begin - offset + left == total,
            offset <= read_begin,
            read_begin + left <= usize::MAX,
            chunks_cover(chunks@, offset as int, read_begin - offset, bs as int, idx),
        decreases left,
    {
        let start = read_begin % bs;
        let read_num = if bs - start < left { bs - start } else { left };
        let ghost before = chunks@;
        let c = ReadChunk { block: idx, start, len: read_num };
        chunks.push(c);
        assert(chunks@.drop_last() =~= before);
        assert(chunks@.last() == c);
        left -= read_num;
        read_begin += read_num;
    }
    Ok((chunks, total))
}

/// `chunks` are the pieces of a read of `total` bytes from byte `from`:
/// each starts where the previous one ended, inside a block of `bs` bytes,
/// and reaches the end of that block or the end of the read.
pub open spec fn chunks_cover(chunks: Seq<ReadChunk>, from: int, total: int, bs: int, idx: u64) -> bool
    decreases chunks.len(),
{
    if chunks.len() == 0 {
        total == 0
    } else {
        let last = chunks.last();
        let rest_total = total - last.len;
        let pos = from + rest_total;
        &&& chunks_cover(chunks.drop_last(), from, rest_total, bs, idx)
        &&& last.block == idx
        &&& last.start == pos % bs
        &&& last.len > 0
        &&& last.start + last.len <= bs
    }
}

} // verus!
