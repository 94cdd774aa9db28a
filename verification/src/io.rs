use vstd::prelude::*;
use crate::device::{DevT, spec_mkdev};
use crate::device_table::{Device, DeviceTable, Driver, padded_name};
use crate::list::ListHead;
use crate::semaphore::SpinLock;

verus! {

pub const SECTOR_SIZE: u64 = 512;
pub const IDE_IOBASE_PRIMARY: u16 = 0x1f0;
pub const IDE_IOBASE_SECONDARY: u16 = 0x170;
pub const IDE_DATA: u16 = 0x0000;
pub const IDE_ERR: u16 = 0x0001;
pub const IDE_FEATURE: u16 = 0x0001;
pub const IDE_SECTOR: u16 = 0x0002;
pub const IDE_LBA_LOW: u16 = 0x0003;
pub const IDE_LBA_MID: u16 = 0x0004;
pub const IDE_LBA_HIGH: u16 = 0x0005;
pub const IDE_HDDEVSEL: u16 = 0x0006;
pub const IDE_STATUS: u16 = 0x0007;
pub const IDE_COMMAND: u16 = 0x0007;
pub const IDE_ALT_STATUS: u16 = 0x0206;
pub const IDE_CONTROL: u16 = 0x0206;
pub const IDE_DEVCTRL: u16 = 0x0206;
pub const KEYBOARD_DATA_PORT: u16 = 0x60;
pub const KEYBOARD_CTRL_PORT: u16 = 0x64;
pub const CMOS_SECOND: u8 = 0x00;
pub const CMOS_MINUTE: u8 = 0x02;
pub const CMOS_HOUR: u8 = 0x4;
pub const CMOS_WEEKDAY: u8 = 0x6;
pub const CMOS_DAY: u8 = 0x7;
pub const CMOS_MONTH: u8 = 0x8;
pub const CMOS_YEAR: u8 = 0x9;
pub const CMOS_CENTURY: u8 = 0x32;
pub const CMOS_A: u8 = 0x0a;
pub const CMOS_B: u8 = 0x0b;
pub const CMOS_C: u8 = 0x0c;
pub const CMOS_D: u8 = 0x0d;
pub const CMOS_NMI: u8 = 0x80;
pub const CMOS_ADDR_PORT: u16 = 0x70;
pub const CMOS_DATA_PROT: u16 = 0x71;
pub const IDE_CMD_READ: u8 = 0x20;
pub const IDE_CMD_WRITE: u8 = 0x30;
pub const IDE_CMD_IDENTIFY: u8 = 0xec;
pub const IDE_SR_NULL: u8 = 0x00;
pub const IDE_SR_ERR: u8 = 0x01;
pub const IDE_SR_IDX: u8 = 0x02;
pub const IDE_SR_CORR: u8 = 0x04;
pub const IDE_SR_DRQ: u8 = 0x08;
pub const IDE_SR_DSC: u8 = 0x10;
pub const IDE_SR_DWF: u8 = 0x20;
pub const IDE_SR_DRDY: u8 = 0x40;
pub const IDE_SR_BSY: u8 = 0x80;
pub const IDE_CTRL_HD15: u8 = 0x00;
pub const IDE_CTRL_SRST: u8 = 0x04;
pub const IDE_CTRL_NIEN: u8 = 0x02;
pub const IDE_ER_AMNF: u8 = 0x01;
pub const IDE_ER_TK0NF: u8 = 0x02;
pub const IDE_ER_ABRT: u8 = 0x04;
pub const IDE_ER_MCR: u8 = 0x08;
pub const IDE_ER_IDNF: u8 = 0x10;
pub const IDE_ER_MC: u8 = 0x20;
pub const IDE_ER_UNC: u8 = 0x40;
pub const IDE_ER_BBK: u8 = 0x80;
pub const IDE_LBA_MASTER: u8 = 0b11100000;
pub const IDE_LBA_SLAVE: u8 = 0b11110000;
pub const IDE_CTRL_NR: usize = 2;
pub const IDE_DISK_NR: usize = 2;
pub const IDE_PART_NR: usize = 4;
/// The partition type of an extended partition (MBR type 0x05).
pub const PART_FS_EXTENDED: u32 = 0x5;
/// The answer of an identification that found no disk.
pub const EOF: i64 = -1;

/// A partition of a disk: its NUL-padded name, the disk's address, its
/// type, first sector and sector count.
#[derive(Clone, Copy)]
pub struct IdePart {
    pub name: [u8; 8],
    pub disk: usize,
    pub system: u32,
    pub start: u32,
    pub count: u32,
}

impl IdePart {
    /// A partition entry with no name, disk, type or sectors.
    pub fn empty() -> (p: Self)
        ensures
            p.name@ == Seq::new(8, |i: int| 0u8),
            p.disk == 0 && p.system == 0 && p.start == 0 && p.count == 0,
    {
        let p = IdePart { name: [0u8; 8], disk: 0, system: 0, start: 0, count: 0 };
        assert(p.name@ =~= Seq::new(8, |i: int| 0u8));
        p
    }
}

/// A disk on an IDE controller: its NUL-padded name, the controller's
/// address, its drive-select byte, whether it is the master, its size and
/// geometry, its lock and its partitions.
pub struct IdeDiskT {
    pub name: [u8; 8],
    pub ctrl: usize,
    pub selector: u8,
    pub master: bool,
    pub total_lba: u32,
    pub cylinders: u32,
    pub heads: u32,
    pub sectors: u32,
    pub lock: SpinLock,
    pub parts: [IdePart; 4],
}

impl IdeDiskT {
    /// A disk with nothing known of it.
    pub fn empty() -> (d: Self)
        ensures
            d.ctrl == 0 && d.selector == 0 && !d.master,
            d.total_lba == 0 && d.cylinders == 0 && d.heads == 0 && d.sectors == 0,
            d.lock.count() == 1,
            forall|i: int| 0 <= i < 4 ==> #[trigger] d.parts@[i].count == 0,
    {
        Self::new(0, 0, false, 0, 0, 0, 0)
    }

    /// A disk of the controller at `ctrl_block` with the given selector,
    /// role, size and geometry, no name and no partitions.
    pub fn new(ctrl_block: usize, disk_selector: u8, is_master: bool, lba_num: u32, heads: u32, cylinders: u32, sectors: u32) -> (d: IdeDiskT)
        ensures
            d.ctrl == ctrl_block,
            d.selector == disk_selector,
            d.master == is_master,
            d.total_lba == lba_num,
            d.heads == heads && d.cylinders == cylinders && d.sectors == sectors,
            d.lock.count() == 1,
            d.name@ == Seq::new(8, |i: int| 0u8),
            forall|i: int| 0 <= i < 4 ==> #[trigger] d.parts@[i].count == 0 && d.parts@[i].start == 0
                && d.parts@[i].system == 0 && d.parts@[i].disk == 0,
    {
        let d = IdeDiskT {
            name: [0u8; 8],
            ctrl: ctrl_block,
            selector: disk_selector,
            master: is_master,
            total_lba: lba_num,
            cylinders,
            heads,
            sectors,
            lock: SpinLock::new(1),
            parts: [IdePart::empty(), IdePart::empty(), IdePart::empty(), IdePart::empty()],
        };
        assert(d.name@ =~= Seq::new(8, |i: int| 0u8));
        d
    }
}

/// `buf` after swapping each pair of bytes below `len` and clearing the
/// byte at `len - 1`.
pub open spec fn spec_swap_pairs(buf: Seq<u8>, len: int) -> Seq<u8> {
    Seq::new(buf.len(), |k: int|
        if k == len - 1 { 0u8 }
        else if k < len && k % 2 == 0 { buf[k + 1] }
        else if k < len { buf[k - 1] }
        else { buf[k] })
}

/// Turns the byte-swapped text of an identification block into readable
/// text: the two bytes of each 16-bit word below `len` change places, and
/// the last byte becomes the terminating NUL.
pub fn ide_swap_pairs(buf: &mut [u8], len: u32)
    requires
        len >= 2,
        len % 2 == 0,
        len <= old(buf)@.len(),
    ensures
        final(buf)@ == spec_swap_pairs(old(buf)@, len as int),
{
    let mut i: u32 = 0;
    while i < len
        invariant
            i <= len,
            i % 2 == 0,
            len % 2 == 0,
            len <= buf@.len(),
            buf@.len() == old(buf)@.len(),
            forall|k: int| 0 <= k < i ==> #[trigger] buf@[k] == (if k % 2 == 0 { old(buf)@[k + 1] } else { old(buf)@[k - 1] }),
            forall|k: int| i <= k < buf@.len() ==> #[trigger] buf@[k] == old(buf)@[k],
        decreases len - i,
    {
        let ch = buf[i as usize];
        let next = buf[i as usize + 1];
        buf[i as usize] = next;
        buf[i as usize + 1] = ch;
        i += 2;
    }
    buf[len as usize - 1] = 0;
    assert(buf@ =~= spec_swap_pairs(old(buf)@, len as int));
}

/// What an IDE error register reports, in the order this kernel logs it.
#[derive(PartialEq, Eq, Structural, Clone, Copy)]
pub enum IdeError {
    BadBlock,
    Uncorrectable,
    MediaChange,
    IdNotFound,
    MediaChangeRequested,
    Abort,
    Track0NotFound,
    AddressMarkNotFound,
}

/// The errors of the error register value `error`, from its highest bit
/// down.
pub open spec fn spec_ide_errors(error: u8) -> Seq<IdeError> {
    let s0: Seq<IdeError> = Seq::empty();
    let s1 = if error & IDE_ER_BBK != 0 { s0.push(IdeError::BadBlock) } else { s0 };
    let s2 = if error & IDE_ER_UNC != 0 { s1.push(IdeError::Uncorrectable) } else { s1 };
    let s3 = if error & IDE_ER_MC != 0 { s2.push(IdeError::MediaChange) } else { s2 };
    let s4 = if error & IDE_ER_IDNF != 0 { s3.push(IdeError::IdNotFound) } else { s3 };
    let s5 = if error & IDE_ER_MCR != 0 { s4.push(IdeError::MediaChangeRequested) } else { s4 };
    let s6 = if error & IDE_ER_ABRT != 0 { s5.push(IdeError::Abort) } else { s5 };
    let s7 = if error & IDE_ER_TK0NF != 0 { s6.push(IdeError::Track0NotFound) } else { s6 };
    if error & IDE_ER_AMNF != 0 { s7.push(IdeError::AddressMarkNotFound) } else { s7 }
}

/// Decodes the error register value `error` into the errors it reports.
pub fn ide_error(error: u8) -> (r: Vec<IdeError>)
    ensures
        r@ == spec_ide_errors(error),
{
    let mut r: Vec<IdeError> = Vec::new();
    if (error & IDE_ER_BBK) != 0 {
        r.push(IdeError::BadBlock);
    }
    if (error & IDE_ER_UNC) != 0 {
        r.push(IdeError::Uncorrectable);
    }
    if (error & IDE_ER_MC) != 0 {
        r.push(IdeError::MediaChange);
    }
    if (error & IDE_ER_IDNF) != 0 {
        r.push(IdeError::IdNotFound);
    }
    if (error & IDE_ER_MCR) != 0 {
        r.push(IdeError::MediaChangeRequested);
    }
    if (error & IDE_ER_ABRT) != 0 {
        r.push(IdeError::Abort);
    }
    if (error & IDE_ER_TK0NF) != 0 {
        r.push(IdeError::Track0NotFound);
    }
    if (error & IDE_ER_AMNF) != 0 {
        r.push(IdeError::AddressMarkNotFound);
    }
    r
}

/// The values written to the feature, sector count, three LBA and drive
/// select registers to address `cnt` sectors from `lba` on the disk with
/// drive-select byte `selector`.
pub fn ide_select_sector(selector: u8, lba: u64, cnt: u8) -> (regs: [u8; 6])
    ensures
        regs@ == seq![0u8, cnt, (lba & 0xff) as u8, ((lba >> 8) & 0xff) as u8, ((lba >> 16) & 0xff) as u8,
            (((lba >> 24) & 0xf) as u8) | selector],
{
    [0, cnt, (lba & 0xff) as u8, (lba >> 8 & 0xff) as u8, (lba >> 16 & 0xff) as u8, (lba >> 24 & 0xf) as u8 | selector]
}

/// The little-endian 16-bit word at byte `at` of `b`.
pub open spec fn le16(b: Seq<u8>, at: int) -> u16 {
    (b[at] as int + b[at + 1] as int * 256) as u16
}

/// The little-endian 32-bit word at byte `at` of `b`.
pub open spec fn le32(b: Seq<u8>, at: int) -> u32 {
    (b[at] as int + b[at + 1] as int * 0x100 + b[at + 2] as int * 0x10000 + b[at + 3] as int * 0x1000000) as u32
}

fn read_le16(b: &[u8], at: usize) -> (v: u16)
    requires
        at + 2 <= b@.len(),
    ensures
        v == le16(b@, at as int),
{
    (b[at] as u16) + (b[at + 1] as u16) * 256
}

fn read_le32(b: &[u8], at: usize) -> (v: u32)
    requires
        at + 4 <= b@.len(),
    ensures
        v == le32(b@, at as int),
{
    (b[at] as u32) + (b[at + 1] as u32) * 0x100 + (b[at + 2] as u32) * 0x10000 + (b[at + 3] as u32) * 0x1000000
}

/// Applies an identification block (the 512 bytes the disk answers the
/// identify command with): with no sectors reported the disk is absent
/// (`EOF`, nothing changes); otherwise the disk takes the reported size
/// (words 60 and 61) and geometry (cylinders, heads and sectors per track
/// from words 1, 3 and 6) and the answer is 0.
pub fn ide_identify(disk: &mut IdeDiskT, params: &[u8]) -> (r: i64)
    requires
        params@.len() >= 512,
    ensures
        le32(params@, 120) == 0 ==> r == EOF && final(disk).total_lba == old(disk).total_lba
            && final(disk).cylinders == old(disk).cylinders && final(disk).heads == old(disk).heads
            && final(disk).sectors == old(disk).sectors,
        le32(params@, 120) != 0 ==> r == 0 && final(disk).total_lba == le32(params@, 120)
            && final(disk).cylinders == le16(params@, 2) && final(disk).heads == le16(params@, 6)
            && final(disk).sectors == le16(params@, 12),
        final(disk).parts == old(disk).parts,
        final(disk).name == old(disk).name,
{
    let total_lba = read_le32(params, 120);
    if total_lba == 0 {
        return EOF;
    }
    disk.total_lba = total_lba;
    disk.cylinders = read_le16(params, 2) as u32;
    disk.heads = read_le16(params, 6) as u32;
    disk.sectors = read_le16(params, 12) as u32;
    0
}

/// The length of the NUL-terminated name in `name` (all of it when there
/// is no NUL).
pub open spec fn name_len(name: Seq<u8>) -> int
    decreases name.len(),
{
    if name.len() == 0 {
        0
    } else if name[0] == 0 {
        0
    } else {
        1 + name_len(name.drop_first())
    }
}

/// The bytes before the first NUL of a name are not NUL, and there are at
/// most as many as the name has.
pub proof fn lemma_name_len_bytes(q: Seq<u8>)
    ensures
        0 <= name_len(q) <= q.len(),
        forall|k: int| 0 <= k < name_len(q) ==> q[k] != 0,
        name_len(q) < q.len() ==> q[name_len(q)] == 0,
    decreases q.len(),
{
    if q.len() > 0 && q[0] != 0 {
        lemma_name_len_bytes(q.drop_first());
        assert forall|k: int| 0 <= k < name_len(q) implies q[k] != 0 by {
            if k > 0 {
                assert(q[k] == q.drop_first()[k - 1]);
            }
        }
    }
}

/// A name whose first NUL is at `n` is `n` bytes long.
pub proof fn lemma_name_len_at(q: Seq<u8>, n: int)
    requires
        0 <= n < q.len(),
        q[n] == 0,
        forall|k: int| 0 <= k < n ==> q[k] != 0,
    ensures
        name_len(q) == n,
    decreases n,
{
    if n > 0 {
        assert forall|k: int| 0 <= k < n - 1 implies q.drop_first()[k] != 0 by {
            assert(q.drop_first()[k] == q[k + 1]);
        }
        lemma_name_len_at(q.drop_first(), n - 1);
    }
}

/// The partition entry `i` (0 to 3) of a boot sector, at byte
/// `446 + 16 * i`: its type byte, first sector and sector count.
pub open spec fn boot_entry_system(boot: Seq<u8>, i: int) -> u8 {
    boot[446 + 16 * i + 4]
}

pub open spec fn boot_entry_start(boot: Seq<u8>, i: int) -> u32 {
    le32(boot, 446 + 16 * i + 8)
}

pub open spec fn boot_entry_count(boot: Seq<u8>, i: int) -> u32 {
    le32(boot, 446 + 16 * i + 12)
}

/// Reads the partition table of the boot sector `boot` of a disk (at
/// `disk_addr`) with at least one sector: each used entry (a nonzero
/// count) names a partition after the disk and its number from 1, and
/// gives its type, first sector and count. A disk with no sectors is left
/// as it was. The disk's name must leave room for the number, and no used
/// entry may be an extended partition.
pub fn ide_part_init(disk: &mut IdeDiskT, disk_addr: usize, boot: &[u8])
    requires
        boot@.len() >= 512,
        old(disk).total_lba != 0 ==> name_len(old(disk).name@) < 7,
        old(disk).total_lba != 0 ==> forall|i: int| 0 <= i < 4 && #[trigger] boot_entry_count(boot@, i) != 0 ==>
            boot_entry_system(boot@, i) != PART_FS_EXTENDED,
    ensures
        old(disk).total_lba == 0 ==> final(disk).parts == old(disk).parts,
        old(disk).total_lba != 0 ==> forall|i: int| 0 <= i < 4 ==> {
            let p = #[trigger] final(disk).parts@[i];
            &&& boot_entry_count(boot@, i) == 0 ==> p == old(disk).parts@[i]
            &&& boot_entry_count(boot@, i) != 0 ==> {
                &&& p.disk == disk_addr
                &&& p.count == boot_entry_count(boot@, i)
                &&& p.system == boot_entry_system(boot@, i)
                &&& p.start == boot_entry_start(boot@, i)
                &&& p.name@.subrange(0, name_len(old(disk).name@) + 1)
                        == old(disk).name@.subrange(0, name_len(old(disk).name@)).push((0x31 + i) as u8)
                &&& p.name@.subrange(name_len(old(disk).name@) + 1, 8)
                        == old(disk).parts@[i].name@.subrange(name_len(old(disk).name@) + 1, 8)
                &&& old(disk).parts@[i].name@[name_len(old(disk).name@) + 1] == 0 ==> {
                        &&& name_len(p.name@) == name_len(old(disk).name@) + 1
                        &&& p.name@.subrange(0, name_len(p.name@))
                                == old(disk).name@.subrange(0, name_len(old(disk).name@)).push((0x31 + i) as u8)
                    }
            }
        },
        final(disk).name == old(disk).name,
        final(disk).total_lba == old(disk).total_lba,
{
    if disk.total_lba == 0 {
        return;
    }
    let ghost old_parts = disk.parts@;
    let nlen = disk_name_len(&disk.name);
    let mut var: usize = 0;
    while var < IDE_PART_NR
        invariant
            var <= 4,
            boot@.len() >= 512,
            nlen == name_len(disk.name@),
            nlen < 7,
            disk.name == old(disk).name,
            disk.total_lba == old(disk).total_lba,
            disk.total_lba != 0,
            forall|i: int| 0 <= i < 4 && #[trigger] boot_entry_count(boot@, i) != 0 ==>
                boot_entry_system(boot@, i) != PART_FS_EXTENDED,
            forall|i: int| var <= i < 4 ==> #[trigger] disk.parts@[i] == old_parts[i],
            old_parts == old(disk).parts@,
            forall|i: int| 0 <= i < var ==> {
                let p = #[trigger] disk.parts@[i];
                &&& boot_entry_count(boot@, i) == 0 ==> p == old_parts[i]
                &&& boot_entry_count(boot@, i) != 0 ==> {
                    &&& p.disk == disk_addr
                    &&& p.count == boot_entry_count(boot@, i)
                    &&& p.system == boot_entry_system(boot@, i)
                    &&& p.start == boot_entry_start(boot@, i)
                    &&& p.name@.subrange(0, nlen + 1) == old(disk).name@.subrange(0, nlen as int).push((0x31 + i) as u8)
                    &&& p.name@.subrange(nlen + 1, 8) == old_parts[i].name@.subrange(nlen + 1, 8)
                    &&& old_parts[i].name@[nlen + 1] == 0 ==> {
                        &&& name_len(p.name@) == nlen + 1
                        &&& p.name@.subrange(0, name_len(p.name@))
                                == old(disk).name@.subrange(0, nlen as int).push((0x31 + i) as u8)
                    }
                }
            },
        decreases 4 - var,
    {
        let base: usize = 446 + 16 * var;
        let count = read_le32(boot, base + 12);
        if count == 0 {
            var += 1;
            continue;
        }
        let mut part = disk.parts[var];
        let ghost part0 = part;
        proof {
            lemma_name_len_bytes(disk.name@);
        }
        let mut k: usize = 0;
        while k < nlen
            invariant
                k <= nlen,
                nlen < 7,
                part.name@.len() == 8,
                forall|m: int| 0 <= m < k ==> #[trigger] part.name@[m] == disk.name@[m],
                forall|m: int| nlen <= m < 8 ==> #[trigger] part.name@[m] == part0.name@[m],
            decreases nlen - k,
        {
            part.name[k] = disk.name[k];
            k += 1;
        }
        part.name[nlen] = (0x31 + var) as u8;
        proof {
            assert(part.name@.subrange(0, nlen + 1) =~= old(disk).name@.subrange(0, nlen as int).push((0x31 + var) as u8));
            assert(part.name@.subrange(nlen + 1, 8) =~= part0.name@.subrange(nlen + 1, 8));
            assert(part0 == old_parts[var as int]);
            if part0.name@[nlen + 1] == 0 {
                assert forall|m: int| 0 <= m < nlen + 1 implies part.name@[m] != 0 by {
                    if m < nlen {
                        assert(part.name@[m] == disk.name@[m]);
                    }
                }
                lemma_name_len_at(part.name@, nlen + 1);
            }
        }
        part.disk = disk_addr;
        part.count = count;
        part.system = boot[base + 4] as u32;
        part.start = read_le32(boot, base + 8);
        disk.parts[var] = part;
        var += 1;
    }
}

fn disk_name_len(name: &[u8; 8]) -> (n: usize)
    ensures
        n == name_len(name@),
        n <= 8,
{
    let mut n: usize = 0;
    assert(name@.subrange(0, 8) =~= name@);
    while n < 8
        invariant
            n <= 8,
            name_len(name@) == n + name_len(name@.subrange(n as int, 8)),
        decreases 8 - n,
    {
        proof {
            assert(name@.subrange(n as int, 8).drop_first() =~= name@.subrange(n as int + 1, 8));
        }
        if name[n] == 0 {
            return n;
        }
        n += 1;
    }
    proof {
        assert(name@.subrange(8, 8).len() == 0);
    }
    n
}


/// The bytes of a NUL-terminated name before its NUL.
pub open spec fn c_name(name: Seq<u8>) -> Seq<u8> {
    name.subrange(0, name_len(name))
}

proof fn lemma_name_len_bound(name: Seq<u8>)
    ensures
        0 <= name_len(name) <= name.len(),
        name_len(name) < name.len() ==> name[name_len(name)] == 0,
        forall|k: int| 0 <= k < name_len(name) ==> name[k] != 0,
    decreases name.len(),
{
    if name.len() > 0 && name[0] != 0 {
        lemma_name_len_bound(name.drop_first());
        assert forall|k: int| 0 <= k < name_len(name) implies name[k] != 0 by {
            if k > 0 {
                assert(name[k] == name.drop_first()[k - 1]);
            }
        }
    }
}

fn c_name_bytes(name: &[u8; 8]) -> (v: Vec<u8>)
    ensures
        v@ == c_name(name@),
        v@.len() < 8 || name_len(name@) == 8,
{
    let n = disk_name_len(name);
    proof {
        lemma_name_len_bound(name@);
    }
    let mut v: Vec<u8> = Vec::new();
    let mut i: usize = 0;
    while i < n
        invariant
            i <= n,
            n == name_len(name@),
            n <= 8,
            v@ == name@.subrange(0, i as int),
        decreases n - i,
    {
        v.push(name[i]);
        i += 1;
        proof {
            assert(v@ =~= name@.subrange(0, i as int));
        }
    }
    v
}

/// The number of disks among the first `k` that have sectors.
pub open spec fn disk_rank(disks: Seq<IdeDiskT>, k: int) -> int
    decreases k,
{
    if k <= 0 {
        0
    } else {
        disk_rank(disks, k - 1) + if disks[k - 1].total_lba != 0 { 1int } else { 0int }
    }
}

/// The number of used partitions (nonzero count) among the first `i`
/// partitions of `d`.
pub open spec fn used_parts(d: IdeDiskT, i: int) -> int
    decreases i,
{
    if i <= 0 {
        0
    } else {
        used_parts(d, i - 1) + if d.parts@[i - 1].count != 0 { 1int } else { 0int }
    }
}

/// The number of used partitions of the disks with sectors among the
/// first `k` disks.
pub open spec fn parts_before(disks: Seq<IdeDiskT>, k: int) -> int
    decreases k,
{
    if k <= 0 {
        0
    } else {
        parts_before(disks, k - 1) + if disks[k - 1].total_lba != 0 { used_parts(disks[k - 1], 4) } else { 0int }
    }
}

/// `d` is the device installed for a disk or partition: the name, number,
/// parent and driver data given, no flags and an empty request queue.
pub open spec fn installed_as(d: Device, name: Seq<u8>, dev: DevT, parent: DevT, ptr: usize) -> bool {
    &&& d.name@ == padded_name(name)
    &&& d.dev == dev
    &&& d.flags == 0
    &&& d.parent == parent
    &&& d.ptr == ptr
    &&& d.request_list == ListHead { next: 0, prev: 0 }
}

/// The driver of the IDE disks and partitions: ioctl and read.
pub open spec fn ide_driver() -> Driver {
    Driver { read: true, write: false, ioctl: true, req_priority: false }
}

/// What `ide_install` leaves in the table after the first `k` disks: the
/// disks with sectors under major 252 after the devices there before, in
/// order, and their used partitions under major 259, each with its disk
/// as parent; no other major changed.
pub open spec fn ide_installed(old_t: DeviceTable, new_t: DeviceTable, disks: Seq<IdeDiskT>, disk_ptrs: Seq<usize>,
    part_ptrs: Seq<[usize; 4]>, k: int) -> bool {
    let o252 = old_t.devices_of(252);
    let o259 = old_t.devices_of(259);
    let l252 = new_t.devices_of(252);
    let l259 = new_t.devices_of(259);
    &&& l252.len() == o252.len() + disk_rank(disks, k)
    &&& l259.len() == o259.len() + parts_before(disks, k)
    &&& forall|j: int| 0 <= j < o252.len() ==> #[trigger] l252[j] == o252[j]
    &&& forall|j: int| 0 <= j < o259.len() ==> #[trigger] l259[j] == o259[j]
    &&& forall|d: int| 0 <= d < k && disks[d].total_lba != 0 ==> installed_as(
            #[trigger] l252[o252.len() + disk_rank(disks, d)], c_name(disks[d].name@),
            spec_mkdev(252, (o252.len() + disk_rank(disks, d)) as u32), 0, disk_ptrs[d])
    &&& forall|d: int, i: int| 0 <= d < k && 0 <= i < 4 && disks[d].total_lba != 0 && disks[d].parts@[i].count != 0 ==> installed_as(
            #[trigger] l259[o259.len() + parts_before(disks, d) + used_parts(disks[d], i)], c_name(disks[d].parts@[i].name@),
            spec_mkdev(259, (o259.len() + parts_before(disks, d) + used_parts(disks[d], i)) as u32),
            spec_mkdev(252, (o252.len() + disk_rank(disks, d)) as u32), part_ptrs[d][i])
    &&& forall|key: u32| key != 252 && key != 259 ==> #[trigger] new_t.devices@.contains_key(key) == old_t.devices@.contains_key(key)
            && (old_t.devices@.contains_key(key) ==> new_t.devices@[key] == old_t.devices@[key])
}

proof fn lemma_used_parts_bound(d: IdeDiskT, i: int)
    ensures
        0 <= used_parts(d, i) <= if i < 0 { 0 } else { i },
    decreases i,
{
    if i > 0 {
        lemma_used_parts_bound(d, i - 1);
    }
}

proof fn lemma_ranks_grow(disks: Seq<IdeDiskT>, k: int)
    ensures
        0 <= disk_rank(disks, k) <= if k < 0 { 0 } else { k },
        0 <= parts_before(disks, k) <= if k < 0 { 0 } else { 4 * k },
    decreases k,
{
    if k > 0 {
        lemma_ranks_grow(disks, k - 1);
        lemma_used_parts_bound(disks[k - 1], 4);
    }
}

proof fn lemma_used_mono(d: IdeDiskT, a: int, b: int)
    requires
        0 <= a <= b,
    ensures
        used_parts(d, a) <= used_parts(d, b),
    decreases b - a,
{
    if a < b {
        lemma_used_mono(d, a, b - 1);
    }
}

proof fn lemma_ranks_mono(disks: Seq<IdeDiskT>, a: int, b: int)
    requires
        0 <= a <= b,
    ensures
        disk_rank(disks, a) <= disk_rank(disks, b),
        parts_before(disks, a) <= parts_before(disks, b),
    decreases b - a,
{
    if a < b {
        lemma_ranks_mono(disks, a, b - 1);
        lemma_used_parts_bound(disks[b - 1], 4);
    }
}

/// Registers the IDE drivers and installs the disks that have sectors
/// (under major 252, driver data `disk_ptrs[d]`) and, after each, its used
/// partitions (under major 259, driver data `part_ptrs[d][i]`, parent the
/// disk's device); see `ide_installed`. The names are the disks' and
/// partitions' NUL-terminated names, which must be UTF-8.
pub fn ide_install(table: &mut DeviceTable, disks: &[IdeDiskT], disk_ptrs: &[usize], part_ptrs: &[[usize; 4]])
    requires
        disk_ptrs@.len() == disks@.len(),
        part_ptrs@.len() == disks@.len(),
        disks@.len() <= 0x1000,
        old(table).devices_of(252).len() + disks@.len() <= 0x1000,
        old(table).devices_of(259).len() + 4 * disks@.len() <= 0x1000,
        forall|d: int| 0 <= d < disks@.len() && disks@[d].total_lba != 0 ==> {
            &&& name_len(#[trigger] disks@[d].name@) < 8
            &&& vstd::utf8::valid_utf8(c_name(disks@[d].name@))
            &&& forall|i: int| 0 <= i < 4 && disks@[d].parts@[i].count != 0 ==>
                    name_len(#[trigger] disks@[d].parts@[i].name@) < 8 && vstd::utf8::valid_utf8(c_name(disks@[d].parts@[i].name@))
        },
    ensures
        final(table).drivers@ == old(table).drivers@.insert(252, ide_driver()).insert(259, ide_driver()),
        ide_installed(*old(table), *final(table), disks@, disk_ptrs@, part_ptrs@, disks@.len() as int),
{
    table.regist_device(252, true, true, false, false);
    table.regist_device(259, true, true, false, false);
    let ghost t0 = *old(table);
    let ghost o252 = t0.devices_of(252);
    let ghost o259 = t0.devices_of(259);
    proof {
        assert(table.devices@ == t0.devices@);
        assert(table.devices_of(252) == o252);
        assert(table.devices_of(259) == o259);
    }
    let mut k: usize = 0;
    while k < disks.len()
        invariant
            k <= disks@.len(),
            disk_ptrs@.len() == disks@.len(),
            part_ptrs@.len() == disks@.len(),
            disks@.len() <= 0x1000,
            o252 == t0.devices_of(252),
            o259 == t0.devices_of(259),
            o252.len() + disks@.len() <= 0x1000,
            o259.len() + 4 * disks@.len() <= 0x1000,
            table.drivers@ == t0.drivers@.insert(252, ide_driver()).insert(259, ide_driver()),
            ide_installed(t0, *table, disks@, disk_ptrs@, part_ptrs@, k as int),
            forall|d: int| 0 <= d < disks@.len() && disks@[d].total_lba != 0 ==> {
                &&& name_len(#[trigger] disks@[d].name@) < 8
                &&& vstd::utf8::valid_utf8(c_name(disks@[d].name@))
                &&& forall|i: int| 0 <= i < 4 && disks@[d].parts@[i].count != 0 ==>
                        name_len(#[trigger] disks@[d].parts@[i].name@) < 8 && vstd::utf8::valid_utf8(c_name(disks@[d].parts@[i].name@))
            },
        decreases disks@.len() - k,
    {
        proof {
            lemma_ranks_grow(disks@, k as int);
            lemma_ranks_grow(disks@, k as int + 1);
        }
        let disk = &disks[k];
        let ghost before_disk = *table;
        if disk.total_lba != 0 {
            let ghost before = *table;
            let name = c_name_bytes(&disk.name);
            let dev_t = table.device_install(252, disk_ptrs[k], name.as_slice(), 0, 0);
            let ghost after_disk = *table;
            proof {
                assert(table.devices_of(252) == before.devices_of(252).push(table.devices@[252u32]@.last()));
                assert(table.devices_of(259) == before.devices_of(259));
            }
            let mut i: usize = 0;
            while i < 4
                invariant
                    i <= 4,
                    k < disks@.len(),
                    disk == disks@[k as int],
                    disk.total_lba != 0,
                    part_ptrs@.len() == disks@.len(),
                    o252 == t0.devices_of(252),
                    o259 == t0.devices_of(259),
                    o259.len() + 4 * disks@.len() <= 0x1000,
                    0 <= parts_before(disks@, k as int) <= 4 * k,
                    dev_t == spec_mkdev(252, (o252.len() + disk_rank(disks@, k as int)) as u32),
                    table.drivers@ == t0.drivers@.insert(252, ide_driver()).insert(259, ide_driver()),
                    table.devices_of(252) == after_disk.devices_of(252),
                    table.devices_of(259).len() == o259.len() + parts_before(disks@, k as int) + used_parts(*disk, i as int),
                    forall|j: int| 0 <= j < after_disk.devices_of(259).len() ==> #[trigger] table.devices_of(259)[j] == after_disk.devices_of(259)[j],
                    after_disk.devices_of(259).len() == o259.len() + parts_before(disks@, k as int),
                    forall|ii: int| 0 <= ii < i && disk.parts@[ii].count != 0 ==> installed_as(
                        #[trigger] table.devices_of(259)[o259.len() + parts_before(disks@, k as int) + used_parts(*disk, ii)],
                        c_name(disk.parts@[ii].name@),
                        spec_mkdev(259, (o259.len() + parts_before(disks@, k as int) + used_parts(*disk, ii)) as u32),
                        dev_t, part_ptrs@[k as int][ii]),
                    table.devices@.remove(259) == after_disk.devices@.remove(259),
                    forall|ii: int| 0 <= ii < 4 && disks@[k as int].parts@[ii].count != 0 ==>
                        name_len(#[trigger] disks@[k as int].parts@[ii].name@) < 8 && vstd::utf8::valid_utf8(c_name(disks@[k as int].parts@[ii].name@)),
                decreases 4 - i,
            {
                proof {
                    lemma_used_parts_bound(*disk, i as int);
                    lemma_used_parts_bound(*disk, i as int + 1);
                }
                let part = &disk.parts[i];
                let ghost before_part = *table;
                if part.count != 0 {
                    let pname = c_name_bytes(&part.name);
                    let _ = table.device_install(259, part_ptrs[k][i], pname.as_slice(), dev_t, 0);
                    proof {
                        let l = table.devices_of(259);
                        let pl = before_part.devices_of(259);
                        let base = o259.len() + parts_before(disks@, k as int);
                        assert(l == pl.push(table.devices@[259u32]@.last()));
                        assert(table.devices_of(252) == before_part.devices_of(252));
                        assert(table.devices@.remove(259) =~= before_part.devices@.remove(259));
                        assert forall|ii: int| 0 <= ii < i + 1 && disk.parts@[ii].count != 0 implies installed_as(
                            #[trigger] l[base + used_parts(*disk, ii)],
                            c_name(disk.parts@[ii].name@),
                            spec_mkdev(259, (base + used_parts(*disk, ii)) as u32),
                            dev_t, part_ptrs@[k as int][ii]) by {
                            if ii < i {
                                lemma_used_mono(*disk, ii + 1, i as int);
                                lemma_used_parts_bound(*disk, ii);
                                assert(used_parts(*disk, ii + 1) == used_parts(*disk, ii) + 1);
                                assert(pl.len() == base + used_parts(*disk, i as int));
                                let idx = base + used_parts(*disk, ii);
                                assert(0 <= idx < pl.len());
                                assert(l[idx] == pl[idx]);
                            }
                        }
                    }
                }
                i += 1;
            }
            proof {
                let l252 = table.devices_of(252);
                let l259 = table.devices_of(259);
                let b252 = before_disk.devices_of(252);
                let b259 = before_disk.devices_of(259);
                assert(l252 == b252.push(l252.last()));
                assert(disk_rank(disks@, k as int + 1) == disk_rank(disks@, k as int) + 1);
                assert(parts_before(disks@, k as int + 1) == parts_before(disks@, k as int) + used_parts(*disk, 4));
                assert forall|j: int| 0 <= j < o252.len() implies #[trigger] l252[j] == o252[j] by {
                    assert(l252[j] == b252[j]);
                }
                assert forall|j: int| 0 <= j < o259.len() implies #[trigger] l259[j] == o259[j] by {
                    assert(l259[j] == b259[j]);
                }
                assert forall|d: int| 0 <= d < k + 1 && disks@[d].total_lba != 0 implies installed_as(
                    #[trigger] l252[o252.len() + disk_rank(disks@, d)], c_name(disks@[d].name@),
                    spec_mkdev(252, (o252.len() + disk_rank(disks@, d)) as u32), 0, disk_ptrs@[d]) by {
                    if d < k {
                        lemma_ranks_mono(disks@, d + 1, k as int);
                        lemma_ranks_grow(disks@, d);
                        assert(disk_rank(disks@, d + 1) == disk_rank(disks@, d) + 1);
                        assert(b252.len() == o252.len() + disk_rank(disks@, k as int));
                        assert(l252[o252.len() + disk_rank(disks@, d)] == b252[o252.len() + disk_rank(disks@, d)]);
                    }
                }
                assert forall|d: int, ii: int| 0 <= d < k + 1 && 0 <= ii < 4 && disks@[d].total_lba != 0 && disks@[d].parts@[ii].count != 0 implies installed_as(
                    #[trigger] l259[o259.len() + parts_before(disks@, d) + used_parts(disks@[d], ii)], c_name(disks@[d].parts@[ii].name@),
                    spec_mkdev(259, (o259.len() + parts_before(disks@, d) + used_parts(disks@[d], ii)) as u32),
                    spec_mkdev(252, (o252.len() + disk_rank(disks@, d)) as u32), part_ptrs@[d][ii]) by {
                    if d < k {
                        lemma_used_mono(disks@[d], ii + 1, 4);
                        lemma_ranks_mono(disks@, d + 1, k as int);
                        lemma_ranks_grow(disks@, d);
                        lemma_used_parts_bound(disks@[d], ii);
                        assert(used_parts(disks@[d], ii + 1) == used_parts(disks@[d], ii) + 1);
                        assert(parts_before(disks@, d + 1) == parts_before(disks@, d) + used_parts(disks@[d], 4));
                        let idx = o259.len() + parts_before(disks@, d) + used_parts(disks@[d], ii);
                        assert(idx < after_disk.devices_of(259).len());
                        assert(l259[idx] == after_disk.devices_of(259)[idx]);
                        assert(after_disk.devices_of(259)[idx] == b259[idx]);
                    }
                }
                assert forall|key: u32| key != 252 && key != 259 implies #[trigger] table.devices@.contains_key(key) == t0.devices@.contains_key(key)
                    && (t0.devices@.contains_key(key) ==> table.devices@[key] == t0.devices@[key]) by {
                    assert(after_disk.devices@.contains_key(key) == before_disk.devices@.contains_key(key));
                    assert(table.devices@.remove(259).contains_key(key) == after_disk.devices@.remove(259).contains_key(key));
                    if table.devices@.contains_key(key) {
                        assert(table.devices@.remove(259)[key] == after_disk.devices@.remove(259)[key]);
                    }
                }
            }
        } else {
            proof {
                assert(disk_rank(disks@, k as int + 1) == disk_rank(disks@, k as int));
                assert(parts_before(disks@, k as int + 1) == parts_before(disks@, k as int));
            }
        }
        k += 1;
    }
}


/// An IDE controller: its NUL-padded name, lock, the value of its control
/// register, its I/O base port, its two disks, and the address of the disk
/// selected last (0 for none).
pub struct IdeCtrlT {
    pub name: [u8; 8],
    pub lock: SpinLock,
    pub control: u8,
    pub iobase: u16,
    pub disks: [IdeDiskT; 2],
    pub active: usize,
}

impl IdeCtrlT {
    /// A controller with no name, port or disk set up.
    pub fn new() -> (c: IdeCtrlT)
        ensures
            c.name@ == Seq::new(8, |i: int| 0u8),
            c.lock.count() == 1,
            c.control == 0,
            c.iobase == 0,
            c.active == 0,
            forall|d: int| 0 <= d < 2 ==> (#[trigger] c.disks@[d]).total_lba == 0 && c.disks@[d].ctrl == 0
                && c.disks@[d].selector == 0 && !c.disks@[d].master,
    {
        let c = IdeCtrlT {
            name: [0u8; 8],
            lock: SpinLock::new(1),
            control: 0,
            iobase: 0,
            disks: [IdeDiskT::empty(), IdeDiskT::empty()],
            active: 0,
        };
        assert(c.name@ =~= Seq::new(8, |i: int| 0u8));
        c
    }
}

/// The name of controller `cidx`: "ide" and its digit, NUL padded.
pub open spec fn ctrl_name(cidx: int) -> Seq<u8> {
    seq![0x69u8, 0x64, 0x65, (0x30 + cidx) as u8, 0, 0, 0, 0]
}

/// The name of disk `didx` of controller `cidx`: "hd" and a letter from
/// 'a' on, counting two disks a controller, NUL padded.
pub open spec fn disk_name(cidx: int, didx: int) -> Seq<u8> {
    seq![0x68u8, 0x64, (0x61 + cidx * 2 + didx) as u8, 0, 0, 0, 0, 0]
}

fn name8(b0: u8, b1: u8, b2: u8, b3: u8) -> (n: [u8; 8])
    ensures
        n@ == seq![b0, b1, b2, b3, 0u8, 0, 0, 0],
{
    let n = [b0, b1, b2, b3, 0, 0, 0, 0];
    assert(n@ =~= seq![b0, b1, b2, b3, 0u8, 0, 0, 0]);
    n
}

/// Sets up controller `cidx` (0 or 1) at the address `ctrl_addr`, before
/// its disks are read: its name, its I/O base (the primary ports for
/// controller 0, the secondary ones otherwise), the value `control` read
/// from its control register (at the I/O base plus 0x206), and its two
/// disks, each named, linked to the controller, the first as master and the
/// second as slave, with their drive-select bytes.
pub fn ide_ctrl_setup(cidx: usize, ctrl_addr: usize, control: u8) -> (c: IdeCtrlT)
    requires
        cidx < IDE_CTRL_NR,
    ensures
        c.name@ == ctrl_name(cidx as int),
        c.iobase == (if cidx != 0 { IDE_IOBASE_SECONDARY } else { IDE_IOBASE_PRIMARY }),
        c.control == control,
        c.active == 0,
        c.lock.count() == 1,
        forall|d: int| 0 <= d < 2 ==> {
            &&& (#[trigger] c.disks@[d]).name@ == disk_name(cidx as int, d)
            &&& c.disks@[d].ctrl == ctrl_addr
            &&& c.disks@[d].master == (d == 0)
            &&& c.disks@[d].selector == (if d == 0 { IDE_LBA_MASTER } else { IDE_LBA_SLAVE })
            &&& c.disks@[d].total_lba == 0
            &&& forall|i: int| 0 <= i < 4 ==> (#[trigger] c.disks@[d].parts@[i]).count == 0
        },
{
    let mut ctrl = IdeCtrlT::new();
    ctrl.name = name8(0x69, 0x64, 0x65, 0x30 + cidx as u8);
    if cidx != 0 {
        ctrl.iobase = IDE_IOBASE_SECONDARY;
    } else {
        ctrl.iobase = IDE_IOBASE_PRIMARY;
    }
    ctrl.control = control;
    let d0 = IdeDiskT {
        name: name8(0x68, 0x64, 0x61 + (cidx as u8) * 2, 0),
        ..IdeDiskT::new(ctrl_addr, IDE_LBA_MASTER, true, 0, 0, 0, 0)
    };
    let d1 = IdeDiskT {
        name: name8(0x68, 0x64, 0x61 + (cidx as u8) * 2 + 1, 0),
        ..IdeDiskT::new(ctrl_addr, IDE_LBA_SLAVE, false, 0, 0, 0, 0)
    };
    ctrl.disks = [d0, d1];
    ctrl
}

} // verus!
