use vstd::prelude::*;
use vstd::multiset::Multiset;
use vstd::arithmetic::power2::pow2;
use buddy_system_allocator::FrameAllocator;

verus! {

pub const PAGE_SHIFT: u64 = 12;
pub const PAGE_SIZE: u64 = 4096;
pub const MAX_USER_STACK_SIZE: u64 = 8 * 1024 * 1024;
pub const KERNEL_START: u64 = 0xffff800000100000;
pub const VIRTADDR_START: u64 = 0xffff800000000000;
pub const PHYADDR_START: u64 = 0x100000;
pub const LINEAR_MAP_AREA_START: u64 = 0xffff880000000000;
pub const LINEAR_MAP_ARREA_END: u64 = 0xffffc80000000000;
pub const USER_STACK_TOP: u64 = 0x00007ffffffff000;
pub const USER_STACK_BOTTOM: u64 = 0x00007ffffffff000 - 8 * 1024 * 1024;
pub const MMAP_START: u64 = 0x30000000000000;
/// The linear-map address of the first byte of managed physical memory.
pub const LINEAR_PHYS_BASE: u64 = 0xffff880000100000;

/// `a - b` modulo 2^64.
pub open spec fn wsub(a: u64, b: u64) -> u64 {
    if a >= b { (a - b) as u64 } else { (a - b + 0x1_0000_0000_0000_0000) as u64 }
}

pub const CLONE_CSIGNAL: u64 = 0x000000ff;
pub const CLONE_VM: u64 = 0x00000100;
pub const CLONE_FS: u64 = 0x00000200;
pub const CLONE_FILES: u64 = 0x00000400;
pub const CLONE_SIGHAND: u64 = 0x00000800;
pub const CLONE_PIDFD: u64 = 0x00001000;
pub const CLONE_PTRACE: u64 = 0x00002000;
pub const CLONE_VFORK: u64 = 0x00004000;
pub const CLONE_PARENT: u64 = 0x00008000;
pub const CLONE_THREAD: u64 = 0x00010000;
pub const CLONE_NEWNS: u64 = 0x00020000;
pub const CLONE_SYSVSEM: u64 = 0x00040000;
pub const CLONE_SETTLS: u64 = 0x00080000;
pub const CLONE_PARENT_SETTID: u64 = 0x00100000;
pub const CLONE_CHILD_CLEARTID: u64 = 0x00200000;
pub const CLONE_DETACHED: u64 = 0x00400000;
pub const CLONE_UNTRACED: u64 = 0x00800000;
pub const CLONE_CHILD_SETTID: u64 = 0x01000000;
pub const CLONE_NEWCGROUP: u64 = 0x02000000;
pub const CLONE_NEWUTS: u64 = 0x04000000;
pub const CLONE_NEWIPC: u64 = 0x08000000;
pub const CLONE_NEWUSER: u64 = 0x10000000;
pub const CLONE_NEWPID: u64 = 0x20000000;
pub const CLONE_NEWNET: u64 = 0x40000000;
pub const CLONE_IO: u64 = 0x80000000;
pub const CLONE_CLEAR_SIGHAND: u64 = 0x100000000;
pub const CLONE_INTO_CGROUP: u64 = 0x200000000;
pub const CLONE_NEWTIME: u64 = 0x00000080;

/// The page frame number of a physical address (counted from the start of
/// physical memory that the kernel manages).
pub fn phys2page(phys: u64) -> (p: u64)
    ensures p == (wsub(phys, PHYADDR_START) >> 12u64),
{
    phys.wrapping_sub(PHYADDR_START) >> PAGE_SHIFT
}

/// The page frame number of an address in the linear map.
pub fn virt2page(addr: u64) -> (p: u64)
    ensures p == (wsub(addr, LINEAR_PHYS_BASE) >> 12u64),
{
    addr.wrapping_sub(LINEAR_PHYS_BASE) >> PAGE_SHIFT
}

/// Shifting a frame number up by twelve bits multiplies it by the page
/// size, and shifting the product down gives the frame back.
pub proof fn lemma_page_shift(page: u64)
    by (bit_vector)
    requires
        page < 0xffff_ffff_ff00u64,
    ensures
        page << 12u64 == page * 4096,
        (page * 4096) as u64 >> 12u64 == page,
{
}

/// The physical address of a page frame.
pub fn page2phys(page: u64) -> (a: u64)
    requires
        page < 0xffff_ffff_ff00,
    ensures
        a == PHYADDR_START + page * 4096,
{
    proof { lemma_page_shift(page); }
    PHYADDR_START + (page << PAGE_SHIFT)
}

/// The address of a page frame in the linear map.
pub fn page2virt(page: u64) -> (a: u64)
    requires
        page < 0x7_7fff_ff00,
    ensures
        a == LINEAR_MAP_AREA_START + page * 4096 + PHYADDR_START,
{
    proof { lemma_page_shift(page); }
    (LINEAR_MAP_AREA_START + (page << PAGE_SHIFT)) + PHYADDR_START
}

/// The address in the linear map of a physical address.
pub fn phys2virt(paddr: u64) -> (a: u64)
    requires
        (wsub(paddr, PHYADDR_START) >> 12u64) < 0x7_7fff_ff00,
    ensures
        a == LINEAR_MAP_AREA_START + (wsub(paddr, PHYADDR_START) >> 12u64) * 4096 + PHYADDR_START,
{
    page2virt(phys2page(paddr))
}

/// The physical address of an address in the linear map.
pub fn virt2phys(virt: u64) -> (a: u64)
    requires
        (wsub(virt, LINEAR_PHYS_BASE) >> 12u64) < 0xffff_ffff_ff00,
    ensures
        a == PHYADDR_START + (wsub(virt, LINEAR_PHYS_BASE) >> 12u64) * 4096,
{
    page2phys(virt2page(virt))
}

/// A page frame taken to the linear map and back gives the same frame.
pub proof fn lemma_page_virt_round_trip(page: u64)
    requires
        page < 0x7_7fff_ff00,
    ensures
        wsub((LINEAR_MAP_AREA_START + page * 4096 + PHYADDR_START) as u64, LINEAR_PHYS_BASE) >> 12u64 == page,
{
    let v: u64 = (LINEAR_MAP_AREA_START + page * 4096 + PHYADDR_START) as u64;
    assert(wsub(v, LINEAR_PHYS_BASE) == page * 4096);
    lemma_page_shift(page);
}

/// A page frame taken to its physical address and back gives the same
/// frame.
pub proof fn lemma_page_phys_round_trip(page: u64)
    requires
        page < 0xffff_ffff_ff00,
    ensures
        wsub((PHYADDR_START + page * 4096) as u64, PHYADDR_START) >> 12u64 == page,
{
    lemma_page_shift(page);
}

/// The start of the page that holds `addr`.
pub fn get_page_start(addr: u64) -> (a: u64)
    ensures a == addr & 0xfffffffffffff000u64,
{
    addr & 0xfffffffffffff000
}

/// The table indices of an address are below 512, and its low 20 bits
/// are below 2^20.
proof fn lemma_index_bounds(ptr: u64)
    by (bit_vector)
    ensures
        ptr & 0xfffffu64 <= 0xfffffu64,
        (ptr >> 30u64) & 0x1ffu64 < 512u64,
        (ptr >> 21u64) & 0x1ffu64 < 512u64,
        (ptr >> 12u64) & 0x1ffu64 < 512u64,
        (ptr >> 39u64) & 0x1ffu64 < 512u64,
{
}

/// The offset of `ptr` in its page as this kernel computes it (the low 20
/// bits).
pub fn get_inpage_offset(ptr: u64) -> (o: usize)
    ensures o == ptr & 0xfffffu64,
{
    proof { lemma_index_bounds(ptr); }
    (ptr & 0xfffff) as usize
}

/// Index of the level-3 (page directory pointer) entry for `ptr`.
pub fn get_pdpt_offset(ptr: u64) -> (o: usize)
    ensures o == (ptr >> 30u64) & 0x1ffu64, o < 512,
{
    proof { lemma_index_bounds(ptr); }
    ((ptr >> 30) & 0x1ff) as usize
}

/// Index of the level-2 (page directory) entry for `ptr`.
pub fn get_pdt_offset(ptr: u64) -> (o: usize)
    ensures o == (ptr >> 21u64) & 0x1ffu64, o < 512,
{
    proof { lemma_index_bounds(ptr); }
    ((ptr >> 21) & 0x1ff) as usize
}

/// Index of the level-1 (page table) entry for `ptr`.
pub fn get_pt_offset(ptr: u64) -> (o: usize)
    ensures o == (ptr >> 12u64) & 0x1ffu64, o < 512,
{
    proof { lemma_index_bounds(ptr); }
    ((ptr >> 12) & 0x1ff) as usize
}

/// Index of the level-4 entry for `ptr`.
pub fn get_pml4_offset(ptr: u64) -> (o: usize)
    ensures o == (ptr >> 39u64) & 0x1ffu64, o < 512,
{
    proof { lemma_index_bounds(ptr); }
    ((ptr >> 39) & 0x1ff) as usize
}

/// The four table indices of an address and its offset in the page give
/// back the low 48 bits of the address.
pub proof fn lemma_address_decomposition(a: u64)
    ensures
        ((((a >> 39u64) & 0x1ffu64) << 39u64) | (((a >> 30u64) & 0x1ffu64) << 30u64)
            | (((a >> 21u64) & 0x1ffu64) << 21u64) | (((a >> 12u64) & 0x1ffu64) << 12u64)
            | (a & 0xfffu64)) == a & 0xffff_ffff_ffffu64,
{
    assert(((((a >> 39u64) & 0x1ffu64) << 39u64) | (((a >> 30u64) & 0x1ffu64) << 30u64)
            | (((a >> 21u64) & 0x1ffu64) << 21u64) | (((a >> 12u64) & 0x1ffu64) << 12u64)
            | (a & 0xfffu64)) == a & 0xffff_ffff_ffffu64) by (bit_vector);
}

/// The field of `raw` that starts at bit `lsb` and is `mask` wide.
pub open spec fn spec_bits(raw: u64, lsb: u64, mask: u64) -> u64 {
    (raw >> lsb) & mask
}

/// `raw` with the field at bit `lsb`, `mask` wide, set to the low bits of
/// `value`.
pub open spec fn spec_set_bits(raw: u64, lsb: u64, mask: u64, value: u64) -> u64 {
    (raw & !(mask << lsb)) | ((value & mask) << lsb)
}

/// Setting a one-bit field and reading it back gives the low bit of the
/// value; the bits outside the field keep their values.
pub proof fn lemma_set_bit_field(raw: u64, lsb: u64, value: u64, other: u64)
    requires
        lsb < 64,
        other < 64,
        other != lsb,
    ensures
        spec_bits(spec_set_bits(raw, lsb, 1, value), lsb, 1) == value & 1,
        (spec_set_bits(raw, lsb, 1, value) >> other) & 1 == (raw >> other) & 1,
{
    assert(((((raw & !(1u64 << lsb)) | ((value & 1u64) << lsb)) >> lsb) & 1u64) == value & 1u64
        && (((raw & !(1u64 << lsb)) | ((value & 1u64) << lsb)) >> other) & 1u64 == (raw >> other) & 1u64)
        by (bit_vector) requires lsb < 64u64, other < 64u64, other != lsb;
}

/// Setting the frame-number field (bits 12..=63) and reading it back gives
/// the value's low 52 bits; the low twelve bits keep their values.
pub proof fn lemma_set_page_offset(raw: u64, value: u64)
    ensures
        spec_bits(spec_set_bits(raw, 12, 0xfffffffffffff, value), 12, 0xfffffffffffff) == value & 0xfffffffffffff,
        spec_set_bits(raw, 12, 0xfffffffffffff, value) & 0xfff == raw & 0xfff,
{
    assert(((((raw & !(0xfffffffffffffu64 << 12u64)) | ((value & 0xfffffffffffffu64) << 12u64)) >> 12u64) & 0xfffffffffffffu64)
        == value & 0xfffffffffffffu64
        && ((raw & !(0xfffffffffffffu64 << 12u64)) | ((value & 0xfffffffffffffu64) << 12u64)) & 0xfffu64 == raw & 0xfffu64)
        by (bit_vector);
}

/// An entry of a level-4, level-3 or level-2 page table.
#[derive(Clone, Copy)]
pub struct Pml4Entry(pub u64);

impl Pml4Entry {
    /// Bits 0..=0 of the entry.
    pub fn get_present(&self) -> (v: u64)
        ensures v == spec_bits(self.0, 0, 0x1),
    {
        (self.0 >> 0u64) & 0x1u64
    }

    /// Sets bits 0..=0 of the entry to the low 1 bits of `value`,
    /// leaving the other bits as they were.
    pub fn set_present(&mut self, value: u64)
        ensures final(self).0 == spec_set_bits(old(self).0, 0, 0x1, value),
    {
        self.0 = (self.0 & !(0x1u64 << 0u64)) | ((value & 0x1u64) << 0u64);
    }

    /// Bits 1..=1 of the entry.
    pub fn get_wr(&self) -> (v: u64)
        ensures v == spec_bits(self.0, 1, 0x1),
    {
        (self.0 >> 1u64) & 0x1u64
    }

    /// Sets bits 1..=1 of the entry to the low 1 bits of `value`,
    /// leaving the other bits as they were.
    pub fn set_wr(&mut self, value: u64)
        ensures final(self).0 == spec_set_bits(old(self).0, 1, 0x1, value),
    {
        self.0 = (self.0 & !(0x1u64 << 1u64)) | ((value & 0x1u64) << 1u64);
    }

    /// Bits 2..=2 of the entry.
    pub fn get_us(&self) -> (v: u64)
        ensures v == spec_bits(self.0, 2, 0x1),
    {
        (self.0 >> 2u64) & 0x1u64
    }

    /// Sets bits 2..=2 of the entry to the low 1 bits of `value`,
    /// leaving the other bits as they were.
    pub fn set_us(&mut self, value: u64)
        ensures final(self).0 == spec_set_bits(old(self).0, 2, 0x1, value),
    {
        self.0 = (self.0 & !(0x1u64 << 2u64)) | ((value & 0x1u64) << 2u64);
    }

    /// Bits 3..=3 of the entry.
    pub fn get_pwt(&self) -> (v: u64)
        ensures v == spec_bits(self.0, 3, 0x1),
    {
        (self.0 >> 3u64) & 0x1u64
    }

    /// Sets bits 3..=3 of the entry to the low 1 bits of `value`,
    /// leaving the other bits as they were.
    pub fn set_pwt(&mut self, value: u64)
        ensures final(self).0 == spec_set_bits(old(self).0, 3, 0x1, value),
    {
        self.0 = (self.0 & !(0x1u64 << 3u64)) | ((value & 0x1u64) << 3u64);
    }

    /// Bits 4..=4 of the entry.
    pub fn get_pcd(&self) -> (v: u64)
        ensures v == spec_bits(self.0, 4, 0x1),
    {
        (self.0 >> 4u64) & 0x1u64
    }

    /// Sets bits 4..=4 of the entry to the low 1 bits of `value`,
    /// leaving the other bits as they were.
    pub fn set_pcd(&mut self, value: u64)
        ensures final(self).0 == spec_set_bits(old(self).0, 4, 0x1, value),
    {
        self.0 = (self.0 & !(0x1u64 << 4u64)) | ((value & 0x1u64) << 4u64);
    }

    /// Bits 5..=5 of the entry.
    pub fn get_accessed(&self) -> (v: u64)
        ensures v == spec_bits(self.0, 5, 0x1),
    {
        (self.0 >> 5u64) & 0x1u64
    }

    /// Sets bits 5..=5 of the entry to the low 1 bits of `value`,
    /// leaving the other bits as they were.
    pub fn set_accessed(&mut self, value: u64)
        ensures final(self).0 == spec_set_bits(old(self).0, 5, 0x1, value),
    {
        self.0 = (self.0 & !(0x1u64 << 5u64)) | ((value & 0x1u64) << 5u64);
    }

    /// Bits 6..=6 of the entry.
    pub fn get_dirty(&self) -> (v: u64)
        ensures v == spec_bits(self.0, 6, 0x1),
    {
        (self.0 >> 6u64) & 0x1u64
    }

    /// Sets bits 6..=6 of the entry to the low 1 bits of `value`,
    /// leaving the other bits as they were.
    pub fn set_dirty(&mut self, value: u64)
        ensures final(self).0 == spec_set_bits(old(self).0, 6, 0x1, value),
    {
        self.0 = (self.0 & !(0x1u64 << 6u64)) | ((value & 0x1u64) << 6u64);
    }

    /// Bits 7..=7 of the entry.
    pub fn get_ps(&self) -> (v: u64)
        ensures v == spec_bits(self.0, 7, 0x1),
    {
        (self.0 >> 7u64) & 0x1u64
    }

    /// Sets bits 7..=7 of the entry to the low 1 bits of `value`,
    /// leaving the other bits as they were.
    pub fn set_ps(&mut self, value: u64)
        ensures final(self).0 == spec_set_bits(old(self).0, 7, 0x1, value),
    {
        self.0 = (self.0 & !(0x1u64 << 7u64)) | ((value & 0x1u64) << 7u64);
    }

    /// Bits 8..=8 of the entry.
    pub fn get_global(&self) -> (v: u64)
        ensures v == spec_bits(self.0, 8, 0x1),
    {
        (self.0 >> 8u64) & 0x1u64
    }

    /// Sets bits 8..=8 of the entry to the low 1 bits of `value`,
    /// leaving the other bits as they were.
    pub fn set_global(&mut self, value: u64)
        ensures final(self).0 == spec_set_bits(old(self).0, 8, 0x1, value),
    {
        self.0 = (self.0 & !(0x1u64 << 8u64)) | ((value & 0x1u64) << 8u64);
    }

    /// Bits 9..=11 of the entry.
    pub fn get_avl(&self) -> (v: u64)
        ensures v == spec_bits(self.0, 9, 0x7),
    {
        (self.0 >> 9u64) & 0x7u64
    }

    /// Sets bits 9..=11 of the entry to the low 3 bits of `value`,
    /// leaving the other bits as they were.
    pub fn set_avl(&mut self, value: u64)
        ensures final(self).0 == spec_set_bits(old(self).0, 9, 0x7, value),
    {
        self.0 = (self.0 & !(0x7u64 << 9u64)) | ((value & 0x7u64) << 9u64);
    }

    /// Bits 12..=63 of the entry.
    pub fn get_page_offset(&self) -> (v: u64)
        ensures v == spec_bits(self.0, 12, 0xfffffffffffff),
    {
        (self.0 >> 12u64) & 0xfffffffffffffu64
    }

    /// Sets bits 12..=63 of the entry to the low 52 bits of `value`,
    /// leaving the other bits as they were.
    pub fn set_page_offset(&mut self, value: u64)
        ensures final(self).0 == spec_set_bits(old(self).0, 12, 0xfffffffffffff, value),
    {
        self.0 = (self.0 & !(0xfffffffffffffu64 << 12u64)) | ((value & 0xfffffffffffffu64) << 12u64);
    }

}

/// An entry of a level-1 page table.
#[derive(Clone, Copy)]
pub struct PtEntry(pub u64);

impl PtEntry {
    /// Bits 0..=0 of the entry.
    pub fn get_present(&self) -> (v: u64)
        ensures v == spec_bits(self.0, 0, 0x1),
    {
        (self.0 >> 0u64) & 0x1u64
    }

    /// Sets bits 0..=0 of the entry to the low 1 bits of `value`,
    /// leaving the other bits as they were.
    pub fn set_present(&mut self, value: u64)
        ensures final(self).0 == spec_set_bits(old(self).0, 0, 0x1, value),
    {
        self.0 = (self.0 & !(0x1u64 << 0u64)) | ((value & 0x1u64) << 0u64);
    }

    /// Bits 1..=1 of the entry.
    pub fn get_wr(&self) -> (v: u64)
        ensures v == spec_bits(self.0, 1, 0x1),
    {
        (self.0 >> 1u64) & 0x1u64
    }

    /// Sets bits 1..=1 of the entry to the low 1 bits of `value`,
    /// leaving the other bits as they were.
    pub fn set_wr(&mut self, value: u64)
        ensures final(self).0 == spec_set_bits(old(self).0, 1, 0x1, value),
    {
        self.0 = (self.0 & !(0x1u64 << 1u64)) | ((value & 0x1u64) << 1u64);
    }

    /// Bits 2..=2 of the entry.
    pub fn get_us(&self) -> (v: u64)
        ensures v == spec_bits(self.0, 2, 0x1),
    {
        (self.0 >> 2u64) & 0x1u64
    }

    /// Sets bits 2..=2 of the entry to the low 1 bits of `value`,
    /// leaving the other bits as they were.
    pub fn set_us(&mut self, value: u64)
        ensures final(self).0 == spec_set_bits(old(self).0, 2, 0x1, value),
    {
        self.0 = (self.0 & !(0x1u64 << 2u64)) | ((value & 0x1u64) << 2u64);
    }

    /// Bits 3..=3 of the entry.
    pub fn get_pwt(&self) -> (v: u64)
        ensures v == spec_bits(self.0, 3, 0x1),
    {
        (self.0 >> 3u64) & 0x1u64
    }

    /// Sets bits 3..=3 of the entry to the low 1 bits of `value`,
    /// leaving the other bits as they were.
    pub fn set_pwt(&mut self, value: u64)
        ensures final(self).0 == spec_set_bits(old(self).0, 3, 0x1, value),
    {
        self.0 = (self.0 & !(0x1u64 << 3u64)) | ((value & 0x1u64) << 3u64);
    }

    /// Bits 4..=4 of the entry.
    pub fn get_pcd(&self) -> (v: u64)
        ensures v == spec_bits(self.0, 4, 0x1),
    {
        (self.0 >> 4u64) & 0x1u64
    }

    /// Sets bits 4..=4 of the entry to the low 1 bits of `value`,
    /// leaving the other bits as they were.
    pub fn set_pcd(&mut self, value: u64)
        ensures final(self).0 == spec_set_bits(old(self).0, 4, 0x1, value),
    {
        self.0 = (self.0 & !(0x1u64 << 4u64)) | ((value & 0x1u64) << 4u64);
    }

    /// Bits 5..=5 of the entry.
    pub fn get_accessed(&self) -> (v: u64)
        ensures v == spec_bits(self.0, 5, 0x1),
    {
        (self.0 >> 5u64) & 0x1u64
    }

    /// Sets bits 5..=5 of the entry to the low 1 bits of `value`,
    /// leaving the other bits as they were.
    pub fn set_accessed(&mut self, value: u64)
        ensures final(self).0 == spec_set_bits(old(self).0, 5, 0x1, value),
    {
        self.0 = (self.0 & !(0x1u64 << 5u64)) | ((value & 0x1u64) << 5u64);
    }

    /// Bits 6..=6 of the entry.
    pub fn get_dirty(&self) -> (v: u64)
        ensures v == spec_bits(self.0, 6, 0x1),
    {
        (self.0 >> 6u64) & 0x1u64
    }

    /// Sets bits 6..=6 of the entry to the low 1 bits of `value`,
    /// leaving the other bits as they were.
    pub fn set_dirty(&mut self, value: u64)
        ensures final(self).0 == spec_set_bits(old(self).0, 6, 0x1, value),
    {
        self.0 = (self.0 & !(0x1u64 << 6u64)) | ((value & 0x1u64) << 6u64);
    }

    /// Bits 7..=7 of the entry.
    pub fn get_pat(&self) -> (v: u64)
        ensures v == spec_bits(self.0, 7, 0x1),
    {
        (self.0 >> 7u64) & 0x1u64
    }

    /// Sets bits 7..=7 of the entry to the low 1 bits of `value`,
    /// leaving the other bits as they were.
    pub fn set_pat(&mut self, value: u64)
        ensures final(self).0 == spec_set_bits(old(self).0, 7, 0x1, value),
    {
        self.0 = (self.0 & !(0x1u64 << 7u64)) | ((value & 0x1u64) << 7u64);
    }

    /// Bits 8..=8 of the entry.
    pub fn get_global(&self) -> (v: u64)
        ensures v == spec_bits(self.0, 8, 0x1),
    {
        (self.0 >> 8u64) & 0x1u64
    }

    /// Sets bits 8..=8 of the entry to the low 1 bits of `value`,
    /// leaving the other bits as they were.
    pub fn set_global(&mut self, value: u64)
        ensures final(self).0 == spec_set_bits(old(self).0, 8, 0x1, value),
    {
        self.0 = (self.0 & !(0x1u64 << 8u64)) | ((value & 0x1u64) << 8u64);
    }

    /// Bits 9..=11 of the entry.
    pub fn get_avl(&self) -> (v: u64)
        ensures v == spec_bits(self.0, 9, 0x7),
    {
        (self.0 >> 9u64) & 0x7u64
    }

    /// Sets bits 9..=11 of the entry to the low 3 bits of `value`,
    /// leaving the other bits as they were.
    pub fn set_avl(&mut self, value: u64)
        ensures final(self).0 == spec_set_bits(old(self).0, 9, 0x7, value),
    {
        self.0 = (self.0 & !(0x7u64 << 9u64)) | ((value & 0x7u64) << 9u64);
    }

    /// Bits 12..=63 of the entry.
    pub fn get_page_offset(&self) -> (v: u64)
        ensures v == spec_bits(self.0, 12, 0xfffffffffffff),
    {
        (self.0 >> 12u64) & 0xfffffffffffffu64
    }

    /// Sets bits 12..=63 of the entry to the low 52 bits of `value`,
    /// leaving the other bits as they were.
    pub fn set_page_offset(&mut self, value: u64)
        ensures final(self).0 == spec_set_bits(old(self).0, 12, 0xfffffffffffff, value),
    {
        self.0 = (self.0 & !(0xfffffffffffffu64 << 12u64)) | ((value & 0xfffffffffffffu64) << 12u64);
    }

}

/// A page table of 512 entries (all levels above the last share this form).
pub struct Pml4 {
    pub entry: [Pml4Entry; 512],
}

/// The last level of page table.
pub struct Pt {
    pub entry: [PtEntry; 512],
}


/// Declares the buddy frame allocator of `buddy_system_allocator`.
#[verifier::external_type_specification]
#[verifier::external_body]
pub struct ExFrameAllocator<const ORDER: usize>(FrameAllocator<ORDER>);

/// The frames that a buddy frame allocator holds in its free blocks, each
/// frame counted once for every free block that covers it.
pub uninterp spec fn frame_allocator_free(a: FrameAllocator<33>) -> Multiset<usize>;

/// The free blocks of a buddy frame allocator, each as its order and its
/// first frame: the block holds the `2^order` frames from there on.
pub uninterp spec fn frame_allocator_blocks(a: FrameAllocator<33>) -> Set<(usize, usize)>;

/// Some free block among `blocks` is large enough for `count` frames:
/// its order is at least that of `next_pow2(count)`.
pub open spec fn has_block_for(blocks: Set<(usize, usize)>, count: usize) -> bool {
    exists|i: usize, s: usize| #[trigger] blocks.contains((i, s)) && pow2(i as nat) >= next_pow2(count as nat)
}

/// The number of frames added to a buddy frame allocator since it was made.
pub uninterp spec fn frame_allocator_added(a: FrameAllocator<33>) -> nat;

/// The `n` frames from `start` on, each once.
pub open spec fn frame_block(start: usize, n: nat) -> Multiset<usize>
    decreases n,
{
    if n == 0 {
        Multiset::empty()
    } else {
        frame_block(start, (n - 1) as nat).insert((start + n - 1) as usize)
    }
}

/// The least power of two that is at least `n`, searched from `p` on by
/// doubling.
pub open spec fn pow2_from(n: nat, p: nat) -> nat
    decreases 2 * n - p,
{
    if p == 0 || p >= n {
        p
    } else {
        pow2_from(n, p * 2)
    }
}

/// The least power of two that is at least `n` (1 for 0), the size of the
/// block that the buddy allocator hands out for `n` frames.
pub open spec fn next_pow2(n: nat) -> nat {
    pow2_from(n, 1)
}

/// `FrameAllocator::new`: the allocator holds no frame and none was added.
#[verifier::external_body]
fn frame_allocator_new() -> (a: FrameAllocator<33>)
    ensures
        frame_allocator_free(a) == Multiset::<usize>::empty(),
        frame_allocator_blocks(a) == Set::<(usize, usize)>::empty(),
        frame_allocator_added(a) == 0,
{
    FrameAllocator::<33>::new()
}

/// `FrameAllocator::insert`: the frames `start..end`, none of them free
/// already, join the free frames. The allocator adds the count of frames
/// to its total with `+=`, which must not overflow; it asserts
/// `start <= end`. (Frames that are free already would not be counted
/// twice where their blocks coincide, so they are left out. The largest
/// block it makes is 2^32 frames, which a 64-bit `usize` holds.) The free blocks it had stay; the first new block starts at
/// `start`. How the rest of the range is cut into blocks is not stated.
#[verifier::external_body]
fn frame_allocator_insert(a: &mut FrameAllocator<33>, start: usize, end: usize)
    requires
        usize::BITS == 64,
        start <= end,
        frame_allocator_added(*old(a)) + (end - start) <= usize::MAX,
        forall|f: usize| start <= f < end ==> #[trigger] frame_allocator_free(*old(a)).count(f) == 0,
    ensures
        frame_allocator_free(*final(a)) == frame_allocator_free(*old(a)).add(frame_block(start, (end - start) as nat)),
        frame_allocator_added(*final(a)) == frame_allocator_added(*old(a)) + (end - start),
        frame_allocator_blocks(*old(a)).subset_of(frame_allocator_blocks(*final(a))),
        start < end ==> exists|i: usize| #[trigger] frame_allocator_blocks(*final(a)).contains((i, start)),
{
    a.insert(start..end)
}

/// `FrameAllocator::alloc`: on `Some(s)` a free block of
/// `next_pow2(count)` frames from `s` on left the free frames; on `None`
/// nothing changed. `count.next_power_of_two()` must not overflow. For a
/// single frame (`count` at most 1) the search takes any free block and
/// splits it, so a frame is handed out whenever one is free. In general it
/// succeeds exactly when some free block is of the order of
/// `next_pow2(count)` or above: it splits the first such down to that
/// order. Which block is taken, and the free blocks after a success, are
/// not stated.
#[verifier::external_body]
fn frame_allocator_alloc(a: &mut FrameAllocator<33>, count: usize) -> (r: Option<usize>)
    requires
        next_pow2(count as nat) <= usize::MAX,
    ensures
        count <= 1 && frame_allocator_free(*old(a)).len() > 0 ==> r.is_some(),
        r.is_some() <==> has_block_for(frame_allocator_blocks(*old(a)), count),
        match r {
            None => *final(a) == *old(a),
            Some(s) => {
                &&& frame_block(s, next_pow2(count as nat)).subset_of(frame_allocator_free(*old(a)))
                &&& frame_allocator_free(*final(a)) == frame_allocator_free(*old(a)).sub(frame_block(s, next_pow2(count as nat)))
                &&& frame_allocator_added(*final(a)) == frame_allocator_added(*old(a))
            },
        },
{
    a.alloc(count)
}

/// Doubling from a positive `p` reaches a power at least `n` and at least
/// `p`, below `2 * n` unless it stopped at `p` itself.
pub proof fn lemma_pow2_from(n: nat, p: nat)
    requires
        p > 0,
    ensures
        pow2_from(n, p) >= n,
        pow2_from(n, p) >= p,
        pow2_from(n, p) == p || pow2_from(n, p) < 2 * n,
    decreases 2 * n - p,
{
    if p < n {
        lemma_pow2_from(n, p * 2);
    }
}

/// A block of `n` frames holds `n` frames, the `k`-th of them for every
/// `k < n`.
pub proof fn lemma_frame_block(start: usize, n: nat)
    ensures
        frame_block(start, n).len() == n,
        forall|k: nat| k < n ==> #[trigger] frame_block(start, n).count((start + k) as usize) >= 1,
    decreases n,
{
    broadcast use vstd::multiset::group_multiset_axioms;
    broadcast use vstd::multiset::group_multiset_properties;
    if n > 0 {
        lemma_frame_block(start, (n - 1) as nat);
        let prev = frame_block(start, (n - 1) as nat);
        let x = (start + n - 1) as usize;
        assert(frame_block(start, n) == prev.insert(x));
        assert forall|k: nat| k < n implies #[trigger] frame_block(start, n).count((start + k) as usize) >= 1 by {
            if k < n - 1 {
                assert(prev.count((start + k) as usize) >= 1);
            }
        }
    }
}

/// A page frame's descriptor: its reference count and flags.
#[derive(Clone, Copy)]
pub struct Page {
    pub refcount: u32,
    pub flags: u32,
}

/// The physical page frames: a descriptor per frame, the lowest frame that
/// may still be free for the boot-time allocator, the count of free
/// frames, and the buddy allocator that hands out frames after boot.
pub struct MemoryPool {
    pub mem_map: Vec<Page>,
    pub lowest_idx: usize,
    pub free_pages: usize,
    pub frame_allocator: FrameAllocator<33>,
}

/// `new` is `old` after `n` frames were taken by the buddy allocator from
/// the block of `next_pow2(n)` frames that starts at `s`: the block left
/// the free frames, the first `n` frames of it gained a reference, and the
/// count of free pages dropped by `n`.
pub open spec fn frames_taken(old_p: MemoryPool, new_p: MemoryPool, s: usize, n: usize) -> bool {
    let block = frame_block(s, next_pow2(n as nat));
    &&& block.subset_of(old_p.free_frames())
    &&& new_p.free_frames() == old_p.free_frames().sub(block)
    &&& frame_allocator_added(new_p.frame_allocator) == frame_allocator_added(old_p.frame_allocator)
    &&& new_p.mem_map@.len() == old_p.mem_map@.len()
    &&& forall|i: int| s <= i < s + n ==> new_p.mem_map@[i].refcount == old_p.mem_map@[i].refcount + 1
            && #[trigger] new_p.mem_map@[i].flags == old_p.mem_map@[i].flags
    &&& forall|i: int| 0 <= i < old_p.mem_map@.len() && !(s <= i < s + n) ==> #[trigger] new_p.mem_map@[i] == old_p.mem_map@[i]
    &&& new_p.free_pages == old_p.free_pages - n
    &&& new_p.lowest_idx == old_p.lowest_idx
}

/// Two allocations in a row from a well-formed pool hand out blocks with
/// no frame in common.
pub proof fn lemma_allocations_disjoint(p0: MemoryPool, p1: MemoryPool, p2: MemoryPool, s1: usize, n1: usize, s2: usize, n2: usize)
    requires
        p0.wf(),
        frames_taken(p0, p1, s1, n1),
        frames_taken(p1, p2, s2, n2),
    ensures
        forall|f: usize| #[trigger] frame_block(s1, next_pow2(n1 as nat)).count(f) > 0
            ==> frame_block(s2, next_pow2(n2 as nat)).count(f) == 0,
{
    broadcast use vstd::multiset::group_multiset_axioms;
    let b1 = frame_block(s1, next_pow2(n1 as nat));
    let b2 = frame_block(s2, next_pow2(n2 as nat));
    assert forall|f: usize| #[trigger] b1.count(f) > 0 implies b2.count(f) == 0 by {
        assert(b1.count(f) <= p0.free_frames().count(f));
        assert(p0.free_frames().count(f) == 1);
        assert(p1.free_frames().count(f) == 0);
        assert(b2.count(f) <= p1.free_frames().count(f));
    }
}

impl MemoryPool {
    /// The frames that the buddy allocator holds as free.
    pub open spec fn free_frames(&self) -> Multiset<usize> {
        frame_allocator_free(self.frame_allocator)
    }

    /// The free blocks of the buddy allocator, by order and first frame.
    pub open spec fn free_blocks(&self) -> Set<(usize, usize)> {
        frame_allocator_blocks(self.frame_allocator)
    }

    /// Every frame that the buddy allocator may hand out is held once, has
    /// a descriptor, and has no reference; the count of free pages covers
    /// them; every frame has an address in the linear map.
    pub open spec fn wf(&self) -> bool {
        &&& self.mem_map@.len() <= 0x7_7fff_ff00
        &&& forall|f: usize| #[trigger] self.free_frames().count(f) > 0 ==> {
                &&& self.free_frames().count(f) == 1
                &&& f < self.mem_map@.len()
                &&& self.mem_map@[f as int].refcount == 0
            }
        &&& self.free_frames().len() <= self.free_pages
    }

    /// An empty pool.
    pub fn new() -> (p: MemoryPool)
        ensures
            p.mem_map@.len() == 0,
            p.lowest_idx == 0,
            p.free_pages == 0,
            p.free_frames() == Multiset::<usize>::empty(),
            frame_allocator_added(p.frame_allocator) == 0,
            p.wf(),
    {
        let p = MemoryPool { mem_map: Vec::new(), lowest_idx: 0, free_pages: 0, frame_allocator: frame_allocator_new() };
        proof {
            broadcast use vstd::multiset::group_multiset_axioms;
        }
        p
    }

    /// Takes `page_num` frames from the buddy allocator and returns the
    /// linear-map address of the first, or 0 (null) when the allocator has
    /// no free block of their order or above, leaving the pool as it was.
    /// A single frame is always had while any frame is free.
    pub fn alloc_frames(&mut self, page_num: usize) -> (r: u64)
        requires
            old(self).wf(),
            next_pow2(page_num as nat) <= usize::MAX,
        ensures
            final(self).wf(),
            r == 0 ==> *final(self) == *old(self),
            page_num <= 1 && old(self).free_frames().len() > 0 ==> r != 0,
            r != 0 <==> has_block_for(old(self).free_blocks(), page_num),
            r != 0 ==> exists|s: usize| #[trigger] frames_taken(*old(self), *final(self), s, page_num)
                && r == LINEAR_MAP_AREA_START + s * 4096 + PHYADDR_START,
    {
        let ghost old_p: MemoryPool = *self;
        match frame_allocator_alloc(&mut self.frame_allocator, page_num) {
            None => 0,
            Some(start) => {
                let ghost size: nat = next_pow2(page_num as nat);
                let ghost block = frame_block(start, size);
                proof {
                    broadcast use vstd::multiset::group_multiset_axioms;
                    lemma_pow2_from(page_num as nat, 1);
                    lemma_frame_block(start, size);
                    assert(block.count((start + 0nat) as usize) >= 1);
                    assert(old_p.free_frames().count(start) >= 1);
                }
                let len: usize = self.mem_map.len();
                let ghost fa = self.frame_allocator;
                let mut var: usize = 0;
                while var < page_num
                    invariant
                        old_p.wf(),
                        len == self.mem_map@.len(),
                        self.frame_allocator == fa,
                        self.free_pages == old_p.free_pages,
                        self.lowest_idx == old_p.lowest_idx,
                        var <= page_num,
                        page_num <= size,
                        start < old_p.mem_map@.len(),
                        start + var <= self.mem_map@.len(),
                        block == frame_block(start, size),
                        block.subset_of(old_p.free_frames()),
                        forall|k: nat| k < size ==> #[trigger] block.count((start + k) as usize) >= 1,
                        self.mem_map@.len() == old_p.mem_map@.len(),
                        forall|i: int| start <= i < start + var ==> #[trigger] self.mem_map@[i].refcount == old_p.mem_map@[i].refcount + 1,
                        forall|i: int| start <= i < start + var ==> #[trigger] self.mem_map@[i].flags == old_p.mem_map@[i].flags,
                        forall|i: int| 0 <= i < old_p.mem_map@.len() && !(start <= i < start + var) ==> #[trigger] self.mem_map@[i] == old_p.mem_map@[i],
                    decreases page_num - var,
                {
                    let idx: usize = start + var;
                    proof {
                        assert(block.count((start + var as nat) as usize) >= 1);
                        assert(old_p.free_frames().count(idx) >= 1);
                    }
                    let mut p = self.mem_map[idx];
                    p.refcount = p.refcount + 1;
                    self.mem_map.set(idx, p);
                    var += 1;
                }
                proof {
                    broadcast use vstd::multiset::group_multiset_axioms;
                    assert(old_p.free_frames().sub(block).len() == old_p.free_frames().len() - block.len());
                    assert(old_p.free_frames().len() >= size);
                }
                self.free_pages = self.free_pages - page_num;
                proof {
                    broadcast use vstd::multiset::group_multiset_axioms;
                    assert forall|f: usize| #[trigger] self.free_frames().count(f) > 0 implies {
                        &&& self.free_frames().count(f) == 1
                        &&& f < self.mem_map@.len()
                        &&& self.mem_map@[f as int].refcount == 0
                    } by {
                        assert(old_p.free_frames().count(f) > 0);
                        if start <= f < start + page_num {
                            assert(block.count((start + (f - start) as nat) as usize) >= 1);
                        }
                    }
                    assert(frames_taken(old_p, *self, start, page_num));
                }
                page2virt(start as u64)
            },
        }
    }
}


/// The frame-number field value for a physical address: bits 12..=47.
pub open spec fn spec_page_idx(p_addr: u64) -> u64 {
    (p_addr >> 12u64) & 0xfffffffffu64
}

/// A page-table entry after `set_pml4`, `set_pdpt` or `set_pdt` filled it:
/// the frame of `paddr`, present, and the given writable, user and
/// big-page bits.
pub open spec fn spec_filled_entry(old_raw: u64, paddr: u64, big_page: bool, kernel_space: bool, writable: bool) -> u64 {
    let r1 = spec_set_bits(old_raw, 12, 0xfffffffffffff, spec_page_idx(paddr));
    let r2 = spec_set_bits(r1, 0, 1, 1);
    let r3 = spec_set_bits(r2, 1, 1, if writable { 1 } else { 0 });
    let r4 = spec_set_bits(r3, 2, 1, if !kernel_space { 1 } else { 0 });
    spec_set_bits(r4, 7, 1, if big_page { 1 } else { 0 })
}

/// The entry for `vaddr` in `table` at the index `idx`, filled when it was
/// not present; every other entry is left as it was.
pub open spec fn spec_table_set(old_t: Seq<Pml4Entry>, new_t: Seq<Pml4Entry>, idx: int, paddr: u64, big_page: bool, kernel_space: bool, writable: bool) -> bool {
    &&& new_t.len() == old_t.len()
    &&& forall|i: int| 0 <= i < old_t.len() && i != idx ==> new_t[i] == old_t[i]
    &&& new_t[idx].0 == (if spec_bits(old_t[idx].0, 0, 1) == 0 {
            spec_filled_entry(old_t[idx].0, paddr, big_page, kernel_space, writable)
        } else {
            old_t[idx].0
        })
}

fn fill_entry(table: &mut Pml4, var: usize, dst_paddr: u64, big_page: bool, kernel_space: bool, writable: bool)
    requires
        var < 512,
    ensures
        spec_table_set(old(table).entry@, final(table).entry@, var as int, dst_paddr, big_page, kernel_space, writable),
{
    if table.entry[var].get_present() == 0 {
        let mut e = table.entry[var];
        e.set_page_offset(MemoryPool::get_page_idx(dst_paddr));
        e.set_present(1);
        e.set_wr(writable as u64);
        e.set_us(!kernel_space as u64);
        e.set_ps(big_page as u64);
        table.entry[var] = e;
    }
}


/// `j` is the first frame at or after `from` whose reference count is zero.
pub open spec fn first_unused_from(mem_map: Seq<Page>, from: int, j: int) -> bool {
    &&& from <= j < mem_map.len()
    &&& mem_map[j].refcount == 0
    &&& forall|k: int| from <= k < j ==> #[trigger] mem_map[k].refcount != 0
}

/// A block of `n` frames from `start` on, when it does not run past the
/// largest frame number, holds exactly the frames `start..start + n`, once
/// each.
pub proof fn lemma_frame_block_exact(start: usize, n: nat)
    requires
        start + n <= usize::MAX + 1,
    ensures
        forall|f: usize| #[trigger] frame_block(start, n).count(f) == if start <= f < start + n { 1nat } else { 0nat },
    decreases n,
{
    broadcast use vstd::multiset::group_multiset_axioms;
    broadcast use vstd::multiset::group_multiset_properties;
    if n > 0 {
        lemma_frame_block_exact(start, (n - 1) as nat);
        let prev = frame_block(start, (n - 1) as nat);
        assert(frame_block(start, n) == prev.insert((start + n - 1) as usize));
    }
}

/// The number of last-level entries that `init_pt` fills for `total`
/// bytes from entry `first` on.
pub open spec fn pt_fill_count(total: nat, first: nat) -> nat {
    if total == 0 {
        0
    } else if (total + 4095) / 4096 <= 512 - first {
        ((total + 4095) / 4096) as nat
    } else {
        (512 - first) as nat
    }
}

/// `t` bytes that need more than `m - 1` pages and at most `m` take `m`
/// pages.
proof fn lemma_ceil_pages(t: int, m: int)
    by (nonlinear_arith)
    requires
        m >= 1,
        (m - 1) * 4096 < t <= m * 4096,
    ensures
        (t + 4095) / 4096 == m,
{
}

/// `t` bytes that do not fit in `m` pages take more than `m` pages.
proof fn lemma_more_pages(t: int, m: int)
    by (nonlinear_arith)
    requires
        m >= 0,
        t > m * 4096,
    ensures
        (t + 4095) / 4096 > m,
{
}

/// The bytes left to map after `init_pt` filled its entries.
pub open spec fn pt_fill_rest(total: nat, first: nat) -> nat {
    if total == 0 || (total + 4095) / 4096 <= 512 - first {
        0
    } else {
        (total - (511 - first) * 4096) as nat
    }
}

/// 1 for true, 0 for false.
pub open spec fn bit_of(b: bool) -> u64 {
    if b { 1 } else { 0 }
}

/// A last-level entry filled by `set_pt` reads back every field it was
/// given: each flag bit, and the frame of the physical address.
pub proof fn lemma_set_pt_reads_back(old_raw: u64, paddr: u64, present: bool, writable: bool, us: bool,
    pwt: bool, pcd: bool, accessed: bool, dirty: bool, pat: bool, global: bool)
    ensures
        ({
            let e = spec_pt_entry(old_raw, paddr, present, writable, us, pwt, pcd, accessed, dirty, pat, global);
            &&& spec_bits(e, 0, 1) == bit_of(present)
            &&& spec_bits(e, 1, 1) == bit_of(writable)
            &&& spec_bits(e, 2, 1) == bit_of(us)
            &&& spec_bits(e, 3, 1) == bit_of(pwt)
            &&& spec_bits(e, 4, 1) == bit_of(pcd)
            &&& spec_bits(e, 5, 1) == bit_of(accessed)
            &&& spec_bits(e, 6, 1) == bit_of(dirty)
            &&& spec_bits(e, 7, 1) == bit_of(pat)
            &&& spec_bits(e, 8, 1) == bit_of(global)
            &&& spec_bits(e, 12, 0xfffffffffffff) == spec_page_idx(paddr)
        }),
{
    lemma_pt_fields(old_raw, paddr, bit_of(present), bit_of(writable), bit_of(us), bit_of(pwt), bit_of(pcd),
        bit_of(accessed), bit_of(dirty), bit_of(pat), bit_of(global));
}

proof fn lemma_pt_fields(raw: u64, paddr: u64, b0: u64, b1: u64, b2: u64, b3: u64, b4: u64, b5: u64, b6: u64, b7: u64, b8: u64)
    by (bit_vector)
    requires
        b0 <= 1 && b1 <= 1 && b2 <= 1 && b3 <= 1 && b4 <= 1 && b5 <= 1 && b6 <= 1 && b7 <= 1 && b8 <= 1,
    ensures
        ({
            let r0 = spec_set_bits(raw, 0, 1, b0);
            let r1 = spec_set_bits(r0, 1, 1, b1);
            let r2 = spec_set_bits(r1, 2, 1, b2);
            let r3 = spec_set_bits(r2, 3, 1, b3);
            let r4 = spec_set_bits(r3, 4, 1, b4);
            let r5 = spec_set_bits(r4, 5, 1, b5);
            let r6 = spec_set_bits(r5, 6, 1, b6);
            let r7 = spec_set_bits(r6, 7, 1, b7);
            let r8 = spec_set_bits(r7, 8, 1, b8);
            let e = spec_set_bits(r8, 12, 0xfffffffffffff, spec_page_idx(paddr));
            &&& spec_bits(e, 0, 1) == b0 && spec_bits(e, 1, 1) == b1 && spec_bits(e, 2, 1) == b2
            &&& spec_bits(e, 3, 1) == b3 && spec_bits(e, 4, 1) == b4 && spec_bits(e, 5, 1) == b5
            &&& spec_bits(e, 6, 1) == b6 && spec_bits(e, 7, 1) == b7 && spec_bits(e, 8, 1) == b8
            &&& spec_bits(e, 12, 0xfffffffffffff) == spec_page_idx(paddr)
        }),
{
}

/// A last-level entry after `set_pt`.
pub open spec fn spec_pt_entry(old_raw: u64, paddr: u64, present: bool, writable: bool, us: bool,
    pwt: bool, pcd: bool, accessed: bool, dirty: bool, pat: bool, global: bool) -> u64 {
    let r0 = spec_set_bits(old_raw, 0, 1, bit_of(present));
    let r1 = spec_set_bits(r0, 1, 1, bit_of(writable));
    let r2 = spec_set_bits(r1, 2, 1, bit_of(us));
    let r3 = spec_set_bits(r2, 3, 1, bit_of(pwt));
    let r4 = spec_set_bits(r3, 4, 1, bit_of(pcd));
    let r5 = spec_set_bits(r4, 5, 1, bit_of(accessed));
    let r6 = spec_set_bits(r5, 6, 1, bit_of(dirty));
    let r7 = spec_set_bits(r6, 7, 1, bit_of(pat));
    let r8 = spec_set_bits(r7, 8, 1, bit_of(global));
    spec_set_bits(r8, 12, 0xfffffffffffff, spec_page_idx(paddr))
}


impl MemoryPool {
    /// The frame-number field value for a physical address.
    pub fn get_page_idx(p_addr: u64) -> (v: u64)
        ensures v == spec_page_idx(p_addr),
    {
        p_addr >> 12 & 0xfffffffff
    }

    /// The descriptor of frame `page`.
    pub fn get_page_descripter(&self, page: usize) -> (p: &Page)
        requires page < self.mem_map@.len(),
        ensures *p == self.mem_map@[page as int],
    {
        &self.mem_map[page]
    }

    /// Fills the level-4 entry for `dst_vaddr` with the frame of
    /// `dst_paddr` when it is not present.
    pub fn set_pml4(table: &mut Pml4, dst_vaddr: u64, dst_paddr: u64, big_page: bool, kernel_space: bool, writable: bool)
        ensures
            spec_table_set(old(table).entry@, final(table).entry@, ((dst_vaddr >> 39u64) & 0x1ffu64) as int, dst_paddr, big_page, kernel_space, writable),
    {
        let var = get_pml4_offset(dst_vaddr);
        fill_entry(table, var, dst_paddr, big_page, kernel_space, writable);
    }

    /// Fills the level-3 entry for `dst_vaddr` with the frame of
    /// `dst_paddr` when it is not present.
    pub fn set_pdpt(table: &mut Pml4, dst_vaddr: u64, dst_paddr: u64, big_page: bool, kernel_space: bool, writable: bool)
        ensures
            spec_table_set(old(table).entry@, final(table).entry@, ((dst_vaddr >> 30u64) & 0x1ffu64) as int, dst_paddr, big_page, kernel_space, writable),
    {
        let var = get_pdpt_offset(dst_vaddr);
        fill_entry(table, var, dst_paddr, big_page, kernel_space, writable);
    }

    /// Fills the level-2 entry for `dst_vaddr` with the frame of
    /// `dst_paddr` when it is not present.
    pub fn set_pdt(table: &mut Pml4, dst_vaddr: u64, dst_paddr: u64, big_page: bool, kernel_space: bool, writable: bool)
        ensures
            spec_table_set(old(table).entry@, final(table).entry@, ((dst_vaddr >> 21u64) & 0x1ffu64) as int, dst_paddr, big_page, kernel_space, writable),
    {
        let var = get_pdt_offset(dst_vaddr);
        fill_entry(table, var, dst_paddr, big_page, kernel_space, writable);
    }

    /// Sets every field of a last-level entry: the flag bits as given and
    /// the frame of `dst_paddr`.
    pub fn set_pt(pt_entry: &mut PtEntry, dst_paddr: u64, present: bool, writable: bool, every_one_avaliable: bool,
        pwt: bool, pcd: bool, accessed: bool, dirty: bool, pat: bool, global: bool)
        ensures
            final(pt_entry).0 == spec_pt_entry(old(pt_entry).0, dst_paddr, present, writable, every_one_avaliable, pwt, pcd, accessed, dirty, pat, global),
    {
        pt_entry.set_present(present as u64);
        pt_entry.set_wr(writable as u64);
        pt_entry.set_us(every_one_avaliable as u64);
        pt_entry.set_pwt(pwt as u64);
        pt_entry.set_pcd(pcd as u64);
        pt_entry.set_accessed(accessed as u64);
        pt_entry.set_dirty(dirty as u64);
        pt_entry.set_pat(pat as u64);
        pt_entry.set_global(global as u64);
        pt_entry.set_page_offset(Self::get_page_idx(dst_paddr));
    }

    /// Marks the first `pages` frames as used by raising their reference
    /// counts.
    pub fn init_used_page_counter(&mut self, pages: usize)
        requires
            pages <= old(self).mem_map@.len(),
            forall|i: int| 0 <= i < pages ==> old(self).mem_map@[i].refcount < u32::MAX,
        ensures
            final(self).mem_map@.len() == old(self).mem_map@.len(),
            forall|i: int| 0 <= i < pages ==> final(self).mem_map@[i].refcount == old(self).mem_map@[i].refcount + 1
                && final(self).mem_map@[i].flags == old(self).mem_map@[i].flags,
            forall|i: int| pages <= i < old(self).mem_map@.len() ==> final(self).mem_map@[i] == old(self).mem_map@[i],
            final(self).lowest_idx == old(self).lowest_idx,
            final(self).free_pages == old(self).free_pages,
            final(self).frame_allocator == old(self).frame_allocator,
    {
        let mut var: usize = 0;
        while var < pages
            invariant
                var <= pages,
                pages <= self.mem_map@.len(),
                self.mem_map@.len() == old(self).mem_map@.len(),
                forall|i: int| 0 <= i < pages ==> old(self).mem_map@[i].refcount < u32::MAX,
                forall|i: int| 0 <= i < var ==> self.mem_map@[i].refcount == old(self).mem_map@[i].refcount + 1
                    && self.mem_map@[i].flags == old(self).mem_map@[i].flags,
                forall|i: int| var <= i < self.mem_map@.len() ==> self.mem_map@[i] == old(self).mem_map@[i],
                self.lowest_idx == old(self).lowest_idx,
                self.free_pages == old(self).free_pages,
                self.frame_allocator == old(self).frame_allocator,
            decreases pages - var,
        {
            let mut p = self.mem_map[var];
            p.refcount = p.refcount + 1;
            self.mem_map.set(var, p);
            var += 1;
        }
    }

    /// Takes the first frame at or after `lowest_idx` that has no
    /// reference, during boot before the buddy allocator runs: the frame
    /// gains a reference, `lowest_idx` moves past it, the count of free
    /// pages drops by one, the kernel size grows by a page, and its
    /// linear-map address is returned. With no free page, returns 0 (null)
    /// and changes nothing.
    pub fn alloc_frame_temporary(&mut self, kernel_size: &mut u64) -> (r: u64)
        requires
            old(self).mem_map@.len() <= 0x7_7fff_ff00,
            old(self).free_pages > 0 ==> exists|j: int| first_unused_from(old(self).mem_map@, old(self).lowest_idx as int, j),
            old(self).free_pages > 0 ==> *old(kernel_size) + 4096 <= u64::MAX,
        ensures
            old(self).free_pages == 0 ==> r == 0 && *final(self) == *old(self) && *final(kernel_size) == *old(kernel_size),
            old(self).free_pages > 0 ==> exists|j: int| #[trigger] first_unused_from(old(self).mem_map@, old(self).lowest_idx as int, j) && {
                &&& r == LINEAR_MAP_AREA_START + j * 4096 + PHYADDR_START
                &&& final(self).mem_map@ == old(self).mem_map@.update(j, Page { refcount: 1, flags: old(self).mem_map@[j].flags })
                &&& final(self).lowest_idx == j + 1
            },
            old(self).free_pages > 0 ==> final(self).free_pages == old(self).free_pages - 1,
            old(self).free_pages > 0 ==> *final(kernel_size) == *old(kernel_size) + 4096,
            final(self).frame_allocator == old(self).frame_allocator,
    {
        if self.free_pages == 0 {
            return 0;
        }
        let ghost j = choose|j: int| first_unused_from(self.mem_map@, self.lowest_idx as int, j);
        let ghost from = self.lowest_idx;
        let ghost old_self = *self;
        let len: usize = self.mem_map.len();
        while self.mem_map[self.lowest_idx].refcount != 0
            invariant
                len == self.mem_map@.len(),
                self.mem_map == old_self.mem_map,
                self.free_pages == old_self.free_pages,
                self.free_pages > 0,
                self.frame_allocator == old_self.frame_allocator,
                first_unused_from(self.mem_map@, from as int, j),
                from <= self.lowest_idx <= j,
                forall|k: int| from <= k < self.lowest_idx ==> #[trigger] self.mem_map@[k].refcount != 0,
            decreases j - self.lowest_idx,
        {
            self.lowest_idx += 1;
        }
        let idx = self.lowest_idx;
        let mut p = self.mem_map[idx];
        p.refcount = p.refcount + 1;
        self.mem_map.set(idx, p);
        let result = page2virt(idx as u64);
        self.lowest_idx += 1;
        self.free_pages -= 1;
        *kernel_size = *kernel_size + PAGE_SIZE;
        result
    }

    /// Hands the frames from `lowest_idx` up to `all_pages` to a new buddy
    /// allocator, in two ranges split 32 frames after `lowest_idx`. When
    /// those frames have descriptors, no reference, fit in the count of
    /// free pages, and have linear-map addresses, the pool is well formed.
    /// The allocator needs a 64-bit machine.
    pub fn init_frame_allocator(&mut self, all_pages: usize)
        requires
            usize::BITS == 64,
            old(self).lowest_idx + 32 <= all_pages,
        ensures
            final(self).free_frames() == frame_block(old(self).lowest_idx, 32).add(
                frame_block((old(self).lowest_idx + 32) as usize, (all_pages - old(self).lowest_idx - 32) as nat)),
            frame_allocator_added(final(self).frame_allocator) == all_pages - old(self).lowest_idx,
            final(self).mem_map == old(self).mem_map,
            final(self).lowest_idx == old(self).lowest_idx,
            final(self).free_pages == old(self).free_pages,
            exists|i: usize| #[trigger] final(self).free_blocks().contains((i, old(self).lowest_idx)),
            all_pages > old(self).lowest_idx + 32 ==> exists|i: usize|
                #[trigger] final(self).free_blocks().contains((i, (old(self).lowest_idx + 32) as usize)),
            ({
                &&& all_pages <= old(self).mem_map@.len() <= 0x7_7fff_ff00
                &&& all_pages - old(self).lowest_idx <= old(self).free_pages
                &&& forall|i: int| old(self).lowest_idx <= i < all_pages ==> #[trigger] old(self).mem_map@[i].refcount == 0
            }) ==> final(self).wf(),
    {
        self.frame_allocator = frame_allocator_new();
        let lowest = self.lowest_idx;
        frame_allocator_insert(&mut self.frame_allocator, lowest, lowest + 32);
        proof {
            broadcast use vstd::multiset::group_multiset_axioms;
            lemma_frame_block_exact(lowest, 32);
            assert forall|f: usize| lowest + 32 <= f < all_pages implies
                #[trigger] frame_allocator_free(self.frame_allocator).count(f) == 0 by {
                assert(frame_block(lowest, 32).count(f) == 0);
            }
        }
        let ghost blocks1 = frame_allocator_blocks(self.frame_allocator);
        let ghost i1 = choose|i: usize| #[trigger] blocks1.contains((i, lowest));
        frame_allocator_insert(&mut self.frame_allocator, lowest + 32, all_pages);
        proof {
            assert(self.free_blocks().contains((i1, lowest)));
        }
        proof {
            broadcast use vstd::multiset::group_multiset_axioms;
            let b1 = frame_block(lowest, 32);
            let b2 = frame_block((lowest + 32) as usize, (all_pages - lowest - 32) as nat);
            lemma_frame_block(lowest, 32);
            lemma_frame_block((lowest + 32) as usize, (all_pages - lowest - 32) as nat);
            lemma_frame_block_exact(lowest, 32);
            lemma_frame_block_exact((lowest + 32) as usize, (all_pages - lowest - 32) as nat);
            assert(Multiset::<usize>::empty().add(b1) =~= b1);
            if all_pages <= self.mem_map@.len() <= 0x7_7fff_ff00
                && all_pages - lowest <= self.free_pages
                && forall|i: int| lowest <= i < all_pages ==> #[trigger] self.mem_map@[i].refcount == 0 {
                assert forall|f: usize| #[trigger] self.free_frames().count(f) > 0 implies {
                    &&& self.free_frames().count(f) == 1
                    &&& f < self.mem_map@.len()
                    &&& self.mem_map@[f as int].refcount == 0
                } by {
                    assert(self.free_frames().count(f) == b1.count(f) + b2.count(f));
                }
            }
        }
    }

    /// Maps `total_size` bytes from `dst_paddr` on into `pt`, a page per
    /// entry, from the entry of `dst_vaddr` on: each entry is present,
    /// writable, kernel-only and global. Stops at the end of the table;
    /// `total_size` is left with what is still to map (0 when all fit)
    /// and `dst_paddr` past the last page mapped.
    pub fn init_pt(pt: &mut Pt, total_size: &mut usize, dst_vaddr: u64, dst_paddr: &mut u64)
        requires
            *old(dst_paddr) + 512 * 4096 <= u64::MAX,
        ensures
            ({
                let first = ((dst_vaddr >> 12u64) & 0x1ffu64) as nat;
                let n = pt_fill_count(*old(total_size) as nat, first);
                &&& *final(total_size) == pt_fill_rest(*old(total_size) as nat, first)
                &&& *final(dst_paddr) == *old(dst_paddr) + n * 4096
                &&& forall|i: int| first <= i < first + n ==> #[trigger] final(pt).entry@[i].0 == spec_pt_entry(
                        old(pt).entry@[i].0, (*old(dst_paddr) + (i - first) * 4096) as u64,
                        true, true, false, false, false, false, false, false, true)
                &&& forall|i: int| 0 <= i < 512 && !(first <= i < first + n) ==> #[trigger] final(pt).entry@[i] == old(pt).entry@[i]
            }),
    {
        if *total_size == 0 {
            return;
        }
        let ghost first: nat = ((dst_vaddr >> 12u64) & 0x1ffu64) as nat;
        let ghost t0: nat = *total_size as nat;
        let ghost p0: u64 = *dst_paddr;
        let ghost old_pt = pt.entry@;
        let mut var = get_pt_offset(dst_vaddr);
        loop
            invariant_except_break
                var < 512,
                *total_size == t0 - (var - first) * 4096,
                *total_size > 0,
            invariant
                first <= var <= 512,
                first == ((dst_vaddr >> 12u64) & 0x1ffu64) as nat,
                t0 > 0,
                p0 + 512 * 4096 <= u64::MAX,
                *dst_paddr == p0 + (var - first) * 4096,
                pt.entry@.len() == 512,
                forall|i: int| first <= i < var ==> #[trigger] pt.entry@[i].0 == spec_pt_entry(
                    old_pt[i].0, (p0 + (i - first) * 4096) as u64, true, true, false, false, false, false, false, false, true),
                forall|i: int| 0 <= i < 512 && !(first <= i < var) ==> #[trigger] pt.entry@[i] == old_pt[i],
            ensures
                ({
                    let n = pt_fill_count(t0, first);
                    &&& *total_size == pt_fill_rest(t0, first)
                    &&& *dst_paddr == p0 + n * 4096
                    &&& forall|i: int| first <= i < first + n ==> #[trigger] pt.entry@[i].0 == spec_pt_entry(
                            old_pt[i].0, (p0 + (i - first) * 4096) as u64, true, true, false, false, false, false, false, false, true)
                    &&& forall|i: int| 0 <= i < 512 && !(first <= i < first + n) ==> #[trigger] pt.entry@[i] == old_pt[i]
                }),
            decreases 512 - var,
        {
            let mut e = pt.entry[var];
            Self::set_pt(&mut e, *dst_paddr, true, true, false, false, false, false, false, false, true);
            pt.entry[var] = e;
            *dst_paddr = *dst_paddr + 4096;
            var += 1;
            if *total_size <= 4096 || var >= 512 {
                if *total_size <= 4096 {
                    *total_size = 0;
                }
                proof {
                    let m: int = var - first;
                    if *total_size == 0 {
                        lemma_ceil_pages(t0 as int, m);
                    } else {
                        lemma_more_pages(t0 as int, m);
                    }
                }
                break;
            }
            *total_size = *total_size - 4096;
        }
    }
}


/// One step of a heap allocation: an object from the general-purpose slab
/// cache with the given index, or the given number of whole frames.
pub enum AllocRoute {
    Slab(usize),
    Pages(usize),
}

/// How a heap allocation of `size` bytes is served: up to 2048 bytes from
/// the slab cache that `kmalloc_slab` picks (none for 0), above that as
/// whole frames, enough to hold `size` bytes.
pub fn alloc_route(size: usize) -> (r: Option<AllocRoute>)
    requires
        size <= 192 || ((size as u64) & 0xffff_ffffu64 < 2048 && size != 2048) || size > 2048,
    ensures
        size == 0 ==> r.is_none(),
        0 < size <= 2048 ==> (r matches Some(AllocRoute::Slab(i)) && crate::slub::serves(size, i)),
        size > 2048 ==> r == Some(AllocRoute::Pages((size / 4096 + if size % 4096 != 0 { 1int } else { 0 }) as usize)),
{
    if size <= 2048 {
        match crate::slub::kmalloc_slab(size) {
            None => None,
            Some(i) => Some(AllocRoute::Slab(i)),
        }
    } else {
        let need_pages = (size / 4096) + ((size % 4096 != 0) as usize);
        Some(AllocRoute::Pages(need_pages))
    }
}

} // verus!
