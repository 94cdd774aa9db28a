use vstd::prelude::*;
use std::cmp::Ordering;
use crate::list::ListHead;
use crate::memory::{PAGE_SIZE, MMAP_START, USER_STACK_BOTTOM};

verus! {

pub const PF_PRESENT: u64 = 0x1;
pub const PF_WRITE: u64 = 0x2;
pub const PF_USER: u64 = 0x4;
pub const PF_RESERVED_WRITE: u64 = 0x8;
pub const PF_INSTRUCTION_FETCH: u64 = 0x10;
pub const PF_PROTECTION_KEY: u64 = 0x20;
pub const PF_SHADOW_STACK: u64 = 0x40;
pub const PF_SOFTWARE_GUARD_EXTENSIONS: u64 = 0x4000;
/// Every page fault error bit this kernel knows.
pub const PF_KNOWN_BITS: u64 = 0x407f;

pub const PROT_NONE: u64 = 0x0;
pub const PROT_READ: u64 = 0x1;
pub const PROT_WRITE: u64 = 0x2;
pub const PROT_EXEC: u64 = 0x4;
pub const PROT_SHARED: u64 = 0x8;
pub const PROT_KERNEL: u64 = 0x40;
pub const MAP_SHARED: u64 = 0x01;
pub const MAP_PRIVATE: u64 = 0x02;
pub const MAP_LOCKED: u64 = 0x2000;
pub const MAP_EXECUTABLE: u64 = 0x1000;
pub const MAP_ANONYMOUS: u64 = 0x20;
pub const MAP_POPULATE: u64 = 0x008000;
pub const MAP_NONBLOCK: u64 = 0x010000;
pub const MAP_STACK: u64 = 0x020000;
pub const MAP_HUGETLB: u64 = 0x040000;
pub const MAP_SYNC: u64 = 0x080000;
pub const MAP_FIXED_NOREPLACE: u64 = 0x100000;
pub const VM_MAYREAD: u64 = 0x00000010;
pub const VM_MAYWRITE: u64 = 0x00000020;
pub const VM_MAYEXEC: u64 = 0x00000040;
pub const VM_MAYSHARE: u64 = 0x00000080;
pub const VM_GROWSDOWN: u64 = 0x00000100;
pub const VM_UFFD_MISSING: u64 = 0x00000200;
pub const VM_MAYOVERLAY: u64 = 0x00000200;
pub const VM_PFNMAP: u64 = 0x00000400;
pub const VM_UFFD_WP: u64 = 0x00001000;
pub const VM_LOCKED: u64 = 0x00002000;
pub const VM_IO: u64 = 0x00004000;
pub const VM_SEQ_READ: u64 = 0x00008000;
pub const VM_RAND_READ: u64 = 0x00010000;
pub const VM_DONTCOPY: u64 = 0x00020000;
pub const VM_DONTEXPAND: u64 = 0x00040000;
pub const VM_LOCKONFAULT: u64 = 0x00080000;
pub const VM_ACCOUNT: u64 = 0x00100000;
pub const VM_NORESERVE: u64 = 0x00200000;
pub const VM_HUGETLB: u64 = 0x00400000;
pub const VM_SYNC: u64 = 0x00800000;
pub const VM_ARCH_1: u64 = 0x01000000;
pub const VM_WIPEONFORK: u64 = 0x02000000;
pub const VM_DONTDUMP: u64 = 0x04000000;
pub const VM_MIXEDMAP: u64 = 0x10000000;
pub const VM_HUGEPAGE: u64 = 0x20000000;
pub const VM_NOHUGEPAGE: u64 = 0x40000000;
pub const VM_MERGEABLE: u64 = 0x80000000;

/// An area of a process's address space: the addresses `vm_start ..=
/// vm_end`, its list links, owner, flags, reference count, the file it
/// maps (0 for none) from `offset` on, and its page-table protection bits.
#[derive(Clone, Copy)]
pub struct VMAreaStruct {
    pub vm_start: u64,
    pub vm_end: u64,
    pub list: ListHead,
    pub vm_mm: usize,
    pub vm_flags: u64,
    pub vm_ref_count: i64,
    pub file: usize,
    pub offset: i64,
    pub vm_page_prot: u64,
}

/// The page-table protection bits for the protection `prot`: present,
/// writable when it allows writing, user-accessible unless it is for the
/// kernel.
pub open spec fn spec_vm_page_prot(prot: u64) -> u64 {
    let writable = prot & PROT_WRITE == PROT_WRITE;
    let kernel = prot & PROT_KERNEL == PROT_KERNEL;
    if writable {
        if kernel { 0x3 } else { 0x7 }
    } else {
        if kernel { 0x1 } else { 0x5 }
    }
}

impl VMAreaStruct {
    /// The area `strat .. end` (stored as `strat ..= end - 1`) owned by
    /// `mm_struct`, with the given flags, one reference, no file, offset 0
    /// and no protection bits.
    pub fn new(strat: u64, end: u64, mm_struct: usize, flags: u64) -> (v: VMAreaStruct)
        requires
            end >= 1,
        ensures
            v.vm_start == strat,
            v.vm_end == end - 1,
            v.list.next == 0 && v.list.prev == 0,
            v.vm_mm == mm_struct,
            v.vm_flags == flags,
            v.vm_ref_count == 1,
            v.file == 0,
            v.offset == 0,
            v.vm_page_prot == 0,
    {
        VMAreaStruct { vm_start: strat, vm_end: end - 1, list: ListHead::empty(), vm_mm: mm_struct, vm_flags: flags,
            vm_ref_count: 1, file: 0, offset: 0, vm_page_prot: 0 }
    }

    /// Sets the offset in the mapped file.
    pub fn set_offset(&mut self, offset: i64)
        ensures
            *final(self) == (VMAreaStruct { offset, ..*old(self) }),
    {
        self.offset = offset;
    }

    /// The offset in the mapped file.
    pub fn get_offset(&self) -> (o: i64)
        ensures
            o == self.offset,
    {
        self.offset
    }

    /// The area's flags.
    pub fn get_flags(&self) -> (f: u64)
        ensures
            f == self.vm_flags,
    {
        self.vm_flags
    }

    /// Sets the area's flags.
    pub fn set_flags(&mut self, flags: u64)
        ensures
            *final(self) == (VMAreaStruct { vm_flags: flags, ..*old(self) }),
    {
        self.vm_flags = flags;
    }

    /// The area's page-table protection bits.
    pub fn get_prot(&self) -> (p: u64)
        ensures
            p == self.vm_page_prot,
    {
        self.vm_page_prot
    }

    /// Sets the protection bits from the protection `prot`.
    pub fn set_prot(&mut self, prot: u64)
        ensures
            *final(self) == (VMAreaStruct { vm_page_prot: spec_vm_page_prot(prot), ..*old(self) }),
    {
        self.vm_page_prot = Self::get_vm_page_prot(prot);
    }

    /// The page-table protection bits for the protection `prot`.
    pub fn get_vm_page_prot(prot: u64) -> (r: u64)
        ensures
            r == spec_vm_page_prot(prot),
    {
        Self::arch_get_vm_page_prot(prot)
    }

    /// The x86_64 page-table protection bits for the protection `prot`.
    pub fn arch_get_vm_page_prot(prot: u64) -> (r: u64)
        ensures
            r == spec_vm_page_prot(prot),
    {
        let mut result: u64 = 0x1;
        assert(0x1u64 | 0x2u64 == 0x3u64 && 0x1u64 | 0x4u64 == 0x5u64 && 0x3u64 | 0x4u64 == 0x7u64) by (bit_vector);
        if prot & PROT_WRITE == PROT_WRITE {
            result |= 0x2;
        }
        if !(prot & PROT_KERNEL == PROT_KERNEL) {
            result |= 0x4;
        }
        result
    }

    /// Sets the mapped file.
    pub fn set_file(&mut self, file_t: usize)
        ensures
            *final(self) == (VMAreaStruct { file: file_t, ..*old(self) }),
    {
        self.file = file_t;
    }

    /// The mapped file, 0 for none.
    pub fn get_file(&self) -> (f: usize)
        ensures
            f == self.file,
    {
        self.file
    }

    /// The first address of the area.
    pub fn get_start(&self) -> (a: u64)
        ensures
            a == self.vm_start,
    {
        self.vm_start
    }

    /// The last address of the area.
    pub fn get_end(&self) -> (a: u64)
        ensures
            a == self.vm_end,
    {
        self.vm_end
    }

    /// The next area in the list, 0 for none.
    pub fn get_next(&self) -> (a: usize)
        ensures
            a == self.list.next,
    {
        self.list.next
    }

    /// The previous area in the list, 0 for none.
    pub fn get_prev(&self) -> (a: usize)
        ensures
            a == self.list.prev,
    {
        self.list.prev
    }

    /// Sets the next area in the list.
    pub fn set_next(&mut self, next: usize)
        ensures
            *final(self) == (VMAreaStruct { list: ListHead { next, prev: old(self).list.prev }, ..*old(self) }),
    {
        self.list.next = next;
    }

    /// Sets the previous area in the list.
    pub fn set_prev(&mut self, prev: usize)
        ensures
            *final(self) == (VMAreaStruct { list: ListHead { next: old(self).list.next, prev }, ..*old(self) }),
    {
        self.list.prev = prev;
    }

    /// How two areas order: `Less` when this one ends before the other
    /// starts, `Greater` when it starts after the other ends, `Equal` when
    /// it lies within the other from the other's start on, and no order
    /// when they overlap otherwise.
    pub fn partial_cmp(&self, other: &Self) -> (r: Option<Ordering>)
        ensures
            self.vm_start < other.vm_start ==> (self.vm_end < other.vm_start ==> r == Some(Ordering::Less))
                && (self.vm_end >= other.vm_start ==> r.is_none()),
            self.vm_start >= other.vm_start ==> (self.vm_end <= other.vm_end ==> r == Some(Ordering::Equal))
                && (self.vm_end > other.vm_end && self.vm_start > other.vm_end ==> r == Some(Ordering::Greater))
                && (self.vm_end > other.vm_end && self.vm_start <= other.vm_end ==> r.is_none()),
    {
        if self.vm_start < other.vm_start {
            if self.vm_end < other.vm_start {
                return Some(Ordering::Less);
            } else {
                return None;
            }
        } else {
            if self.vm_end <= other.vm_end {
                return Some(Ordering::Equal);
            }
            if self.vm_start > other.vm_end {
                return Some(Ordering::Greater);
            }
        }
        None
    }
}

/// A process's address space: its areas in list order, the stack area and
/// the last area found (positions in `mmap`), and the owning process.
pub struct MMStruct {
    pub mmap: Vec<VMAreaStruct>,
    pub stack: Option<usize>,
    pub mmap_cache: Option<usize>,
    pub pcb_ptr: usize,
}

/// The area at position `i` is the one `contain` finds for `addr`: every
/// area before it starts below `addr` and ends at or below it, and it
/// starts below `addr` and ends above it.
pub open spec fn area_found(areas: Seq<VMAreaStruct>, addr: u64, i: int) -> bool {
    &&& 0 <= i < areas.len()
    &&& forall|j: int| 0 <= j < i ==> #[trigger] areas[j].vm_start < addr && areas[j].vm_end <= addr
    &&& areas[i].vm_start < addr < areas[i].vm_end
}

impl MMStruct {
    /// An address space with no area, owned by the process at `pcb_ptr`.
    pub fn new(pcb_ptr: usize) -> (m: MMStruct)
        ensures
            m.mmap@.len() == 0,
            m.stack.is_none(),
            m.mmap_cache.is_none(),
            m.pcb_ptr == pcb_ptr,
    {
        MMStruct { mmap: Vec::new(), stack: None, mmap_cache: None, pcb_ptr }
    }

    /// The position of the area that holds `addr`, walking the areas in
    /// order while they start below it: the first that also ends above
    /// it; `None` when the walk reaches an area that starts at or above
    /// `addr`, or the end.
    pub fn contain(&self, addr: u64) -> (r: Option<usize>)
        ensures
            match r {
                Some(i) => area_found(self.mmap@, addr, i as int),
                None => forall|i: int| !area_found(self.mmap@, addr, i),
            },
    {
        let mut i: usize = 0;
        while i < self.mmap.len()
            invariant
                i <= self.mmap@.len(),
                forall|j: int| 0 <= j < i ==> #[trigger] self.mmap@[j].vm_start < addr && self.mmap@[j].vm_end <= addr,
            decreases self.mmap@.len() - i,
        {
            if self.mmap[i].vm_start < addr {
                if self.mmap[i].vm_end > addr {
                    return Some(i);
                }
                i += 1;
            } else {
                proof {
                    assert forall|k: int| !area_found(self.mmap@, addr, k) by {
                        if area_found(self.mmap@, addr, k) && k > i {
                            assert(self.mmap@[i as int].vm_start < addr);
                        }
                    }
                }
                return None;
            }
        }
        None
    }
}

/// What a page fault calls for: a private copy of a shared page for a
/// write, a page of the mapped file (by its block index in the file) or a
/// fresh page linked with the area's protection, or nothing.
#[derive(PartialEq, Eq, Structural)]
pub enum PageFaultAction {
    CopyOnWrite,
    MapFileBlock { idx: u64, prot: u64 },
    MapNewPage { prot: u64 },
    Nothing,
}

/// Whether the page-table protection bits allow writing.
pub fn arch_check_prot_writable(prot: u64) -> (b: bool)
    ensures
        b == (prot & 0x2 != 0),
{
    x86_64_check_prot_writable(prot)
}

/// Whether the x86_64 page-table protection bits allow writing.
pub fn x86_64_check_prot_writable(prot: u64) -> (b: bool)
    ensures
        b == (prot & 0x2 != 0),
{
    (prot & 0x2) != 0
}

/// Decides what the page fault with error code `code` at `pos` calls for,
/// given the area that holds `pos` (if any). A fault on a present page
/// needs an area and, for a write, a writable one: then the page is
/// copied; a read needs nothing. A fault on a missing page inside an area
/// maps the block of its file at `(pos - start + offset) / PAGE_SIZE`, or
/// a new page for an anonymous area; outside any area nothing is done.
/// Unknown error bits, and the faults this kernel treats as a segment
/// error, stop the kernel.
pub fn page_fault_action(code: u64, vma: Option<&VMAreaStruct>, pos: u64) -> (a: PageFaultAction)
    requires
        code & !PF_KNOWN_BITS == 0,
        code & PF_PRESENT != 0 ==> vma.is_some(),
        code & PF_PRESENT != 0 && code & PF_WRITE != 0 ==> vma.unwrap().vm_page_prot & 0x2 != 0,
        code & PF_PRESENT == 0 && vma.is_some() && vma.unwrap().file != 0 ==>
            vma.unwrap().vm_start <= pos && pos - vma.unwrap().vm_start + (vma.unwrap().offset as u64) <= u64::MAX,
    ensures
        code & PF_PRESENT != 0 && code & PF_WRITE != 0 ==> a == PageFaultAction::CopyOnWrite,
        code & PF_PRESENT != 0 && code & PF_WRITE == 0 ==> a == PageFaultAction::Nothing,
        code & PF_PRESENT == 0 && vma.is_none() ==> a == PageFaultAction::Nothing,
        code & PF_PRESENT == 0 && vma.is_some() && vma.unwrap().file != 0 ==> a == (PageFaultAction::MapFileBlock {
            idx: ((pos - vma.unwrap().vm_start + (vma.unwrap().offset as u64)) / 4096) as u64,
            prot: vma.unwrap().vm_page_prot }),
        code & PF_PRESENT == 0 && vma.is_some() && vma.unwrap().file == 0 ==> a == (PageFaultAction::MapNewPage {
            prot: vma.unwrap().vm_page_prot }),
{
    if code & PF_PRESENT != 0 {
        let v = vma.unwrap();
        if code & PF_WRITE != 0 {
            if arch_check_prot_writable(v.get_prot()) {
                return PageFaultAction::CopyOnWrite;
            }
        }
        PageFaultAction::Nothing
    } else {
        match vma {
            Some(v) => {
                if v.get_file() != 0 {
                    let idx = (pos - v.get_start() + v.get_offset() as u64) / PAGE_SIZE;
                    PageFaultAction::MapFileBlock { idx, prot: v.get_prot() }
                } else {
                    PageFaultAction::MapNewPage { prot: v.get_prot() }
                }
            },
            None => PageFaultAction::Nothing,
        }
    }
}


/// How an area lies against another (see `partial_cmp`).
#[derive(Clone, Copy, PartialEq, Eq, Structural)]
pub enum AreaOrder {
    Before,
    Within,
    After,
    Overlap,
}

/// How area `a` lies against area `b`.
pub open spec fn spec_area_order(a: VMAreaStruct, b: VMAreaStruct) -> AreaOrder {
    if a.vm_start < b.vm_start {
        if a.vm_end < b.vm_start { AreaOrder::Before } else { AreaOrder::Overlap }
    } else if a.vm_end <= b.vm_end {
        AreaOrder::Within
    } else if a.vm_start > b.vm_end {
        AreaOrder::After
    } else {
        AreaOrder::Overlap
    }
}

/// How area `a` lies against area `b`, by their order.
pub fn area_order(a: &VMAreaStruct, b: &VMAreaStruct) -> (o: AreaOrder)
    ensures
        o == spec_area_order(*a, *b),
{
    match a.partial_cmp(b) {
        Some(Ordering::Less) => AreaOrder::Before,
        Some(Ordering::Equal) => AreaOrder::Within,
        Some(Ordering::Greater) => AreaOrder::After,
        None => AreaOrder::Overlap,
    }
}

/// The position of the first area, from `i` on, that does not lie wholly
/// before `new` (the number of areas when there is none).
pub open spec fn first_not_before(areas: Seq<VMAreaStruct>, new: VMAreaStruct, i: int) -> int
    decreases areas.len() - i,
{
    if i < 0 || i >= areas.len() {
        areas.len() as int
    } else if spec_area_order(areas[i], new) == AreaOrder::Before {
        first_not_before(areas, new, i + 1)
    } else {
        i
    }
}

/// `prev` can take in `new` that follows it: it ends just before `new`
/// starts, maps the same file, has no flag that `new` lacks, the same
/// protection, and its file offset runs on into that of `new`.
pub open spec fn joins_after(prev: VMAreaStruct, new: VMAreaStruct) -> bool {
    &&& prev.vm_end + 1 == new.vm_start
    &&& prev.file == new.file
    &&& prev.vm_flags & !new.vm_flags == 0
    &&& prev.vm_page_prot == new.vm_page_prot
    &&& prev.offset + ((prev.vm_end - prev.vm_start + 1) as u64 as i64) == new.offset
}

/// The test of `joins_after` can be made without overflow.
pub open spec fn join_test_fits(prev: VMAreaStruct, new: VMAreaStruct) -> bool {
    &&& prev.vm_end < u64::MAX
    &&& (prev.vm_end + 1 == new.vm_start && prev.file == new.file && prev.vm_flags & !new.vm_flags == 0
            && prev.vm_page_prot == new.vm_page_prot) ==> {
            &&& prev.vm_start <= prev.vm_end
            &&& i64::MIN <= prev.offset + ((prev.vm_end - prev.vm_start + 1) as u64 as i64) <= i64::MAX
        }
}

/// `new` can be entered in the areas `a` (see `insert_vma`).
pub open spec fn insert_ok(a: Seq<VMAreaStruct>, new: VMAreaStruct) -> bool {
    let k = first_not_before(a, new, 0);
    &&& a.len() < usize::MAX
    &&& k < a.len() ==> {
            &&& spec_area_order(a[k], new) == AreaOrder::After
            &&& k >= 1
            &&& new.vm_end < u64::MAX
            &&& !(a[k].vm_start == new.vm_end + 1 && new.vm_flags & !a[k].vm_flags == 0)
            &&& join_test_fits(a[k - 1], new)
        }
    &&& k == a.len() && a.len() > 0 ==> join_test_fits(a[a.len() - 1], new)
}

/// `b` is the areas `a` with `new` entered, and `r` the position of the
/// area that holds it (see `insert_vma`).
pub open spec fn inserted(a: Seq<VMAreaStruct>, new: VMAreaStruct, b: Seq<VMAreaStruct>, r: int) -> bool {
    let k = first_not_before(a, new, 0);
    &&& a.len() == 0 ==> b == seq![new] && r == 0
    &&& k == a.len() && a.len() > 0 && joins_after(a[a.len() - 1], new) ==> b == a && r == a.len() - 1
    &&& k == a.len() && a.len() > 0 && !joins_after(a[a.len() - 1], new) ==> b == a.push(new) && r == a.len()
    &&& k < a.len() && joins_after(a[k - 1], new) ==> b == a.update(k - 1, VMAreaStruct { vm_end: new.vm_end, ..a[k - 1] })
            && r == k - 1
    &&& k < a.len() && !joins_after(a[k - 1], new) ==> b == a.insert(k, new) && r == k
}

/// The area that `VMAreaStruct::new(start, end, mm, 0)` makes.
pub open spec fn new_area(start: u64, end: u64, mm: usize) -> VMAreaStruct {
    VMAreaStruct { vm_start: start, vm_end: (end - 1) as u64, list: ListHead { next: 0, prev: 0 },
        vm_mm: mm, vm_flags: 0, vm_ref_count: 1, file: 0, offset: 0, vm_page_prot: 0 }
}

impl MMStruct {
    /// Enters the area `new` in the list of areas, kept in address order,
    /// and returns the position of the area that holds it. Walking the
    /// areas that lie wholly before it: at the end, `new` is taken in by the
    /// last area when it follows on from it (the last area is not widened),
    /// else it goes last; at the first area after it, `new` is taken in by
    /// the area before that one when it follows on from it (that area then
    /// ends where `new` ends), else it goes in between. An empty list gets
    /// `new` as its only area. The first area not before `new` must lie
    /// after it and not be the first area; it must not start right after
    /// `new` with all of `new`'s flags (that joining leaves the list
    /// broken); and the tests must not overflow.
    pub fn insert_vma(&mut self, new: VMAreaStruct) -> (r: usize)
        requires
            insert_ok(old(self).mmap@, new),
        ensures
            inserted(old(self).mmap@, new, final(self).mmap@, r as int),
            final(self).stack == old(self).stack,
            final(self).mmap_cache == old(self).mmap_cache,
            final(self).pcb_ptr == old(self).pcb_ptr,
    {
        let n = self.mmap.len();
        if n == 0 {
            self.mmap.push(new);
            proof {
                assert(self.mmap@ =~= seq![new]);
            }
            return 0;
        }
        let ghost a = self.mmap@;
        let mut i: usize = 0;
        while i < n && area_order(&self.mmap[i], &new) == AreaOrder::Before
            invariant
                n == a.len(),
                self.mmap@ == a,
                i <= n,
                first_not_before(a, new, i as int) == first_not_before(a, new, 0),
            decreases n - i,
        {
            i += 1;
        }
        proof {
            if i < n {
                assert(first_not_before(a, new, i as int) == i);
            } else {
                assert(first_not_before(a, new, i as int) == n);
            }
        }
        if i == n {
            let last = self.mmap[n - 1];
            if last.vm_end + 1 == new.vm_start && last.file == new.file && last.vm_flags & !new.vm_flags == 0
                && last.vm_page_prot == new.vm_page_prot
                && last.offset + ((last.vm_end - last.vm_start + 1) as u64 as i64) == new.offset {
                return n - 1;
            }
            self.mmap.push(new);
            return n;
        }
        let prev = self.mmap[i - 1];
        if prev.vm_end + 1 == new.vm_start && prev.file == new.file && prev.vm_flags & !new.vm_flags == 0
            && prev.vm_page_prot == new.vm_page_prot
            && prev.offset + ((prev.vm_end - prev.vm_start + 1) as u64 as i64) == new.offset {
            let merged = VMAreaStruct { vm_end: new.vm_end, ..prev };
            self.mmap.set(i - 1, merged);
            return i - 1;
        }
        self.mmap.insert(i, new);
        i
    }

    /// Makes the area `start .. end` (flags empty) owned by the address
    /// space at `mm_addr` and enters it with `insert_vma`; returns where it
    /// went.
    pub fn create_new_mem_area(&mut self, mm_addr: usize, start: u64, end: u64) -> (r: usize)
        requires
            end >= 1,
            insert_ok(old(self).mmap@, new_area(start, end, mm_addr)),
        ensures
            inserted(old(self).mmap@, new_area(start, end, mm_addr), final(self).mmap@, r as int),
            final(self).stack == old(self).stack,
            final(self).mmap_cache == old(self).mmap_cache,
            final(self).pcb_ptr == old(self).pcb_ptr,
    {
        let v = VMAreaStruct::new(start, end, mm_addr, 0);
        self.insert_vma(v)
    }
}


/// What the search for free space decides: make the area `start .. end`,
/// find no space, or be stuck (a read through a missing area, or an
/// overflow).
#[derive(Clone, Copy, PartialEq, Eq, Structural)]
pub enum SpaceChoice {
    Create(u64, u64),
    NoSpace,
    Stuck,
}

/// The search for `length` free bytes from `start` below `max` in the
/// areas `a`, standing at area `i` with `last` the area before it (-1 for
/// none), either walking the areas (`inner` false) or stepping over gaps
/// that are too small (`inner` true).
pub open spec fn scan_space(a: Seq<VMAreaStruct>, start: u64, length: u64, max: u64, i: int, last: int, inner: bool) -> SpaceChoice
    decreases a.len() - i, if inner { 0int } else { 1int },
{
    if i < 0 || last >= a.len() || last >= i {
        SpaceChoice::Stuck
    } else if !inner {
        if i >= a.len() {
            if last < 0 {
                SpaceChoice::Stuck
            } else if a[last].vm_end < max {
                if a[last].vm_end + length > u64::MAX { SpaceChoice::Stuck }
                else { SpaceChoice::Create((a[last].vm_end + 1) as u64, (a[last].vm_end + length) as u64) }
            } else {
                SpaceChoice::NoSpace
            }
        } else if a[i].vm_start > start {
            if last < 0 || a[last].vm_end + 1 + length > u64::MAX {
                SpaceChoice::Stuck
            } else if a[last].vm_end + 1 + length < max {
                scan_space(a, start, length, max, i, last, true)
            } else {
                scan_space(a, start, length, max, i + 1, i, false)
            }
        } else {
            scan_space(a, start, length, max, i + 1, i, false)
        }
    } else {
        if i >= a.len() || last < 0 || a[i].vm_start < a[last].vm_end || a[i].vm_start + length > u64::MAX
            || a[last].vm_end + 1 + length > u64::MAX {
            SpaceChoice::Stuck
        } else if a[i].vm_start - a[last].vm_end < length && a[i].vm_start + length < max {
            if i + 1 >= a.len() { SpaceChoice::Stuck } else { scan_space(a, start, length, max, i + 1, i, true) }
        } else if a[i].vm_start - a[last].vm_end > length || a[last].vm_end + 1 + length > max {
            if a[last].vm_end + length > max {
                SpaceChoice::Create((a[last].vm_end + 1) as u64, (a[last].vm_end + length) as u64)
            } else {
                SpaceChoice::NoSpace
            }
        } else {
            SpaceChoice::Create((a[last].vm_end + 1) as u64, (a[last].vm_end + length) as u64)
        }
    }
}

/// What `scan_empty_space` decides for `length` bytes from `start` below
/// `max` (0 for either: from `MMAP_START`, below `USER_STACK_BOTTOM`): an
/// area at `start` when the first area begins after it; otherwise the
/// walk of `scan_space`.
pub open spec fn space_choice(a: Seq<VMAreaStruct>, start0: u64, length: u64, max0: u64) -> SpaceChoice {
    let start = if start0 == 0 { MMAP_START } else { start0 };
    let max = if max0 == 0 { USER_STACK_BOTTOM } else { max0 };
    if a.len() == 0 {
        SpaceChoice::Stuck
    } else if a[0].vm_start > start {
        if start + length > u64::MAX { SpaceChoice::Stuck } else { SpaceChoice::Create(start, (start + length) as u64) }
    } else {
        scan_space(a, start, length, max, 0, -1, false)
    }
}

impl MMStruct {
    /// Finds room for `length` bytes (page aligned) from `start` (page
    /// aligned) below `max` among the areas (see `space_choice`) and makes
    /// an area there with `create_new_mem_area`, returning its position;
    /// `None` when there is no room. The search must not be stuck, and the
    /// area it makes must be one that `insert_vma` can enter.
    pub fn scan_empty_space(&mut self, mm_addr: usize, start: u64, length: usize, max: u64) -> (r: Option<usize>)
        requires
            start & 0xfff == 0,
            length & 0xfff == 0,
            space_choice(old(self).mmap@, start, length as u64, max) != SpaceChoice::Stuck,
            space_choice(old(self).mmap@, start, length as u64, max) matches SpaceChoice::Create(cs, ce)
                ==> ce >= 1 && insert_ok(old(self).mmap@, new_area(cs, ce, mm_addr)),
        ensures
            match space_choice(old(self).mmap@, start, length as u64, max) {
                SpaceChoice::Create(cs, ce) => r matches Some(x) && inserted(old(self).mmap@, new_area(cs, ce, mm_addr), final(self).mmap@, x as int),
                _ => r.is_none() && final(self).mmap@ == old(self).mmap@,
            },
    {
        let ghost a = self.mmap@;
        let len = length as u64;
        let s0 = if start == 0 { MMAP_START } else { start };
        let m0 = if max == 0 { USER_STACK_BOTTOM } else { max };
        let n = self.mmap.len();
        if self.mmap[0].vm_start > s0 {
            let x = self.create_new_mem_area(mm_addr, s0, s0 + len);
            return Some(x);
        }
        let mut i: usize = 0;
        let mut last: Option<usize> = None;
        let mut inner = false;
        let ghost target = space_choice(a, start, len, max);
        proof {
            assert(target == scan_space(a, s0, len, m0, 0, -1, false));
        }
        loop
            invariant
                self.mmap@ == a,
                a == old(self).mmap@,
                n == a.len(),
                n >= 1,
                len == length as u64,
                target == space_choice(a, start, len, max),
                target != SpaceChoice::Stuck,
                target matches SpaceChoice::Create(cs, ce) ==> ce >= 1 && insert_ok(a, new_area(cs, ce, mm_addr)),
                scan_space(a, s0, len, m0, i as int, match last { Some(l) => l as int, None => -1 }, inner) == target,
            decreases n - i, if inner { 0int } else { 1int },
        {
            if !inner {
                if i >= n {
                    let l = last.unwrap();
                    let le = self.mmap[l].vm_end;
                    if le < m0 {
                        let x = self.create_new_mem_area(mm_addr, le + 1, le + len);
                        return Some(x);
                    }
                    return None;
                }
                let cur = self.mmap[i];
                if cur.vm_start > s0 {
                    let l = last.unwrap();
                    let le = self.mmap[l].vm_end;
                    if le + 1 + len < m0 {
                        inner = true;
                    } else {
                        last = Some(i);
                        i += 1;
                    }
                } else {
                    last = Some(i);
                    i += 1;
                }
            } else {
                let l = last.unwrap();
                let le = self.mmap[l].vm_end;
                let cs = self.mmap[i].vm_start;
                if cs - le < len && cs + len < m0 {
                    last = Some(i);
                    i += 1;
                } else if cs - le > len || le + 1 + len > m0 {
                    if le + len > m0 {
                        let x = self.create_new_mem_area(mm_addr, le + 1, le + len);
                        return Some(x);
                    }
                    return None;
                } else {
                    let x = self.create_new_mem_area(mm_addr, le + 1, le + len);
                    return Some(x);
                }
            }
        }
    }
}

} // verus!
