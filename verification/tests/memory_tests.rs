use lee_os::memory::{
    alloc_route, get_inpage_offset, get_page_start, get_pdpt_offset, get_pdt_offset, get_pml4_offset,
    get_pt_offset, page2phys, page2virt, phys2page, phys2virt, virt2page, virt2phys, AllocRoute, MemoryPool,
    Page, Pml4, Pml4Entry, Pt, PtEntry, LINEAR_MAP_AREA_START, LINEAR_PHYS_BASE, PHYADDR_START,
};

fn pool_with(frames: usize, used: usize) -> MemoryPool {
    let mut p = MemoryPool::new();
    for i in 0..frames {
        p.mem_map.push(Page { refcount: if i < used { 1 } else { 0 }, flags: 0 });
    }
    p.lowest_idx = used;
    p.free_pages = frames - used;
    p
}

#[test]
fn page_conversions_round_trip() {
    assert_eq!(page2phys(0), PHYADDR_START);
    assert_eq!(page2phys(3), PHYADDR_START + 3 * 4096);
    assert_eq!(phys2page(PHYADDR_START + 5 * 4096 + 7), 5);
    assert_eq!(page2virt(2), LINEAR_MAP_AREA_START + 2 * 4096 + PHYADDR_START);
    assert_eq!(virt2page(page2virt(9)), 9);
    assert_eq!(phys2page(page2phys(11)), 11);
    assert_eq!(phys2virt(PHYADDR_START + 4096), LINEAR_PHYS_BASE + 4096);
    assert_eq!(virt2phys(LINEAR_PHYS_BASE + 2 * 4096 + 12), PHYADDR_START + 2 * 4096);
}

#[test]
fn address_split_into_table_indices() {
    let a: u64 = (3u64 << 39) | (5u64 << 30) | (7u64 << 21) | (9u64 << 12) | 0x123;
    assert_eq!(get_pml4_offset(a), 3);
    assert_eq!(get_pdpt_offset(a), 5);
    assert_eq!(get_pdt_offset(a), 7);
    assert_eq!(get_pt_offset(a), 9);
    assert_eq!(get_inpage_offset(a), (a & 0xfffff) as usize);
    assert_eq!(get_page_start(0x1234_5678), 0x1234_5000);
}

#[test]
fn entry_fields_set_and_read_back() {
    let mut e = PtEntry(0);
    e.set_present(1);
    e.set_dirty(1);
    e.set_page_offset(0xabc);
    assert_eq!(e.get_present(), 1);
    assert_eq!(e.get_dirty(), 1);
    assert_eq!(e.get_wr(), 0);
    assert_eq!(e.get_page_offset(), 0xabc);
    assert_eq!(e.0, (0xabc << 12) | 1 | (1 << 6));
    let mut d = Pml4Entry(0xffff_ffff_ffff_ffff);
    d.set_us(0);
    assert_eq!(d.get_us(), 0);
    assert_eq!(d.get_wr(), 1);
}

#[test]
fn set_pt_fills_every_field() {
    let mut e = PtEntry(0);
    MemoryPool::set_pt(&mut e, 0x5000, true, true, false, false, false, false, false, false, true);
    assert_eq!(e.get_present(), 1);
    assert_eq!(e.get_wr(), 1);
    assert_eq!(e.get_us(), 0);
    assert_eq!(e.get_global(), 1);
    assert_eq!(e.get_page_offset(), 5);
    assert_eq!(e.0, 0x5000 | 1 | 2 | (1 << 8));
}

#[test]
fn set_pml4_fills_absent_entry_only() {
    let mut t = Pml4 { entry: [Pml4Entry(0); 512] };
    let vaddr: u64 = 4u64 << 39;
    MemoryPool::set_pml4(&mut t, vaddr, 0x7000, false, true, true);
    assert_eq!(t.entry[4].0, 0x7000 | 1 | 2);
    MemoryPool::set_pml4(&mut t, vaddr, 0x9000, true, false, false);
    assert_eq!(t.entry[4].0, 0x7000 | 1 | 2);
    MemoryPool::set_pdpt(&mut t, 2u64 << 30, 0x3000, true, false, false);
    assert_eq!(t.entry[2].0, 0x3000 | 1 | 4 | 0x80);
    MemoryPool::set_pdt(&mut t, 6u64 << 21, 0x1000, false, true, false);
    assert_eq!(t.entry[6].0, 0x1000 | 1);
    assert_eq!(t.entry[0].0, 0);
}

#[test]
fn init_pt_maps_pages_until_size_is_covered() {
    let mut pt = Pt { entry: [PtEntry(0); 512] };
    let mut size: usize = 3 * 4096 + 1;
    let mut paddr: u64 = 0x200000;
    MemoryPool::init_pt(&mut pt, &mut size, 10u64 << 12, &mut paddr);
    assert_eq!(size, 0);
    assert_eq!(paddr, 0x200000 + 4 * 4096);
    for i in 10..14 {
        assert_eq!(pt.entry[i].get_page_offset(), (0x200000 + (i as u64 - 10) * 4096) >> 12);
        assert_eq!(pt.entry[i].get_present(), 1);
        assert_eq!(pt.entry[i].get_global(), 1);
    }
    assert_eq!(pt.entry[14].0, 0);
    assert_eq!(pt.entry[9].0, 0);
}

#[test]
fn init_pt_stops_at_table_end() {
    let mut pt = Pt { entry: [PtEntry(0); 512] };
    let mut size: usize = 10 * 4096;
    let mut paddr: u64 = 0;
    MemoryPool::init_pt(&mut pt, &mut size, 510u64 << 12, &mut paddr);
    assert_eq!(paddr, 2 * 4096);
    assert_eq!(size, 10 * 4096 - 4096);
    assert_eq!(pt.entry[511].get_page_offset(), 1);
}

#[test]
fn empty_pool_gives_null() {
    let mut p = MemoryPool::new();
    assert_eq!(p.alloc_frames(1), 0);
    let mut ks: u64 = 0;
    assert_eq!(p.alloc_frame_temporary(&mut ks), 0);
    assert_eq!(ks, 0);
}

#[test]
fn temporary_allocation_takes_first_unused_frame() {
    let mut p = pool_with(8, 2);
    p.mem_map[2].refcount = 3;
    let mut ks: u64 = 0x1000;
    let a = p.alloc_frame_temporary(&mut ks);
    assert_eq!(a, page2virt(3));
    assert_eq!(p.mem_map[3].refcount, 1);
    assert_eq!(p.lowest_idx, 4);
    assert_eq!(p.free_pages, 5);
    assert_eq!(ks, 0x2000);
}

#[test]
fn buddy_allocation_after_init() {
    let mut p = pool_with(128, 4);
    p.init_frame_allocator(128);
    let a = p.alloc_frames(1);
    assert_ne!(a, 0);
    let frame = virt2page(a) as usize;
    assert!(frame >= 4 && frame < 128);
    assert_eq!(p.get_page_descripter(frame).refcount, 1);
    assert_eq!(p.free_pages, 123);
    let b = p.alloc_frames(4);
    assert_ne!(b, 0);
    let fb = virt2page(b) as usize;
    assert!(fb >= 4 && fb + 4 <= 128);
    assert!(fb + 4 <= frame || frame < fb);
    for i in fb..fb + 4 {
        assert_eq!(p.mem_map[i].refcount, 1);
    }
    assert_eq!(p.free_pages, 119);
}

#[test]
fn buddy_allocation_runs_out() {
    let mut p = pool_with(36, 0);
    p.init_frame_allocator(36);
    assert_ne!(p.alloc_frames(32), 0);
    assert_ne!(p.alloc_frames(4), 0);
    let before = p.free_pages;
    assert_eq!(p.alloc_frames(1), 0);
    assert_eq!(p.free_pages, before);
}

#[test]
fn used_page_counter_marks_prefix() {
    let mut p = pool_with(4, 0);
    p.init_used_page_counter(2);
    assert_eq!(p.mem_map[0].refcount, 1);
    assert_eq!(p.mem_map[1].refcount, 1);
    assert_eq!(p.mem_map[2].refcount, 0);
}

#[test]
fn heap_route_by_size() {
    assert!(alloc_route(0).is_none());
    assert!(matches!(alloc_route(8), Some(AllocRoute::Slab(3))));
    assert!(matches!(alloc_route(4097), Some(AllocRoute::Pages(2))));
    assert!(matches!(alloc_route(8192), Some(AllocRoute::Pages(2))));
    assert_eq!(MemoryPool::get_page_idx(0x1234_5678), 0x12345);
}
