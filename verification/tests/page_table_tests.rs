use lee_os::memory::Page;
use lee_os::page_table::{arch_copy_page_table, copy_page_table, x86_64_copy_pml4, PageTables, SpaceCopy};

fn descriptors(n: usize) -> Vec<Page> {
    let mut v = Vec::new();
    for _ in 0..n {
        v.push(Page { refcount: 1, flags: 0 });
    }
    v
}

#[test]
fn fresh_tables_map_nothing() {
    let t = PageTables::new();
    assert_eq!(t.frame_count(), 1);
    assert_eq!(t.lookup(0), 0);
    assert_eq!(t.lookup(0x400000), 0);
    assert_eq!(t.lookup(0xffff_8000_0000_0000), 0);
}

#[test]
fn linking_a_page_maps_it_and_nothing_else() {
    let mut t = PageTables::new();
    t.link_user_page_by_prot_bit(0x400000, 0x200000, 0x7);
    assert_eq!(t.lookup(0x400000), 0x200007);
    assert_eq!(t.lookup(0x400abc), 0x200007);
    assert_eq!(t.lookup(0x401000), 0);
    assert_eq!(t.lookup(0x3ff000), 0);
    // three tables were made below the level-4 table
    assert_eq!(t.frame_count(), 4);
    // a second page in the same 2 MiB region reuses them
    t.link_user_page_by_prot_bit(0x401000, 0x201000, 0x5);
    assert_eq!(t.frame_count(), 4);
    assert_eq!(t.lookup(0x401000), 0x201005);
    assert_eq!(t.lookup(0x400000), 0x200007);
}

#[test]
fn changing_protection_keeps_the_frame() {
    let mut t = PageTables::new();
    t.link_user_page_by_prot_bit(0x400000, 0x200000, 0x7);
    t.change_page_prot_by_prot_bit(0x400000, 0x5);
    assert_eq!(t.lookup(0x400000), 0x200005);
    t.change_page_prot_by_prot_bit(0x400000, 0x7);
    assert_eq!(t.lookup(0x400000), 0x200007);
    // an unmapped page gets its tables and an entry of just the given bits
    t.change_page_prot_by_prot_bit(0x800000, 0x3);
    assert_eq!(t.lookup(0x800000), 0x3);
}

#[test]
fn fork_copy_write_protects_both_sides() {
    let mut src = PageTables::new();
    src.link_user_page_by_prot_bit(0x400000, 0x200000, 0x7);
    src.link_user_page_by_prot_bit(0x401000, 0x201000, 0x5);
    src.link_user_page_by_prot_bit(0x4000_0000, 0x202000, 0x7);
    src.link_user_page_by_prot_bit(0x1_0000_0000, 0x203000, 0x7);
    let mut dst = PageTables::new();
    let mut mem_map = descriptors(1024);
    let protected = x86_64_copy_pml4(&mut dst, &mut src, 0x400000, 0x4000_1000, &mut mem_map);
    assert_eq!(protected, vec![0x400000, 0x4000_0000]);
    assert_eq!(dst.lookup(0x400000), 0x200005);
    assert_eq!(src.lookup(0x400000), 0x200005);
    assert_eq!(dst.lookup(0x401000), 0x201005);
    assert_eq!(src.lookup(0x401000), 0x201005);
    assert_eq!(dst.lookup(0x4000_0000), 0x202005);
    assert_eq!(src.lookup(0x4000_0000), 0x202005);
    // outside the range nothing is copied and the source keeps its rights
    assert_eq!(dst.lookup(0x1_0000_0000), 0);
    assert_eq!(src.lookup(0x1_0000_0000), 0x203007);
    // the frames of the writable pages gained a reference
    assert_eq!(mem_map[0x200 - 256].refcount, 2);
    assert_eq!(mem_map[0x201 - 256].refcount, 1);
    assert_eq!(mem_map[0x202 - 256].refcount, 2);
    assert_eq!(mem_map[0x203 - 256].refcount, 1);
}

#[test]
fn fork_copy_gives_parent_and_child_the_same_read_only_entries() {
    let mut src = PageTables::new();
    for k in 0..8u64 {
        src.link_user_page_by_prot_bit(0x600000 + k * 0x1000, 0x300000 + k * 0x1000, 0x7);
    }
    let mut dst = PageTables::new();
    let mut mem_map = descriptors(2048);
    let protected = arch_copy_page_table(&mut dst, &mut src, 0x600000, 0x608000, &mut mem_map);
    assert_eq!(protected.len(), 8);
    for k in 0..8u64 {
        let a = 0x600000 + k * 0x1000;
        assert_eq!(protected[k as usize], a);
        assert_eq!(dst.lookup(a), src.lookup(a));
        assert_eq!((dst.lookup(a) >> 1) & 1, 0);
        assert_eq!(mem_map[(0x300 + k) as usize - 256].refcount, 2);
    }
}

#[test]
fn fork_copy_unmaps_regions_the_source_does_not_map() {
    let mut src = PageTables::new();
    src.link_user_page_by_prot_bit(0x400000, 0x200000, 0x5);
    let mut dst = PageTables::new();
    dst.link_user_page_by_prot_bit(0x600000, 0x210000, 0x7);
    let mut mem_map = descriptors(1024);
    let protected = x86_64_copy_pml4(&mut dst, &mut src, 0x400000, 0x800000, &mut mem_map);
    assert!(protected.is_empty());
    assert_eq!(dst.lookup(0x400000), 0x200005);
    assert_eq!(dst.lookup(0x600000), 0);
}

#[test]
fn fork_copy_of_an_empty_range_changes_nothing() {
    let mut src = PageTables::new();
    src.link_user_page_by_prot_bit(0x400000, 0x200000, 0x7);
    let mut dst = PageTables::new();
    let mut mem_map = descriptors(1024);
    let protected = x86_64_copy_pml4(&mut dst, &mut src, 0x400000, 0x400000, &mut mem_map);
    assert!(protected.is_empty());
    assert_eq!(src.lookup(0x400000), 0x200007);
    assert_eq!(dst.lookup(0x400000), 0);
    assert_eq!(mem_map[256].refcount, 1);
}

fn pool_with_free_frames() -> lee_os::memory::MemoryPool {
    let mut p = lee_os::memory::MemoryPool::new();
    for i in 0..128usize {
        p.mem_map.push(Page { refcount: if i < 64 { 1 } else { 0 }, flags: 0 });
    }
    p.lowest_idx = 64;
    p.free_pages = 64;
    p.init_frame_allocator(128);
    p
}

#[test]
fn copy_on_write_gives_a_shared_page_its_own_frame() {
    let mut pool = pool_with_free_frames();
    pool.mem_map[10].refcount = 2;
    let mut t = PageTables::new();
    t.link_user_page_by_prot_bit(0x400000, (10 + 256) * 4096, 0x5);
    let new_page = t.copy_on_write(0x400000, &mut pool);
    assert_ne!(new_page, 0);
    let s = (new_page - lee_os::memory::LINEAR_MAP_AREA_START - lee_os::memory::PHYADDR_START) / 4096;
    assert!((64..128).contains(&s));
    assert_eq!(t.lookup(0x400000), ((256 + s) << 12) | 0x7);
    assert_eq!(pool.mem_map[10].refcount, 1);
    assert_eq!(pool.mem_map[s as usize].refcount, 1);
    assert_eq!(pool.free_pages, 63);
}

#[test]
fn copy_on_write_of_an_unshared_page_only_allows_writing() {
    let mut pool = pool_with_free_frames();
    let mut t = PageTables::new();
    t.link_user_page_by_prot_bit(0x400000, (10 + 256) * 4096, 0x5);
    let new_page = t.copy_on_write(0x400000, &mut pool);
    assert_eq!(new_page, 0);
    assert_eq!(t.lookup(0x400000), ((10 + 256) << 12) | 0x7);
    assert_eq!(pool.mem_map[10].refcount, 1);
    assert_eq!(pool.free_pages, 64);
}

#[test]
fn linking_a_user_page_takes_a_frame_from_the_pool() {
    let mut pool = pool_with_free_frames();
    let mut t = PageTables::new();
    t.link_user_page(0x400123, 0x7, &mut pool);
    let e = t.lookup(0x400000);
    assert_eq!(e & 0xfff, 0x7);
    let frame = (e >> 12) - 256;
    assert!((64..128).contains(&frame));
    assert_eq!(pool.mem_map[frame as usize].refcount, 1);
    assert_eq!(pool.free_pages, 63);
    assert_eq!(t.lookup(0x401000), 0);
}

#[test]
fn copying_an_address_space_copies_each_area() {
    let mut src = PageTables::new();
    src.link_user_page_by_prot_bit(0x400000, 0x200000, 0x7);
    src.link_user_page_by_prot_bit(0x800000, 0x201000, 0x5);
    src.link_user_page_by_prot_bit(0xc00000, 0x202000, 0x7);
    let mut mem_map = descriptors(1024);
    let areas = vec![(0x400000u64, 0x401000u64), (0x800000u64, 0x802000u64)];
    match copy_page_table(&mut src, &areas, 0, &mut mem_map, 0) {
        SpaceCopy::Copied(d, wp) => {
            assert_eq!(wp, vec![0x400000]);
            assert_eq!(d.lookup(0x400000), 0x200005);
            assert_eq!(d.lookup(0x800000), 0x201005);
            assert_eq!(d.lookup(0xc00000), 0);
            assert_eq!(src.lookup(0xc00000), 0x202007);
            assert_eq!(src.lookup(0x400000), 0x200005);
            assert_eq!(mem_map[0x200 - 256].refcount, 2);
        }
        _ => panic!("expected a copy"),
    }
}

#[test]
fn a_clone_that_shares_memory_shares_the_tables() {
    let mut src = PageTables::new();
    src.link_user_page_by_prot_bit(0x400000, 0x200000, 0x7);
    let mut mem_map = descriptors(16);
    let areas = vec![(0x400000u64, 0x401000u64)];
    let r = copy_page_table(&mut src, &areas, lee_os::memory::CLONE_VM, &mut mem_map, 3);
    assert!(matches!(r, SpaceCopy::Shared));
    assert_eq!(mem_map[3].refcount, 2);
    assert_eq!(src.lookup(0x400000), 0x200007);
}
