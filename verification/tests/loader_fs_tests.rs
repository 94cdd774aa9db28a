use lee_os::io::{ide_ctrl_setup, IDE_IOBASE_PRIMARY, IDE_IOBASE_SECONDARY, IDE_LBA_MASTER, IDE_LBA_SLAVE};
use lee_os::clock::{clock_init, RealTimeClock};
use lee_os::cpu::{get_cpu_number, init_crc32, supports_1gb_page};
use lee_os::crc32c::{crc32_body, crc32_tables, crc32c_le, crc32c_le_generic, swap32, CRC32C_POLY_LE};
use lee_os::device::mkdev;
use lee_os::elf64::{
    elf64_validate, load_elf64, load_segment64, Elf64Ehdr, Elf64Phdr, Elf64Shdr, SegmentLoad, EM_386, ET_EXEC,
    PT_LOAD, PT_NOTE,
};
use lee_os::errno_base::{EBUSY, EINVAL, ENOSPC};
use lee_os::fs_types::permission;
use lee_os::ida::Ida;
use lee_os::io::{ide_error, ide_identify, ide_part_init, ide_select_sector, ide_swap_pairs, IdeDiskT, IdeError, EOF};
use lee_os::mm_type::{
    arch_check_prot_writable, page_fault_action, MMStruct, PageFaultAction, VMAreaStruct, MAP_ANONYMOUS,
    MAP_PRIVATE, PROT_EXEC, PROT_KERNEL, PROT_READ, PROT_WRITE,
};
use lee_os::namei::{handle_dots, plan_path, DotStep, PathAnchor};
use lee_os::relocation::{
    kernel_load_sections, load_system_section, process_relocation, relative_addend, rx86_64_relative_relocate,
    system_relocate64, Elf64Rela, SectionLoad, R_X86_64_RELATIVE, SHT_RELA,
};
use lee_os::string::{memcpy_s, memset, strchr, strsep};
use lee_os::super_block::{
    get_anon_bdev, get_tree_bdev, get_tree_bdev_filled, get_tree_bdev_start, get_tree_bdev_got_super, get_tree_bdev_looked_up,
    TreeBdevStep,
};
use lee_os::vfs::{SB_ACTIVE, SB_RDONLY};
use lee_os::dcache::DEntry;
use lee_os::file_system::FileSystem;
use lee_os::fs_context::FsContext;

fn crc32c_tables() -> [[u32; 256]; 8] {
    let mut t = [[0u32; 256]; 8];
    for n in 0..256u32 {
        let mut c = n;
        for _ in 0..8 {
            c = if c & 1 != 0 { (c >> 1) ^ 0x82F6_3B78 } else { c >> 1 };
        }
        t[0][n as usize] = c;
    }
    for i in 1..8 {
        for n in 0..256 {
            let prev = t[i - 1][n];
            t[i][n] = (prev >> 8) ^ t[0][(prev & 0xff) as usize];
        }
    }
    t
}

fn crc32c_bytewise(mut crc: u32, data: &[u8], t0: &[u32; 256]) -> u32 {
    for &b in data {
        crc = (crc >> 8) ^ t0[((crc ^ b as u32) & 0xff) as usize];
    }
    crc
}

#[test]
fn crc32c_check_value() {
    let t = crc32c_tables();
    assert_eq!(crc32c_le_generic(!0, b"123456789", 0, &t, false) ^ !0, 0xE306_9283);
    assert_eq!(crc32_body(!0, b"", 0, &t), !0);
}

#[test]
fn crc32c_sliced_matches_bytewise_at_any_address() {
    let t = crc32c_tables();
    let data: Vec<u8> = (0..203u32).map(|i| (i * 37 + 11) as u8).collect();
    for len in [0usize, 1, 3, 7, 8, 9, 15, 16, 17, 64, 100, 203] {
        let expect = crc32c_bytewise(0x1234_5678, &data[..len], &t[0]);
        for addr in [0usize, 1, 2, 3, 0x1000, 0x1003] {
            assert_eq!(crc32_body(0x1234_5678, &data[..len], addr, &t), expect, "len {} addr {}", len, addr);
        }
    }
    assert_eq!(swap32(0x1122_3344), 0x4433_2211);
}

#[test]
fn crc32c_register_after_the_check_string_at_every_alignment() {
    let t = crc32c_tables();
    let mut bytes = [0u8; 12];
    for shift in 0..4usize {
        bytes[shift..shift + 9].copy_from_slice(b"123456789");
        for addr in [shift, 0x2000 + shift] {
            assert_eq!(crc32_body(0xFFFF_FFFF, &bytes[shift..shift + 9], addr, &t), 0x1CF9_6D7C);
        }
    }
}

#[test]
fn crc32c_tables_are_made_from_the_polynomial() {
    let t = crc32_tables(CRC32C_POLY_LE);
    assert_eq!(t, crc32c_tables());
    assert_eq!(t[0][1], 0xF26B_8303);
    assert_eq!(t[0][128], 0x82F6_3B78);
    assert_eq!(crc32c_le(!0, b"123456789", 0, false) ^ !0, 0xE306_9283);
    assert_eq!(crc32c_le(!0, b"123456789", 3, false), 0x1CF9_6D7C);
    assert_eq!(crc32c_le(0x55, b"", 0, false), 0x55);
}

fn good_header() -> Elf64Ehdr {
    let mut id = [0u8; 16];
    id[..7].copy_from_slice(&[0x7f, b'E', b'L', b'F', 2, 1, 1]);
    Elf64Ehdr {
        e_ident: id,
        e_type: ET_EXEC,
        e_machine: EM_386,
        e_version: 1,
        e_entry: 0x401000,
        e_phoff: 64,
        e_shoff: 0,
        e_flags: 0,
        e_ehsize: 64,
        e_phentsize: 56,
        e_phnum: 2,
        e_shentsize: 64,
        e_shnum: 0,
        e_shstrndx: 0,
    }
}

fn phdr(p_type: u32, flags: u32, offset: u64, vaddr: u64, filesz: u64, memsz: u64) -> Elf64Phdr {
    Elf64Phdr { p_type, p_flags: flags, p_offset: offset, p_vaddr: vaddr, p_paddr: vaddr, p_filesz: filesz, p_memsz: memsz, p_align: 4096 }
}

#[test]
fn elf_header_checks() {
    let h = good_header();
    assert!(elf64_validate(&h));
    let mut bad = h;
    bad.e_ident[1] = b'X';
    assert!(!elf64_validate(&bad));
    let mut bad = h;
    bad.e_machine = 62;
    assert!(!elf64_validate(&bad));
    let mut bad = h;
    bad.e_phentsize = 32;
    assert!(!elf64_validate(&bad));
}

#[test]
fn segment_plans() {
    let l = load_segment64(&phdr(PT_LOAD, 0x5, 0x1234, 0x401234, 0x100, 0x2000));
    assert!(l == SegmentLoad::Mapped {
        addr: 0x401000,
        size: 0x3000,
        prot: PROT_READ | PROT_EXEC,
        flags: MAP_PRIVATE,
        from_file: true,
        offset: 0x1000,
    });
    let bss = load_segment64(&phdr(PT_LOAD, 0x6, 0x3000, 0x600000, 0, 0x10));
    assert!(bss == SegmentLoad::Mapped {
        addr: 0x600000,
        size: 0x1000,
        prot: PROT_READ | PROT_WRITE,
        flags: MAP_PRIVATE | MAP_ANONYMOUS,
        from_file: false,
        offset: 0x3000,
    });
    let ro = load_segment64(&phdr(PT_LOAD, 0x4, 0x40, 0, 0x80, 0x80));
    assert!(ro == SegmentLoad::ReadOnly { size: 0x80, offset: 0x40 });
}

#[test]
fn program_load_plan() {
    let phdrs = [
        phdr(PT_NOTE, 0x4, 0, 0x400000, 0x10, 0x10),
        phdr(PT_LOAD, 0x5, 0x1000, 0x401000, 0x200, 0x200),
        phdr(PT_LOAD, 0x6, 0x2000, 0x402000, 0, 0x100),
    ];
    let h = good_header();
    assert!(load_elf64(&h, &phdrs).is_none());
    let mut other = h;
    other.e_type = 1;
    let (loads, entry) = load_elf64(&other, &phdrs).unwrap();
    assert_eq!(entry, 0x401000);
    assert_eq!(loads.len(), 2);
    assert!(loads[0] == load_segment64(&phdrs[1]));
    assert!(loads[1] == load_segment64(&phdrs[2]));
}

#[test]
fn relocations() {
    assert_eq!(relative_addend(0x1000), 0xffff_8000_0000_1000);
    assert_eq!(rx86_64_relative_relocate(0, 0x20), 0xffff_8000_0000_0020);
    let relas = [
        Elf64Rela { r_offset: 0x10, r_type: R_X86_64_RELATIVE, r_sym: 0, r_addend: 0x100 },
        Elf64Rela { r_offset: 0x18, r_type: R_X86_64_RELATIVE, r_sym: 0, r_addend: 0x200 },
    ];
    let patches = system_relocate64(&relas);
    assert_eq!(patches, vec![(0x10, 0xffff_8000_0000_0100), (0x18, 0xffff_8000_0000_0200)]);
    let mut shdrs = [Elf64Shdr { sh_name: 0, sh_type: 0, sh_flags: 0, sh_addr: 0, sh_offset: 0, sh_size: 0, sh_link: 0, sh_info: 0, sh_addralign: 0, sh_entsize: 0 }; 4];
    shdrs[1].sh_type = SHT_RELA;
    shdrs[3].sh_type = SHT_RELA;
    assert_eq!(process_relocation(&shdrs), vec![1, 3]);
    let phdrs = [phdr(PT_LOAD, 0, 0, 0, 0, 0), phdr(PT_NOTE, 0, 0, 0, 0, 0), phdr(PT_LOAD, 0, 0, 0, 0, 0)];
    assert_eq!(kernel_load_sections(&phdrs), vec![2]);
}

#[test]
fn system_section_reads() {
    let mut ks: usize = 0x1000;
    let p = Elf64Phdr { p_type: PT_LOAD, p_flags: 0, p_offset: 0x400, p_vaddr: 0, p_paddr: 0x100000, p_filesz: 300 * 512 + 1, p_memsz: 0x30000, p_align: 0 };
    match load_system_section(&p, 0x1000, &mut ks) {
        SectionLoad::Reads(v) => {
            assert_eq!(v.len(), 2);
            assert_eq!(v[0], (12, 0, 0x100000));
            assert_eq!(v[1], (12 + 256, (301 - 256 + 1) as u8, 0x100000 + 256 * 512));
        }
        SectionLoad::Bss { .. } => panic!("expected reads"),
    }
    assert_eq!(ks, 0x100000 + 0x30000);
    let bss = Elf64Phdr { p_type: PT_LOAD, p_flags: 0, p_offset: 0, p_vaddr: 0, p_paddr: 0x200000, p_filesz: 0, p_memsz: 0x500, p_align: 0 };
    let mut ks2: usize = 0x300000;
    assert!(matches!(load_system_section(&bss, 0x300000, &mut ks2), SectionLoad::Bss { addr: 0x200000, size: 0x500 }));
    assert_eq!(ks2, 0x300000);
}

#[test]
fn ide_helpers() {
    let mut buf = *b"EHLL\0O";
    ide_swap_pairs(&mut buf, 6);
    assert_eq!(&buf, b"HELLO\0");
    assert!(ide_error(0).is_empty());
    assert!(ide_error(0x80 | 0x04 | 0x01) == vec![IdeError::BadBlock, IdeError::Abort, IdeError::AddressMarkNotFound]);
    assert_eq!(ide_select_sector(0xe0, 0x0a0b0c0d, 2), [0, 2, 0x0d, 0x0c, 0x0b, 0x0a | 0xe0]);
}

#[test]
fn ide_identify_and_partitions() {
    let mut disk = IdeDiskT::new(0x1f0, 0xe0, true, 0, 0, 0, 0);
    let mut params = vec![0u8; 512];
    assert_eq!(ide_identify(&mut disk, &params), EOF);
    assert_eq!(disk.total_lba, 0);
    params[120..124].copy_from_slice(&100_000u32.to_le_bytes());
    params[2] = 0x10;
    params[6] = 0x04;
    params[12] = 0x3f;
    assert_eq!(ide_identify(&mut disk, &params), 0);
    assert_eq!((disk.total_lba, disk.cylinders, disk.heads, disk.sectors), (100_000, 0x10, 4, 0x3f));
    disk.name[..3].copy_from_slice(b"hda");
    let mut boot = vec![0u8; 512];
    let e = 446 + 16;
    boot[e + 4] = 0x83;
    boot[e + 8..e + 12].copy_from_slice(&2048u32.to_le_bytes());
    boot[e + 12..e + 16].copy_from_slice(&4096u32.to_le_bytes());
    ide_part_init(&mut disk, 0xdead, &boot);
    assert_eq!(disk.parts[0].count, 0);
    let p = disk.parts[1];
    assert_eq!((p.disk, p.system, p.start, p.count), (0xdead, 0x83, 2048, 4096));
    assert_eq!(&p.name[..4], b"hda2");
}

#[test]
fn path_walk_plan() {
    let mut buf = *b"/usr/bin/ls\0";
    let plan = plan_path(&mut buf);
    assert!(plan.anchor == PathAnchor::Root);
    assert_eq!(plan.lookups, vec![1, 5]);
    assert_eq!(plan.next, 9);
    assert_eq!(&buf, b"/usr\0bin\0ls\0");
    let mut rel = *b"a/b\0";
    let plan = plan_path(&mut rel);
    assert!(plan.anchor == PathAnchor::Pwd);
    assert_eq!(plan.lookups, vec![0]);
    assert_eq!(plan.next, 2);
    let mut empty = *b"\0";
    let plan = plan_path(&mut empty);
    assert!(plan.anchor == PathAnchor::Empty);
    assert!(plan.lookups.is_empty());
    let mut root = *b"/\0";
    let plan = plan_path(&mut root);
    assert!(plan.anchor == PathAnchor::Root);
    assert!(plan.lookups.is_empty());
    assert_eq!(plan.next, 1);
    let mut trailing = *b"dir/\0";
    let plan = plan_path(&mut trailing);
    assert!(plan.lookups.is_empty());
    assert_eq!(plan.next, 0);
    assert_eq!(&trailing, b"dir\0\0");
    assert!(handle_dots("..", true) == DotStep::CrossMount);
    assert!(handle_dots("..", false) == DotStep::Parent);
    assert!(handle_dots(".", false) == DotStep::Stay);
    assert!(handle_dots("etc", false) == DotStep::LookUp);
}

#[test]
fn string_helpers() {
    let mut s = *b"ab,cd\0";
    assert_eq!(strsep(&mut s, 0, b",\0"), Some(3));
    assert_eq!(&s, b"ab\0cd\0");
    assert_eq!(strsep(&mut s, 3, b",\0"), None);
    assert_eq!(strchr(b"hello\0", 0, b'l'), Some(2));
    assert_eq!(strchr(b"hello\0", 0, b'z'), None);
    let mut d = [0u8; 4];
    memcpy_s(&mut d, 4, &[1, 2, 3], 3);
    assert_eq!(d, [1, 2, 3, 0]);
    memset(&mut d, 9, 2);
    assert_eq!(d, [9, 9, 3, 0]);
}

#[test]
fn address_space_and_faults() {
    let mut mm = MMStruct::new(0x10);
    let mut a = VMAreaStruct::new(0x1000, 0x3000, 0x10, 0);
    a.set_prot(PROT_READ | PROT_WRITE);
    assert_eq!(a.get_prot(), 0x7);
    assert_eq!(a.get_end(), 0x2fff);
    let mut b = VMAreaStruct::new(0x5000, 0x6000, 0x10, 0);
    b.set_prot(PROT_READ | PROT_KERNEL);
    assert_eq!(b.get_prot(), 0x1);
    b.set_file(0x77);
    b.set_offset(0x2000);
    mm.mmap.push(a);
    mm.mmap.push(b);
    assert_eq!(mm.contain(0x1800), Some(0));
    assert_eq!(mm.contain(0x5800), Some(1));
    assert_eq!(mm.contain(0x4000), None);
    assert!(arch_check_prot_writable(0x7));
    assert!(!arch_check_prot_writable(0x5));
    assert!(page_fault_action(0x1 | 0x2, Some(&mm.mmap[0]), 0x1800) == PageFaultAction::CopyOnWrite);
    assert!(page_fault_action(0x1, Some(&mm.mmap[0]), 0x1800) == PageFaultAction::Nothing);
    assert!(page_fault_action(0x0, None, 0x9000) == PageFaultAction::Nothing);
    assert!(page_fault_action(0x0, Some(&mm.mmap[0]), 0x1800) == PageFaultAction::MapNewPage { prot: 0x7 });
    assert!(page_fault_action(0x4, Some(&mm.mmap[1]), 0x6800) == PageFaultAction::MapFileBlock { idx: 3, prot: 0x1 });
}

#[test]
fn area_order() {
    let a = VMAreaStruct::new(0x1000, 0x2000, 0, 0);
    let b = VMAreaStruct::new(0x3000, 0x4000, 0, 0);
    let inner = VMAreaStruct::new(0x3000, 0x3800, 0, 0);
    let overlap = VMAreaStruct::new(0x1800, 0x3800, 0, 0);
    assert_eq!(a.partial_cmp(&b), Some(std::cmp::Ordering::Less));
    assert_eq!(b.partial_cmp(&a), Some(std::cmp::Ordering::Greater));
    assert_eq!(inner.partial_cmp(&b), Some(std::cmp::Ordering::Equal));
    assert_eq!(overlap.partial_cmp(&b), None);
}

#[test]
fn permissions() {
    assert!(permission(0o640, 10, 20, 10, 99, 6));
    assert!(!permission(0o640, 10, 20, 11, 20, 2));
    assert!(permission(0o640, 10, 20, 11, 20, 4));
    assert!(!permission(0o640, 10, 20, 11, 21, 4));
    assert!(permission(0o000, 10, 20, 0, 0, 7));
}

#[test]
fn tree_bdev_steps() {
    assert!(get_tree_bdev_start(&String::new()) == TreeBdevStep::Fail(-EINVAL));
    assert!(get_tree_bdev_start(&String::from("/dev/hda1")) == TreeBdevStep::LookupBdev);
    assert!(get_tree_bdev_looked_up(-2) == TreeBdevStep::Fail(-2));
    assert!(get_tree_bdev_looked_up(0) == TreeBdevStep::GetSuper);
    assert!(get_tree_bdev_got_super(Some(-12), false, 0, 0) == TreeBdevStep::Fail(-12));
    assert!(get_tree_bdev_got_super(None, true, SB_RDONLY, 0) == TreeBdevStep::DeactivateAndFail(-EBUSY));
    assert!(get_tree_bdev_got_super(None, true, SB_RDONLY, SB_RDONLY) == TreeBdevStep::TakeRoot);
    assert!(get_tree_bdev_got_super(None, false, 0, 0) == TreeBdevStep::FillSuper);
    assert!(get_tree_bdev_filled(-5, 0) == TreeBdevStep::DeactivateAndFail(-5));
    assert!(get_tree_bdev_filled(0, SB_RDONLY) == TreeBdevStep::Activate(SB_RDONLY | SB_ACTIVE));
}

#[test]
fn tree_bdev_runs_the_whole_sequence() {
    let dev = 0x1030_0001;
    let mut fs = FileSystem::new();
    let mut root = DEntry::empty(None);

    let mut fc = FsContext::context_for_mount(0x77, 0);
    assert_eq!(get_tree_bdev(&mut fs, &mut fc, 0, dev, 0, 0x5000, &mut root), -EINVAL);
    fc.source = String::from("/dev/hda1");
    assert_eq!(get_tree_bdev(&mut fs, &mut fc, -2, dev, 0, 0x5000, &mut root), -2);
    assert!(fs.get_logical_part(dev).is_none());

    // a new part whose fill fails is dropped
    assert_eq!(get_tree_bdev(&mut fs, &mut fc, 0, dev, -5, 0x5000, &mut root), -5);
    assert!(fs.get_logical_part(dev).is_none());
    assert_eq!(fc.root, 0);
    assert_eq!(root.d_ref, 1);

    // a new part is filled and activated
    assert_eq!(get_tree_bdev(&mut fs, &mut fc, 0, dev, 0, 0x5000, &mut root), 0);
    let p = fs.get_logical_part(dev).unwrap();
    assert_eq!(p.s_root, 0x5000);
    assert_eq!(p.s_flags, SB_ACTIVE);
    assert_eq!(p.fs_type, 0x77);
    assert_eq!(fc.root, 0x5000);
    assert_eq!(root.d_ref, 2);

    // the part in use is taken again, and fill is not asked
    let mut fc2 = FsContext::context_for_mount(0x77, 0);
    fc2.source = String::from("/dev/hda1");
    assert_eq!(get_tree_bdev(&mut fs, &mut fc2, 0, dev, -9, 0x6000, &mut root), 0);
    assert_eq!(fc2.root, 0x5000);
    assert_eq!(root.d_ref, 3);

    // a read-only context disagrees with the part in use
    let mut fc3 = FsContext::context_for_mount(0x77, SB_RDONLY);
    fc3.source = String::from("/dev/hda1");
    assert_eq!(get_tree_bdev(&mut fs, &mut fc3, 0, dev, 0, 0x6000, &mut root), -EBUSY);
    assert!(fs.get_logical_part(dev).is_none());
    assert_eq!(fc3.root, 0);
    assert_eq!(root.d_ref, 3);
}

#[test]
fn anonymous_devices() {
    let mut ida = Ida::new();
    let mut dev = 0xffff;
    assert_eq!(get_anon_bdev(&mut ida, &mut dev), 0);
    assert_eq!(dev, mkdev(0, 0));
    assert_eq!(get_anon_bdev(&mut ida, &mut dev), 0);
    assert_eq!(dev, mkdev(0, 1));
    let mut full = Ida::new();
    for _ in 0..=0x100000 {
        full.alloc_range(0, 0x100000);
    }
    let mut d2 = 5;
    assert_eq!(get_anon_bdev(&mut full, &mut d2), -ENOSPC);
    assert_eq!(d2, 5);
}

#[test]
fn machine_setup_values() {
    assert_eq!(get_cpu_number(), 1);
    assert!(init_crc32(1 << 20));
    assert!(!init_crc32(0));
    assert!(supports_1gb_page(1 << 26));
    assert!(!supports_1gb_page(0));
    let w = clock_init();
    assert_eq!(w[1].1, 0x19);
    assert_eq!(w[2].1, 0xd2);
    assert_eq!(w[4].1, 0xee);
    assert_eq!(w[5].1, 0x69);
    assert_eq!(RealTimeClock::cmos_address(0x0a), 0x8a);
}

#[test]
fn controller_setup_names_disks() {
    let c0 = ide_ctrl_setup(0, 0x5000, 0x08);
    assert_eq!(&c0.name, b"ide0\0\0\0\0");
    assert_eq!(c0.control, 0x08);
    assert_eq!(c0.iobase, IDE_IOBASE_PRIMARY);
    assert_eq!(&c0.disks[0].name, b"hda\0\0\0\0\0");
    assert_eq!(&c0.disks[1].name, b"hdb\0\0\0\0\0");
    assert!(c0.disks[0].master && !c0.disks[1].master);
    assert_eq!((c0.disks[0].selector, c0.disks[1].selector), (IDE_LBA_MASTER, IDE_LBA_SLAVE));
    assert_eq!(c0.disks[1].ctrl, 0x5000);
    let c1 = ide_ctrl_setup(1, 0x6000, 0x50);
    assert_eq!(c1.control, 0x50);
    assert_eq!(&c1.name, b"ide1\0\0\0\0");
    assert_eq!(c1.iobase, IDE_IOBASE_SECONDARY);
    assert_eq!(&c1.disks[0].name, b"hdc\0\0\0\0\0");
    assert_eq!(&c1.disks[1].name, b"hdd\0\0\0\0\0");
}

#[test]
fn section_header_read_position() {
    assert_eq!(lee_os::relocation::kernel_shdr_read(0x1234, 10), (19, 2, 0x34));
    assert_eq!(lee_os::relocation::kernel_shdr_read(1024, 8), (12, 1, 0));
}

#[test]
fn area_list_insertion() {
    let mut mm = MMStruct::new(0x10);
    assert_eq!(mm.create_new_mem_area(0x20, 0x1000, 0x2000), 0);
    assert_eq!(mm.mmap.len(), 1);
    assert_eq!(mm.create_new_mem_area(0x20, 0x8000, 0x9000), 1);
    assert_eq!(mm.create_new_mem_area(0x20, 0x4000, 0x5000), 1);
    let starts: Vec<u64> = mm.mmap.iter().map(|a| a.vm_start).collect();
    assert_eq!(starts, vec![0x1000, 0x4000, 0x8000]);
    let mut follow = VMAreaStruct::new(0x5000, 0x6000, 0x20, 0);
    follow.set_offset(0x1000);
    assert_eq!(mm.insert_vma(follow), 1);
    assert_eq!(mm.mmap.len(), 3);
    assert_eq!(mm.mmap[1].vm_end, 0x5fff);
    let mut tail = VMAreaStruct::new(0x9000, 0xa000, 0x20, 0);
    tail.set_offset(0x1000);
    assert_eq!(mm.insert_vma(tail), 2);
    assert_eq!(mm.mmap.len(), 3);
    assert_eq!(mm.mmap[2].vm_end, 0x8fff);
}

#[test]
fn free_space_search() {
    let mut mm = MMStruct::new(0x10);
    mm.mmap.push(VMAreaStruct::new(0x1000, 0x2000, 0x20, 0));
    assert_eq!(mm.scan_empty_space(0x20, 0x1000, 0x1000, 0x10000), Some(1));
    assert_eq!((mm.mmap[1].vm_start, mm.mmap[1].vm_end), (0x2000, 0x2ffe));
    let mut gap = MMStruct::new(0x10);
    gap.mmap.push(VMAreaStruct::new(0x1000, 0x2000, 0x20, 0));
    gap.mmap.push(VMAreaStruct::new(0x3000, 0x4000, 0x20, 0));
    assert_eq!(gap.scan_empty_space(0x20, 0x1000, 0x1000, 0x10000), None);
    assert_eq!(gap.mmap.len(), 2);
}
