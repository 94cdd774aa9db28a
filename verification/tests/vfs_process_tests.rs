use lee_os::errno_base::{EFAULT, EINVAL, ENOPARAM, ENOSPC};
use lee_os::fs_context::{
    common_clear_sb_flag, common_set_sb_flag, lookup_constant, str_eq, vfs_parse_fs_param_source,
    vfs_parse_fs_string, vfs_parse_sb_flag, vfs_parsefs_param_common, vfs_parsefs_param_finish, FsContext,
    FsContextPurpose, FsValueType, ParamStep,
};
use lee_os::mount::{
    count_mounts, is_mnt_shared, mount_too_revealing, set_mnt_shared, sys_mount, MntNamespace, MountPoints,
    MNT_SHARED, MNT_UNBINDABLE,
};
use lee_os::process::{
    copy_process, dup_pcb, fork_clone_args, sys_fork, sys_vfork, task_switch_loads_cr3, task_to_user_mode, vfork_clone_args,
    ProcessControlBlock, PtRegs, SchedDecision, Scheduler, PCB_MAGIC, PROCESS_NAME_LEN,
};
use lee_os::vfs::{SB_LAZYTIME, SB_RDONLY, SB_SYNCHRONOUS};

#[test]
fn sb_flag_options() {
    let mut fc = FsContext::context_for_mount(0x10, 0);
    assert_eq!(vfs_parse_sb_flag(&mut fc, "ro"), 0);
    assert_eq!(fc.sb_flags, SB_RDONLY);
    assert_eq!(fc.sb_flags_mask, SB_RDONLY);
    assert_eq!(vfs_parse_sb_flag(&mut fc, "nolazytime"), 0);
    assert_eq!(fc.sb_flags, SB_RDONLY | SB_LAZYTIME);
    assert_eq!(fc.sb_flags_mask, SB_RDONLY | SB_LAZYTIME);
    assert_eq!(vfs_parse_sb_flag(&mut fc, "async"), 0);
    assert_eq!(fc.sb_flags & SB_SYNCHRONOUS, SB_SYNCHRONOUS);
    assert_eq!(vfs_parse_sb_flag(&mut fc, "bogus"), -ENOPARAM);
    assert_eq!(vfs_parse_sb_flag(&mut fc, ""), -ENOPARAM);
    assert_eq!(fc.sb_flags, SB_RDONLY | SB_LAZYTIME | SB_SYNCHRONOUS);
}

#[test]
fn constant_tables() {
    let set = common_set_sb_flag();
    let clear = common_clear_sb_flag();
    assert_eq!(lookup_constant(&set, "ro", 99), SB_RDONLY);
    assert_eq!(lookup_constant(&clear, "rw", 99), SB_RDONLY);
    assert_eq!(lookup_constant(&set, "rw", 99), 99);
    assert!(str_eq("source", "source"));
    assert!(!str_eq("source", "sourc"));
}

#[test]
fn source_parameter() {
    let mut fc = FsContext::alloc_context(1, 0, 0, FsContextPurpose::FsContextForMount);
    let p = vfs_parse_fs_string("source", &String::from("/dev/hda1"));
    assert!(p.p_type == FsValueType::FsValueIsFlag);
    assert_eq!(p.size, 9);
    assert_eq!(vfs_parse_fs_param_source(&mut fc, &p), 0);
    assert_eq!(fc.source, "/dev/hda1");
    assert_eq!(vfs_parse_fs_param_source(&mut fc, &p), -EINVAL);
    let other = vfs_parse_fs_string("size", &String::from("10"));
    assert_eq!(vfs_parse_fs_param_source(&mut fc, &other), -ENOPARAM);
    assert_eq!(fc.source, "/dev/hda1");
}

#[test]
fn parameter_parsing_steps() {
    let mut fc = FsContext::context_for_mount(1, 0);
    let empty = vfs_parse_fs_string("", &String::from("x"));
    assert!(matches!(vfs_parsefs_param_common(&mut fc, &empty), ParamStep::Done(e) if e == -EINVAL));
    let ro = vfs_parse_fs_string("ro", &String::new());
    assert!(matches!(vfs_parsefs_param_common(&mut fc, &ro), ParamStep::Done(0)));
    let src = vfs_parse_fs_string("source", &String::from("/dev/x"));
    assert!(matches!(vfs_parsefs_param_common(&mut fc, &src), ParamStep::AskFilesystem));
    assert_eq!(vfs_parsefs_param_finish(&mut fc, &src, Some(-5)), -5);
    assert_eq!(vfs_parsefs_param_finish(&mut fc, &src, Some(-ENOPARAM)), 0);
    assert_eq!(fc.source, "/dev/x");
    let unknown = vfs_parse_fs_string("mode", &String::from("1"));
    assert_eq!(vfs_parsefs_param_finish(&mut fc, &unknown, None), -EINVAL);
}

#[test]
fn context_allocation() {
    let fc = FsContext::alloc_context(7, 1, 2, FsContextPurpose::FsContextForReconfigure);
    assert!(!fc.need_free);
    match fc.finish_alloc(-12) {
        Err(e) => assert_eq!(e, -12),
        Ok(_) => panic!("expected an error"),
    }
    let fc = FsContext::alloc_context(7, 1, 2, FsContextPurpose::FsContextForReconfigure);
    let ok = fc.finish_alloc(0).ok().unwrap();
    assert!(ok.need_free);
    assert_eq!((ok.fs_type, ok.sb_flags, ok.sb_flags_mask), (7, 1, 2));
}

#[test]
fn mount_name_checks() {
    assert_eq!(sys_mount(b"", b"/mnt", b"ext4"), -EFAULT);
    assert_eq!(sys_mount(b"/dev/hda1", b"", b"ext4"), -EFAULT);
    assert_eq!(sys_mount(b"/dev/hda1", b"/mnt", b""), -EFAULT);
    assert_eq!(sys_mount(&[0xff, 0xfe], b"/mnt", b"ext4"), -EINVAL);
    let long = vec![b'a'; 4097];
    assert_eq!(sys_mount(b"/dev/hda1", &long, b"ext4"), -EINVAL);
    let max = vec![b'a'; 4096];
    assert_eq!(sys_mount(b"/dev/hda1", &max, b"ext4"), 0);
    assert_eq!(sys_mount(b"/dev/hda1", b"/mnt", b"ext4"), 0);
}

#[test]
fn mount_counting() {
    let mut ns = MntNamespace::new();
    assert!(ns.is_anon_ns());
    assert_eq!(count_mounts(&mut ns, 10, 4), 0);
    assert_eq!(ns.pending_mounts, 4);
    assert_eq!(count_mounts(&mut ns, 10, 11), -ENOSPC);
    ns.nr_mounts = 10;
    assert_eq!(count_mounts(&mut ns, 10, 0), -ENOSPC);
    ns.nr_mounts = 2;
    assert_eq!(count_mounts(&mut ns, 10, 8), 0);
    assert_eq!(ns.pending_mounts, 12);
    assert_eq!(count_mounts(&mut ns, 10, 1), -ENOSPC);
}

#[test]
fn mount_flags() {
    let mut f = MNT_UNBINDABLE | 0x1;
    assert!(!is_mnt_shared(f));
    set_mnt_shared(&mut f);
    assert_eq!(f, MNT_SHARED | 0x1);
    assert!(is_mnt_shared(f));
    assert!(!mount_too_revealing(0));
    assert!(mount_too_revealing(0x10));
    assert!(!mount_too_revealing(0x10 | 0x6));
}

#[test]
fn mountpoints_count_mounts() {
    let mut m = MountPoints::new();
    assert!(m.find_mount(0x40).is_none());
    let a = m.get_mountpoint(0x40);
    assert_eq!((a.m_dentry, a.m_count), (0x40, 1));
    let b = m.get_mountpoint(0x40);
    assert_eq!(b.m_count, 2);
    assert_eq!(m.find_mount(0x40).unwrap().m_count, 2);
}

#[test]
fn descriptor_table() {
    let mut p = ProcessControlBlock::create_task_control_block();
    assert_eq!(p.magic, PCB_MAGIC);
    assert_eq!(p.name.len(), 256);
    assert_eq!(p.insert_to_fd(0x100), 0);
    assert_eq!(p.insert_to_fd(0x200), 1);
    assert_eq!(p.get_file(1), 0x200);
    assert_eq!(p.get_file(5), 0);
    p.files[0] = 0;
    assert_eq!(p.insert_to_fd(0x300), 0);
    assert_eq!(p.get_file(0), 0x300);
    assert_eq!(p.get_iroot(), 0);
    assert_eq!(p.get_ipwd(), 0);
}

#[test]
fn scheduler_runs_lowest_queue_first() {
    let mut s = Scheduler::new(0x999);
    assert!(s.schedule(0, 0) == SchedDecision::Switch(0x999));
    s.awake_process(0xa, 5);
    s.awake_process(0xb, 2);
    s.awake_process(0xc, 2);
    assert!(s.schedule(0, 0) == SchedDecision::Switch(0xb));
    assert!(s.schedule(0, 0) == SchedDecision::Switch(0xc));
    assert!(s.schedule(0xc, 9) == SchedDecision::Switch(0xa));
    assert!(s.schedule(0xa, 5) == SchedDecision::Stay);
    assert_eq!(s.wait[9], vec![0xc]);
}

#[test]
fn scheduler_keeps_sole_process() {
    let mut s = Scheduler::new(0x999);
    assert!(s.schedule(0x50, 3) == SchedDecision::Stay);
    assert_eq!(s.wait[3].len(), 0);
}

#[test]
fn process_ids() {
    let mut s = Scheduler::new(1);
    assert_eq!(s.get_avaliable_pid(), 0);
    s.tasks[1] = 0x77;
    assert_eq!(s.get_avaliable_pid(), 2);
    assert_eq!(s.insert_to_task_table(0x80, 4), 3);
    assert_eq!(s.tasks[3], 0x80);
    assert_eq!(s.wait[4], vec![0x80]);
    assert_eq!(s.kernel_clone(0, 1), -1);
    assert_eq!(s.kernel_clone(0x90, 1), 4);
    assert_eq!(s.kernel_clone(0xa0, 1), 5);
    assert_eq!(s.wait[1], vec![0x90, 0xa0]);
    assert_eq!(fork_clone_args().clone_flags, 0);
    assert_eq!(vfork_clone_args().clone_flags, 0x4000 | 0x100);
}

#[test]
fn user_mode_frame() {
    let mut frame = PtRegs::default();
    frame.rip = 0x400000;
    frame.rsp = 0x7fff_0000;
    let f = task_to_user_mode(frame, 3, 4);
    assert_eq!(f.cs, 3 * 8 + 3);
    assert_eq!(f.ss, 4 * 8 + 3);
    assert_eq!(f.ds, 4 * 8 + 3);
    assert_eq!(f.gs, 0);
    assert_eq!(f.rflags, 0x202);
    assert_eq!((f.rax, f.rcx, f.r15), (0, 1, 13));
    assert_eq!((f.rip, f.rsp), (0x400000, 0x7fff_0000));
    assert!(task_switch_loads_cr3(0x1000, 0x2000));
    assert!(!task_switch_loads_cr3(0x1000, 0x1000));
}

#[test]
fn execve_steps() {
    assert!(lee_os::execve::execve_may_load(true, 0o100755, 0o755, 10, 10, 20, 20));
    assert!(!lee_os::execve::execve_may_load(false, 0o100755, 0o755, 10, 10, 20, 20));
    assert!(!lee_os::execve::execve_may_load(true, 0o040755, 0o755, 10, 10, 20, 20));
    assert!(!lee_os::execve::execve_may_load(true, 0o100644, 0o644, 10, 10, 20, 20));
    assert!(lee_os::execve::execve_may_load(true, 0o100644, 0o644, 10, 10, 0, 0));
    let mut regs = PtRegs::default();
    regs.rax = 7;
    let f = lee_os::execve::execve_frame(regs, 0x401000);
    assert_eq!((f.rip, f.rbp, f.rsp, f.rax), (0x401000, 0x00007ffffffff000, 0x00007ffffffff000, 7));
    let v = lee_os::execve::execve_stack_area(0x99);
    assert_eq!(v.get_start(), 0x00007ffffffff000 - 0x4000000);
    assert_eq!(v.get_end(), 0x00007ffffffff000 - 1);
    assert_eq!(v.get_prot(), 0x7);
}

#[test]
fn a_forked_child_copies_the_parent() {
    let mut parent = ProcessControlBlock::create_task_control_block();
    parent.uid = 5;
    parent.gid = 6;
    parent.pid = 7;
    parent.pml4 = 0x9000;
    parent.name[..4].copy_from_slice(b"init");
    let mut frame = PtRegs::default();
    frame.rax = 42;
    frame.rip = 0x1234;
    let (child, cframe) = dup_pcb(&parent, &frame, 0x77, 0x5000);
    assert_eq!((child.uid, child.gid, child.ppid, child.pid), (5, 6, 7, -1));
    assert_eq!(child.name, parent.name);
    assert_eq!(child.name.len(), PROCESS_NAME_LEN);
    assert_eq!((child.iroot, child.ipwd, child.stack), (0x77, 0x77, 0x5000));
    assert_eq!((cframe.rax, cframe.rip), (0, 0x1234));

    let mut tables = lee_os::page_table::PageTables::new();
    tables.link_user_page_by_prot_bit(0x400000, 0x200000, 0x7);
    let mut mem_map = Vec::new();
    for _ in 0..1024 {
        mem_map.push(lee_os::memory::Page { refcount: 1, flags: 0 });
    }
    let areas = vec![(0x400000u64, 0x401000u64)];
    let (c, f, space) = copy_process(&parent, &frame, 0x77, 0x5000, &mut tables, &areas, 0, &mut mem_map, 0, 0xa000)
        .expect("copied");
    assert_eq!((c.ppid, c.pml4, f.rax), (7, 0xa000, 0));
    match space {
        lee_os::page_table::SpaceCopy::Copied(d, wp) => {
            assert_eq!(wp, vec![0x400000]);
            assert_eq!(d.lookup(0x400000), 0x200005);
        }
        _ => panic!("expected new tables"),
    }
    let (c2, _, space2) = copy_process(&parent, &frame, 0x77, 0x5000, &mut tables, &areas,
        lee_os::memory::CLONE_VM, &mut mem_map, 3, 0xa000).expect("shared");
    assert_eq!(c2.pml4, 0x9000);
    assert!(matches!(space2, lee_os::page_table::SpaceCopy::Shared));
}

#[test]
fn fork_and_vfork_queue_a_copy_of_the_parent() {
    let mut parent = ProcessControlBlock::create_task_control_block();
    parent.uid = 5;
    parent.gid = 6;
    parent.pid = 7;
    parent.pml4 = 0x9000;
    parent.name[..4].copy_from_slice(b"init");
    let mut frame = PtRegs::default();
    frame.rax = 42;
    frame.rip = 0x1234;
    let mut tables = lee_os::page_table::PageTables::new();
    tables.link_user_page_by_prot_bit(0x400000, 0x200000, 0x7);
    let mut mem_map = Vec::new();
    for _ in 0..1024 {
        mem_map.push(lee_os::memory::Page { refcount: 1, flags: 0 });
    }
    let areas = vec![(0x400000u64, 0x401000u64)];
    let mut s = Scheduler::new(1);
    s.tasks[0] = 0x66;
    s.tasks[1] = 0x77;

    let (pid, child) = sys_fork(&mut s, &parent, &frame, 0x77, 0x5000, &mut tables, &areas, &mut mem_map, 0xa000, 0x8800, 2);
    let (c, f, _) = child.expect("copied");
    assert_eq!(pid, 2);
    assert_eq!((c.pid, c.ppid, c.uid, c.gid, c.pml4, f.rax, f.rip), (2, 7, 5, 6, 0xa000, 0, 0x1234));
    assert_eq!(c.name, parent.name);
    assert_eq!(s.tasks[2], 0x8800);
    assert_eq!(s.wait[2], vec![0x8800]);

    let (pid, child) = sys_vfork(&mut s, &parent, &frame, 0x77, 0x5000, &mut tables, &mut mem_map, 3, 0x8900, 2);
    let (c, _, space) = child.expect("shared");
    assert_eq!((pid, c.pid, c.pml4), (3, 3, 0x9000));
    assert!(matches!(space, lee_os::page_table::SpaceCopy::Shared));
    assert_eq!(mem_map[3].refcount, 2);
    assert_eq!(s.wait[2], vec![0x8800, 0x8900]);
}
