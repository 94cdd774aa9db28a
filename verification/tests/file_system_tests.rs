use lee_os::file_system::{do_mknodat, FileSystem, LogicalPart};

#[test]
fn a_logical_part_is_made_once_per_device() {
    let mut fs = FileSystem::new();
    assert!(fs.get_logical_part(3).is_none());
    assert!(fs.sget_dev(0x10, 0x900, 3));
    let p = fs.get_logical_part(3).expect("made");
    assert_eq!((p.s_dev, p.s_flags, p.fs_type), (3, 0x10, 0x900));
    assert_eq!(p.logic_block_size, 0);
    // a second request finds the part that is there
    assert!(!fs.sget_dev(0x20, 0x901, 3));
    assert_eq!(fs.get_logical_part(3).unwrap().s_flags, 0x10);
    fs.kill_block_super(3);
    assert!(fs.get_logical_part(3).is_none());
}

#[test]
fn a_new_logical_part_holds_nothing() {
    let p = LogicalPart::new();
    assert_eq!((p.s_dev, p.fs_type, p.s_root, p.s_flags), (0, 0, 0, 0));
}

#[test]
fn making_a_node_is_refused_without_a_maker() {
    assert_eq!(do_mknodat(0o40755, true), Some(-1));
    assert_eq!(do_mknodat(0o100644, false), Some(-1));
    assert_eq!(do_mknodat(0o100644, true), None);
}

#[test]
fn a_registered_type_is_found_by_name() {
    let mut fs = FileSystem::new();
    fs.file_systems.push(String::from("ext2"));
    fs.file_systems.push(String::from("ext4"));
    fs.file_systems.push(String::from("ext4"));
    assert_eq!(fs.find_fs_type("ext4"), 1);
    assert_eq!(fs.find_fs_type("ext2"), 0);
}

#[test]
fn a_type_already_in_a_list_is_refused() {
    let mut fs = FileSystem::new();
    assert_eq!(fs.register_filesystem(true), -lee_os::errno_base::EBUSY);
    assert_eq!(fs.file_systems.len(), 0);
}
