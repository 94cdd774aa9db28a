use lee_os::io::{ide_install, IdeDiskT};
use lee_os::device::{mkdev, DEV_CMD_SECTOR_COUNT, DEV_CMD_SECTOR_START};
use lee_os::device_table::{create_request, ide_disk_ioctl, ide_part_ioctl, DevReqType, DeviceTable, RequestDescriptor};

#[test]
fn install_then_get() {
    let mut t = DeviceTable::new();
    let d0 = t.device_install(3, 0x100, b"hda", 0, 7);
    let d1 = t.device_install(3, 0x200, b"hda1", d0, 0);
    assert_eq!(d0, mkdev(3, 0));
    assert_eq!(d1, mkdev(3, 1));
    let a = t.get_device(d0).unwrap();
    assert_eq!(a.ptr, 0x100);
    assert_eq!(a.flags, 7);
    assert_eq!(&a.name[..4], b"hda\0");
    assert!(a.name[3..].iter().all(|&b| b == 0));
    let b = t.get_device(d1).unwrap();
    assert_eq!(b.parent, d0);
    assert_eq!(b.dev, d1);
    assert!(b.empty_req_list());
    assert!(t.get_device(mkdev(3, 2)).is_none());
    assert!(t.get_device(mkdev(4, 0)).is_none());
}

#[test]
fn ioctl_needs_registered_driver() {
    let mut t = DeviceTable::new();
    let d = t.device_install(5, 0xabc, b"disk", 0, 0);
    assert_eq!(t.ioctl_target(d), None);
    t.regist_device(5, false, true, true, false);
    assert_eq!(t.ioctl_target(d), None);
    t.regist_device(5, true, true, true, false);
    assert_eq!(t.ioctl_target(d), Some(0xabc));
    assert_eq!(t.ioctl_target(mkdev(5, 9)), None);
}

#[test]
fn request_goes_to_parent_disk() {
    let mut t = DeviceTable::new();
    let disk = t.device_install(3, 1, b"hda", 0, 0);
    let part = t.device_install(3, 2, b"hda1", disk, 0);
    assert_eq!(t.request_target(part, 2048, 10), Some((disk, 2058)));
    assert_eq!(t.request_target(disk, 0, 10), Some((disk, 10)));
    assert_eq!(t.request_target(mkdev(9, 0), 0, 10), None);
    assert_eq!(ide_part_ioctl(2048, 100, DEV_CMD_SECTOR_START), 2048);
    assert_eq!(ide_part_ioctl(2048, 100, DEV_CMD_SECTOR_COUNT), 100);
    assert_eq!(ide_disk_ioctl(5000, DEV_CMD_SECTOR_START), 0);
    assert_eq!(ide_disk_ioctl(5000, DEV_CMD_SECTOR_COUNT), 5000);
}

#[test]
fn create_request_fields() {
    let r: RequestDescriptor = create_request(0x8000, 4, mkdev(3, 1), 99);
    assert_eq!(r.buffer, 0x8000);
    assert_eq!(r.count, 4);
    assert_eq!(r.dev_idx, mkdev(3, 1));
    assert_eq!(r.idx, 99);
    assert_eq!(r.process, 0);
    assert!(matches!(r.req_type, DevReqType::Read));
    assert_eq!((r.list_node.next, r.list_node.prev), (0, 0));
}

#[test]
fn queue_insert_then_erase_at_tail() {
    let mut t = DeviceTable::new();
    let d = t.device_install(3, 1, b"hda", 0, 0);
    let mut dev = *t.get_device(d).unwrap();
    let mut reqs = vec![create_request(0, 1, d, 0), create_request(0, 1, d, 1), create_request(0, 1, d, 2)];
    assert!(!dev.insert_request(&mut reqs, 1, false, &[]));
    assert!(dev.empty_req_list());
    assert!(dev.insert_request(&mut reqs, 1, true, &[]));
    assert_eq!(dev.get_next_request(), 1);
    assert!(dev.insert_request(&mut reqs, 2, true, &[false]));
    assert_eq!(reqs[0].list_node.next, 2);
    assert_eq!(reqs[1].list_node.prev, 1);
    assert!(dev.insert_request(&mut reqs, 3, true, &[false, false]));
    assert_eq!(reqs[1].list_node.next, 3);
    assert_eq!(reqs[2].list_node.prev, 2);
    dev.erase_request(&mut reqs, 3);
    assert_eq!(reqs[1].list_node.next, 0);
    assert_eq!(reqs[0].list_node.next, 2);
    assert_eq!(dev.get_next_request(), 1);
}

#[test]
fn queue_erase_front() {
    let mut t = DeviceTable::new();
    let d = t.device_install(3, 1, b"hda", 0, 0);
    let mut dev = *t.get_device(d).unwrap();
    let mut reqs = vec![create_request(0, 1, d, 0), create_request(0, 1, d, 1)];
    dev.insert_request(&mut reqs, 1, true, &[]);
    dev.insert_request(&mut reqs, 2, true, &[false]);
    dev.erase_request(&mut reqs, 1);
    assert_eq!(dev.get_next_request(), 2);
    assert_eq!(reqs[0].list_node.prev, 0);
    dev.erase_request(&mut reqs, 2);
    assert_eq!(reqs[0].list_node.next, 0);
    assert_eq!(dev.get_next_request(), 2);
}

#[test]
fn queue_insert_before_preferred() {
    let mut t = DeviceTable::new();
    let d = t.device_install(3, 1, b"hda", 0, 0);
    let mut dev = *t.get_device(d).unwrap();
    let mut reqs = vec![create_request(0, 1, d, 0), create_request(0, 1, d, 1), create_request(0, 1, d, 2)];
    dev.insert_request(&mut reqs, 1, true, &[]);
    dev.insert_request(&mut reqs, 2, true, &[false]);
    assert!(dev.insert_request(&mut reqs, 3, true, &[false, true]));
    assert_eq!(reqs[0].list_node.next, 3);
    assert_eq!(reqs[1].list_node.prev, 3);
    assert_eq!(reqs[1].list_node.next, 2);
}

#[test]
fn ide_install_disks_and_partitions() {
    let mut present = IdeDiskT::new(0x1f0, 0xe0, true, 1000, 0, 0, 0);
    present.name[..3].copy_from_slice(b"hda");
    present.parts[0].count = 10;
    present.parts[0].name[..4].copy_from_slice(b"hda1");
    present.parts[2].count = 20;
    present.parts[2].name[..4].copy_from_slice(b"hda3");
    let mut absent = IdeDiskT::new(0x1f0, 0xf0, false, 0, 0, 0, 0);
    absent.name[..3].copy_from_slice(b"hdb");
    let mut second = IdeDiskT::new(0x170, 0xe0, true, 500, 0, 0, 0);
    second.name[..3].copy_from_slice(b"hdc");
    let disks = [present, absent, second];
    let mut t = DeviceTable::new();
    ide_install(&mut t, &disks, &[0x10, 0x20, 0x30], &[[1, 2, 3, 4], [5, 6, 7, 8], [9, 10, 11, 12]]);
    let hda = t.get_device(mkdev(252, 0)).unwrap();
    assert_eq!(hda.ptr, 0x10);
    assert_eq!(&hda.name[..4], b"hda\0");
    let hdc = t.get_device(mkdev(252, 1)).unwrap();
    assert_eq!(hdc.ptr, 0x30);
    assert!(t.get_device(mkdev(252, 2)).is_none());
    let p1 = t.get_device(mkdev(259, 0)).unwrap();
    assert_eq!((p1.ptr, p1.parent), (1, mkdev(252, 0)));
    assert_eq!(&p1.name[..5], b"hda1\0");
    let p3 = t.get_device(mkdev(259, 1)).unwrap();
    assert_eq!((p3.ptr, p3.parent), (3, mkdev(252, 0)));
    assert!(t.get_device(mkdev(259, 2)).is_none());
    assert_eq!(t.ioctl_target(mkdev(259, 1)), Some(3));
}
