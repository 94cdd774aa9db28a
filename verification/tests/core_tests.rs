use lee_os::errno_base::{err_ptr, is_err, ptr_err, EINVAL, ENOSPC, MAX_ERRNO};
use lee_os::ida::Ida;
use lee_os::input::{InputEvent, EV_KEY};
use lee_os::keyboard::{key_event, KeyBoard, KeyDecode, ScanCodeSet2, ScanCodeType, KEY_A, KEY_ENTER, KEY_F9};
use lee_os::list::ListHead;
use lee_os::semaphore::{SpinLock, UnreenterabkeSpinLock};
use lee_os::slub::{kmalloc_info, kmalloc_slab, size_index_elem, KmemCacheNode, KmemCacheOrderObjects};
use lee_os::time::{sys_time, month_table, Time, TM};

#[test]
fn kmalloc_slab_picks_cache_by_size() {
    assert_eq!(kmalloc_slab(0), None);
    assert_eq!(kmalloc_slab(1), Some(3));
    assert_eq!(kmalloc_slab(8), Some(3));
    assert_eq!(kmalloc_slab(9), Some(4));
    assert_eq!(kmalloc_slab(64), Some(6));
    assert_eq!(kmalloc_slab(65), Some(1));
    assert_eq!(kmalloc_slab(96), Some(1));
    assert_eq!(kmalloc_slab(100), Some(7));
    assert_eq!(kmalloc_slab(192), Some(2));
    assert_eq!(kmalloc_slab(193), Some(8));
    assert_eq!(kmalloc_slab(1024), Some(11));
    assert_eq!(kmalloc_slab(2047), Some(11));
}

#[test]
fn kmalloc_slab_cache_fits_request() {
    let info = kmalloc_info();
    for size in 1..2048usize {
        let i = kmalloc_slab(size).unwrap();
        assert!(i < 12);
        assert!(info[i].size as usize >= size, "size {} index {}", size, i);
    }
}

#[test]
fn kmalloc_info_names_and_sizes() {
    let info = kmalloc_info();
    assert_eq!(info[0].name, "kmalloc-rcl-0");
    assert_eq!(info[1].size, 96);
    assert_eq!(info[2].size, 192);
    assert_eq!(info[3].size, 8);
    assert_eq!(info[11].name, "kmalloc-rcl-2k");
    assert_eq!(info[11].size, 2048);
    assert_eq!(size_index_elem(1), 0);
    assert_eq!(size_index_elem(17), 2);
    let _o = KmemCacheOrderObjects::new();
    let _n = KmemCacheNode::new();
}

#[test]
fn keyboard_press_hold_release() {
    let kb = KeyBoard::new();
    assert!(matches!(kb.scan_code_type, ScanCodeType::Unset));
    assert_eq!(kb.scan_code_set, 0);
    let mut dec = ScanCodeSet2::new();
    let mut status = [false; 256];
    assert!(matches!(dec.decode(&mut status, 0x1c), KeyDecode::Key { code: KEY_A, value: 1 }));
    assert!(status[KEY_A as usize]);
    assert!(matches!(dec.decode(&mut status, 0x1c), KeyDecode::Key { code: KEY_A, value: 2 }));
    assert!(matches!(dec.decode(&mut status, 0xf0), KeyDecode::Prefix));
    assert!(dec.break_state);
    assert!(matches!(dec.decode(&mut status, 0x1c), KeyDecode::Key { code: KEY_A, value: 0 }));
    assert!(!status[KEY_A as usize]);
    assert!(!dec.break_state);
    assert!(matches!(dec.decode(&mut status, 0x5a), KeyDecode::Key { code: KEY_ENTER, value: 1 }));
    assert!(matches!(dec.decode(&mut status, 0x01), KeyDecode::Key { code: KEY_F9, value: 1 }));
    assert!(matches!(dec.decode(&mut status, 0xe0), KeyDecode::Prefix));
    assert!(dec.ext_code_state);
}

#[test]
fn key_event_carries_fields() {
    let e: InputEvent = key_event(KEY_A, 1, Time { tick: 77 });
    assert_eq!(e.get_type(), EV_KEY);
    assert_eq!(e.get_code(), KEY_A);
    assert_eq!(e.get_value(), 1);
    let f = InputEvent::new(3, 4, -5, Time::new());
    assert_eq!(f.get_type(), 3);
    assert_eq!(f.get_code(), 4);
    assert_eq!(f.get_value(), -5);
}

fn tm(year: u32, mon: u32, mday: u32, hour: u32, min: u32, sec: u32) -> TM {
    TM { tm_sec: sec, tm_min: min, tm_hour: hour, tm_mday: mday, tm_mon: mon, tm_year: year, tm_wday: 0, tm_yday: 0, tm_isdst: 0 }
}

#[test]
fn mktime_known_dates() {
    assert_eq!(Time::mktime(&tm(70, 1, 1, 0, 0, 0), 19).tick, 0);
    assert_eq!(Time::mktime(&tm(0, 1, 1, 0, 0, 0), 20).tick, 946684800);
    assert_eq!(Time::mktime(&tm(0, 3, 1, 0, 0, 0), 20).tick, 951868800);
    assert_eq!(Time::mktime(&tm(23, 3, 1, 12, 30, 15), 20).tick, 1677673815);
    assert_eq!(Time::mktime(&tm(24, 12, 31, 23, 59, 59), 20).tick, 1735689599);
}

#[test]
fn leap_years() {
    assert!(Time::leap_year(2000));
    assert!(Time::leap_year(2024));
    assert!(!Time::leap_year(1900));
    assert!(!Time::leap_year(2023));
    assert_eq!(month_table()[2], 60);
}

#[test]
fn bcd_round_trip() {
    for b in 0u8..100 {
        assert_eq!(TM::bcd_to_bin(TM::bin_to_bcd(b)), b);
    }
    assert_eq!(TM::bin_to_bcd(59), 0x59);
    assert_eq!(TM::bcd_to_bin(0x23), 23);
    let (t, c) = TM::from_bcd(&tm(0x24, 0x12, 0x31, 0x23, 0x59, 0x58), 0x20);
    assert_eq!((t.tm_year, t.tm_mon, t.tm_mday, t.tm_hour, t.tm_min, t.tm_sec, c), (24, 12, 31, 23, 59, 58, 20));
}

#[test]
fn sys_time_adds_elapsed_seconds() {
    assert_eq!(sys_time(Time { tick: 100 }, 2500, 10).tick, 125);
    assert_eq!(sys_time(Time { tick: 0 }, 999, 1).tick, 0);
}

#[test]
fn ida_hands_out_increasing_ids() {
    let mut ida = Ida::new();
    assert_eq!(ida.alloc_range(5, 7), 5);
    assert_eq!(ida.alloc_range(5, 7), 6);
    assert_eq!(ida.alloc_range(0, 7), 7);
    assert_eq!(ida.alloc_range(0, 7), -(ENOSPC as i32));
    assert_eq!(ida.alloc_range(10, 20), 10);
    let mut other = Ida::new();
    assert_eq!(other.alloc_min(0), -(ENOSPC as i32));
    assert_eq!(other.alloc_min(3), 3);
}

#[test]
fn error_pointers() {
    let p = err_ptr(-EINVAL);
    assert!(is_err(p));
    assert_eq!(ptr_err(p), -EINVAL);
    assert!(is_err(err_ptr(-MAX_ERRNO)));
    assert!(!is_err(0xffff_8000_0000_0000));
    assert!(!is_err(err_ptr(-MAX_ERRNO - 1)));
}

#[test]
fn list_links() {
    let mut head = ListHead::empty();
    assert_eq!((head.next, head.prev), (0, 0));
    head.init(0x1000);
    assert!(head.is_empty(0x1000));
    let mut node = ListHead::empty();
    node.head_insert(0x2000, &mut head, 0x1000);
    assert_eq!(node.prev, 0x1000);
    assert_eq!(node.next, 0x1000);
    assert_eq!(head.next, 0x2000);
    assert!(!head.is_empty(0x1000));
    node.delete(0x2000);
    assert_eq!((node.next, node.prev), (0x2000, 0x2000));
}

#[test]
fn locks_take_and_give_back() {
    let mut l = UnreenterabkeSpinLock::new(2);
    l.acquire(1);
    l.acquire(1);
    l.release(2);
    l.acquire(2);
    let mut s = SpinLock::new(1);
    s.acquire(1, 0x10);
    s.acquire(1, 0x10);
    s.release(2);
    s.acquire(1, 0x20);
}

#[test]
fn readers_writer_lock() {
    let mut l = lee_os::semaphore::RWLock::new();
    l.rdlock(0x100);
    l.rdlock(0x100);
    l.rdlock(0x200);
    assert_eq!(l.readers.get(&0x100), Some(&2));
    assert_eq!(l.readers.get(&0x200), Some(&1));
    l.rdunlock(0x200);
    assert!(l.readers.get(&0x200).is_none());
    l.rdunlock(0x100);
    assert_eq!(l.readers.get(&0x100), Some(&1));
    l.wrlock(0x100);
    l.wrunlock();
    l.rdunlock(0x100);
    assert!(l.readers.is_empty());
}

#[test]
fn tail_insert_appends_to_a_circular_list() {
    // node 0 is the head of an empty list
    let mut nodes = vec![ListHead { next: 0, prev: 0 }, ListHead::empty(), ListHead::empty()];
    ListHead::tail_insert(&mut nodes, 1, 0);
    assert_eq!((nodes[0].next, nodes[0].prev), (1, 1));
    assert_eq!((nodes[1].next, nodes[1].prev), (0, 0));
    ListHead::tail_insert(&mut nodes, 2, 0);
    assert_eq!((nodes[0].next, nodes[0].prev), (1, 2));
    assert_eq!((nodes[1].next, nodes[1].prev), (2, 0));
    assert_eq!((nodes[2].next, nodes[2].prev), (0, 1));
}
