use lee_os::buffer::{Buffer, BufferCache};
use std::collections::BTreeMap;

#[test]
fn buffer_read_and_copy() {
    let mut b = Buffer::new(8);
    assert!(!b.is_avaliable());
    b.read_from_device(&[1, 2, 3, 4, 5, 6, 7, 8, 9]);
    assert!(b.is_avaliable());
    let mut dst = [0u8; 4];
    b.read_from_buffer(&mut dst, 2, 3);
    assert_eq!(dst, [3, 4, 5, 0]);
    b.set_idx(42);
    b.set_dev(7);
    assert_eq!((b.get_idx(), b.get_dev()), (42, 7));
}

#[test]
fn cache_counts_holders() {
    let mut c = BufferCache { logic_block_size: 1, data_map: BTreeMap::new() };
    assert_eq!(c.get_buffer(0), 0);
    assert_eq!(c.data_map[&0].data.len(), 1024);
    assert_eq!(c.get_buffer(0), 0);
    assert_eq!(c.data_map[&0].count, 2);
    c.release_buffer(0);
    assert_eq!(c.data_map[&0].count, 1);
    c.release_buffer(0);
    assert!(c.data_map.is_empty());
}

#[test]
fn cache_release_removes_entry_of_buffer_block() {
    let mut c = BufferCache { logic_block_size: 4, data_map: BTreeMap::new() };
    c.get_buffer(0);
    c.get_buffer(5);
    assert_eq!(c.data_map[&5].data.len(), 4096);
    c.release_buffer(5);
    assert!(!c.data_map.contains_key(&0));
    assert_eq!(c.data_map[&5].count, 0);
}
