use lee_os::bitops::{ffs, ffs64, fls, fls64};
use lee_os::crc32c::{reverse32, reverse8, swap32};
use lee_os::device::{major, minor, mkdev, new_decode_dev, new_encode_dev, old_decode_dev, old_encode_dev};

#[test]
fn fls_examples() {
    assert_eq!(fls(0), 0);
    assert_eq!(fls(1), 1);
    assert_eq!(fls(0x80000000), 32);
    assert_eq!(fls(0x00f0), 8);
}

#[test]
fn fls64_uses_low_word() {
    assert_eq!(fls64(0x1_0000_0000), 0);
    assert_eq!(fls64(0x1_0000_0010), 5);
    assert_eq!(fls64(0xffff_ffff), 32);
}

#[test]
fn ffs_examples() {
    assert_eq!(ffs(0), 0);
    assert_eq!(ffs(1), 1);
    assert_eq!(ffs(0x18), 4);
    assert_eq!(ffs64(0), 0);
    assert_eq!(ffs64(0x100), 9);
}

#[test]
fn reverse_examples() {
    assert_eq!(reverse8(0x01), 0x80);
    assert_eq!(reverse8(0xf0), 0x0f);
    assert_eq!(reverse32(1), 0x8000_0000);
    assert_eq!(reverse32(reverse32(0x1234_5678)), 0x1234_5678);
    assert_eq!(swap32(0x1122_3344), 0x4433_2211);
}

#[test]
fn device_numbers_round_trip() {
    let d = mkdev(259, 3);
    assert_eq!(d, (259 << 20) | 3);
    assert_eq!(major(d), 259);
    assert_eq!(minor(d), 3);
    assert_eq!(new_decode_dev(new_encode_dev(d)), d);
    let o = old_encode_dev(mkdev(8, 1));
    assert_eq!(old_decode_dev(o), mkdev(8, 1));
}
