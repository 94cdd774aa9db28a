use vstd::prelude::*;

verus! {

/// A device number: 12 bits of major number above 20 bits of minor number.
pub type DevT = u32;

pub const DEV_CMD_SECTOR_START: i64 = 1;
pub const DEV_CMD_SECTOR_COUNT: i64 = 2;
pub const DEV_NAME_LEN: usize = 64;
pub const DEV_NULL: u32 = 0;

pub open spec fn spec_mkdev(major: u32, minor: u32) -> u32 {
    (major << 20u32) | minor
}

pub open spec fn spec_major(dev: u32) -> u32 {
    dev >> 20u32
}

pub open spec fn spec_minor(dev: u32) -> u32 {
    dev & 0xfffffu32
}

/// Builds a device number from a major and a minor number.
pub fn mkdev(major: DevT, minor: DevT) -> (dev: DevT)
    ensures
        dev == spec_mkdev(major, minor),
{
    major << 20 | minor
}

/// The major number of a device number is below 2^12, its minor number
/// below 2^20, and the two put together give it back.
proof fn lemma_dev_fields(dev: u32)
    by (bit_vector)
    ensures
        dev >> 20u32 < 4096u32,
        dev & 0xfffffu32 < 0x100000u32,
        ((dev >> 20u32) << 20u32) | (dev & 0xfffffu32) == dev,
{
}

/// The major number of a device number.
pub fn major(dev: DevT) -> (ma: DevT)
    ensures
        ma == spec_major(dev),
        ma < 4096,
{
    proof { lemma_dev_fields(dev); }
    dev >> 20
}

/// The minor number of a device number.
pub fn minor(dev: DevT) -> (mi: DevT)
    ensures
        mi == spec_minor(dev),
        mi < 0x100000,
{
    proof { lemma_dev_fields(dev); }
    dev & 0xfffff
}

/// Splitting a device number and building it again gives it back.
pub proof fn lemma_mkdev_major_minor(dev: u32)
    ensures
        spec_mkdev(spec_major(dev), spec_minor(dev)) == dev,
{
    lemma_dev_fields(dev);
}

/// A device number built from a major number below 2^12 and a minor number
/// below 2^20 gives them back.
pub proof fn lemma_major_minor_of_mkdev(ma: u32, mi: u32)
    requires
        ma < 4096,
        mi < 0x100000,
    ensures
        spec_major(spec_mkdev(ma, mi)) == ma,
        spec_minor(spec_mkdev(ma, mi)) == mi,
{
    assert(((ma << 20u32) | mi) >> 20u32 == ma && ((ma << 20u32) | mi) & 0xfffffu32 == mi) by (bit_vector)
        requires ma < 4096u32, mi < 0x100000u32;
}

/// Device layer set-up; this kernel keeps no state for it.
pub fn dev_init() {
}

pub open spec fn spec_old_decode_dev(dev: u32) -> u32 {
    spec_mkdev((dev >> 8u32) & 0xffu32, dev & 0xffu32)
}

pub open spec fn spec_old_encode_dev(dev: u32) -> u32 {
    (spec_major(dev) << 8u32) | spec_minor(dev)
}

pub open spec fn spec_new_encode_dev(dev: u32) -> u32 {
    let ma = spec_major(dev);
    let mi = spec_minor(dev);
    (mi & 0xffu32) | (ma << 8u32) | ((mi & !0xffu32) << 12u32)
}

pub open spec fn spec_new_decode_dev(dev: u32) -> u32 {
    let ma = (dev & 0xfff00u32) >> 8u32;
    let mi = (dev & 0xffu32) | ((dev >> 12u32) & 0xfff00u32);
    spec_mkdev(ma, mi)
}

/// Decodes the old 16-bit device number format (8-bit major, 8-bit minor).
pub fn old_decode_dev(dev: DevT) -> (r: DevT)
    ensures
        r == spec_old_decode_dev(dev),
{
    mkdev((dev >> 8) & 0xff, dev & 0xff)
}

/// Encodes a device number in the old format: major above 8 bits of minor.
pub fn old_encode_dev(dev: DevT) -> (r: DevT)
    ensures
        r == spec_old_encode_dev(dev),
{
    major(dev) << 8 | minor(dev)
}

/// Encodes a device number in the new 32-bit format: the low byte of the
/// minor, then the 12-bit major, then the rest of the minor.
pub fn new_encode_dev(dev: DevT) -> (r: DevT)
    ensures
        r == spec_new_encode_dev(dev),
{
    let ma = major(dev);
    let mi = minor(dev);
    (mi & 0xff) | (ma << 8) | ((mi & !0xff) << 12)
}

/// Decodes a device number from the new 32-bit format.
pub fn new_decode_dev(dev: DevT) -> (r: DevT)
    ensures
        r == spec_new_decode_dev(dev),
{
    let major = (dev & 0xfff00) >> 8;
    let minor = (dev & 0xff) | ((dev >> 12) & 0xfff00);
    mkdev(major, minor)
}

/// Encoding a device number in the new format and decoding it gives it back,
/// for every device number.
pub proof fn lemma_new_encode_decode(dev: u32)
    ensures
        spec_new_decode_dev(spec_new_encode_dev(dev)) == dev,
{
    let ma = dev >> 20u32;
    let mi = dev & 0xfffffu32;
    let e = (mi & 0xffu32) | (ma << 8u32) | ((mi & !0xffu32) << 12u32);
    assert((((e & 0xfff00u32) >> 8u32) << 20u32) | ((e & 0xffu32) | ((e >> 12u32) & 0xfff00u32)) == dev)
        by (bit_vector)
        requires ma == dev >> 20u32, mi == dev & 0xfffffu32,
            e == (mi & 0xffu32) | (ma << 8u32) | ((mi & !0xffu32) << 12u32);
}

/// The old format keeps a device number whose major and minor numbers fit in
/// a byte each.
pub proof fn lemma_old_encode_decode(ma: u32, mi: u32)
    requires
        ma < 256,
        mi < 256,
    ensures
        spec_old_decode_dev(spec_old_encode_dev(spec_mkdev(ma, mi))) == spec_mkdev(ma, mi),
{
    let d = (ma << 20u32) | mi;
    let e = ((d >> 20u32) << 8u32) | (d & 0xfffffu32);
    assert((((e >> 8u32) & 0xffu32) << 20u32) | (e & 0xffu32) == d) by (bit_vector)
        requires ma < 256u32, mi < 256u32, d == (ma << 20u32) | mi,
            e == ((d >> 20u32) << 8u32) | (d & 0xfffffu32);
}

} // verus!
