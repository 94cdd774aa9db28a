use lee_os::ext4::{ext4_find_entry, DirLookup};
use lee_os::ext4::{ext4_get_logic_block_idx, Ext4ExtentBlock, Ext4InodeExtentDesc, ExtentStep};
use lee_os::ext4::{ext4_bitmap_csum_ok, ext4_group_desc_csum_metadata, write_super_block_check_sum};
use lee_os::ext4::{
    ext2_or_ext3_block_level, ext4_group_desc_backup_blocks, ext4_inode_format_offset, ext4_inode_read_plan,
    ext4_match_name, ext4_permission_check, flex_batch, get_data_block_group_idx, group_bach, is_blk, is_chr,
    is_dir, is_fifo, is_file, is_lnk, is_reg, is_sock, Ext4Inode, EXT4_IFDIR, EXT4_IFREG,
};

fn inode(mode: u16, uid: i16, gid: i16, size_lo: i32, size_high: i32) -> Ext4Inode {
    Ext4Inode {
        i_mode: mode,
        i_uid: uid,
        i_size_lo: size_lo,
        i_atime: 0,
        i_ctime: 0,
        i_mtime: 0,
        i_dtime: 0,
        i_gid: gid,
        i_links_coint: 1,
        i_blocks_lo: 0,
        i_flags: 0,
        osd1: 0,
        i_block: [0; 15],
        i_generation: 0,
        i_file_acl_lo: 0,
        i_size_high: size_high,
        i_obso_faddr: 0,
        osd2: [0; 6],
        i_extra_isize: 0,
        i_checksum_hi: 0,
        i_ctime_extra: 0,
        i_mtime_extra: 0,
        i_atime_extra: 0,
        i_crtime: 0,
        i_crtime_extra: 0,
        i_version_hi: 0,
        i_projid: 0,
    }
}

#[test]
fn file_type_bits() {
    assert!(is_file(0o100644));
    assert!(is_reg(0o100644));
    assert!(!is_dir(0o100644));
    assert!(is_dir(0o40755));
    assert!(is_chr(0o20600));
    assert!(is_blk(0o60600));
    assert!(is_fifo(0o10600));
    assert!(is_lnk(0o120777));
    assert!(!is_file(0o120777));
    assert!(is_sock(0o140777));
    for m in [0o100644u16, 0o40755, 0o20600, 0o60600, 0o10600, 0o120777, 0o140777] {
        let n = [is_file(m), is_dir(m), is_chr(m), is_blk(m), is_fifo(m), is_lnk(m), is_sock(m)]
            .iter()
            .filter(|b| **b)
            .count();
        assert_eq!(n, 1, "mode {:o}", m);
    }
}

#[test]
fn inode_permissions() {
    let f = inode(EXT4_IFREG | 0o640, 1000, 100, 0, 0);
    assert!(ext4_permission_check(&f, 1000, 1, 6));
    assert!(ext4_permission_check(&f, 7, 100, 4));
    assert!(!ext4_permission_check(&f, 7, 100, 2));
    assert!(!ext4_permission_check(&f, 7, 7, 4));
    assert!(ext4_permission_check(&f, 0, 0, 7));
}

#[test]
fn name_matching() {
    assert_eq!(ext4_match_name(b"/usr/bin\0", 1, b"usr\0"), Some(5));
    assert_eq!(ext4_match_name(b"/usr\0", 1, b"usr\0"), Some(4));
    assert_eq!(ext4_match_name(b"/usr/bin\0", 1, b"us\0"), None);
    assert_eq!(ext4_match_name(b"/us\0", 1, b"usr\0"), None);
    assert_eq!(ext4_match_name(b"/abc\0", 1, b"usr\0"), None);
}

#[test]
fn group_sizes() {
    assert_eq!(group_bach(0), 2);
    assert_eq!(group_bach(2), 8);
    assert_eq!(group_bach(-1), 0);
    assert_eq!(flex_batch(4), 16);
    assert_eq!(flex_batch(0), 1);
    assert_eq!(flex_batch(63), i64::MAX);
    assert_eq!(get_data_block_group_idx(8192, 20000), 2);
}

#[test]
fn backup_descriptor_blocks() {
    assert_eq!(ext4_group_desc_backup_blocks(2, 1), vec![1, 32768]);
    assert_eq!(
        ext4_group_desc_backup_blocks(30, 2),
        vec![2, 65536, 3 * 65536, 9 * 65536, 27 * 65536, 5 * 65536, 25 * 65536, 7 * 65536]
    );
}

#[test]
fn block_map_levels() {
    assert_eq!(ext2_or_ext3_block_level(5), (5, 0));
    assert_eq!(ext2_or_ext3_block_level(12), (12, 1));
    assert_eq!(ext2_or_ext3_block_level(12 + 1024), (13, 2));
    assert_eq!(ext2_or_ext3_block_level(12 + 1024 * 1024), (14, 3));
    assert_eq!(ext4_inode_format_offset(1, 1), 0);
    assert_eq!(ext4_inode_format_offset(1, 5), 0);
    assert_eq!(ext4_inode_format_offset(4, 5), 1024);
}

#[test]
fn read_plans() {
    let f = inode(EXT4_IFREG | 0o644, 0, 0, 5000, 0);
    assert_eq!(ext4_inode_read_plan(&f, 10, 5000, 1).err(), Some(-1));
    let (chunks, total) = ext4_inode_read_plan(&f, 3000, 1000, 1).ok().unwrap();
    assert_eq!(total, 3000);
    let parts: Vec<(u64, usize, usize)> = chunks.iter().map(|c| (c.block, c.start, c.len)).collect();
    assert_eq!(parts, vec![(0, 1000, 24), (0, 0, 1024), (0, 0, 1024), (0, 0, 928)]);
    let (_, short) = ext4_inode_read_plan(&f, 100, 4950, 1).ok().unwrap();
    assert_eq!(short, 50);
    let d = inode(EXT4_IFDIR | 0o755, 0, 0, 4096, 0);
    let (c, t) = ext4_inode_read_plan(&d, 4096, 0, 4).ok().unwrap();
    assert_eq!(t, 4096);
    assert_eq!(c.len(), 1);
}

fn dirent(buf: &mut Vec<u8>, inode: u32, rec_len: u16, name: &[u8]) {
    let start = buf.len();
    buf.extend_from_slice(&inode.to_le_bytes());
    buf.extend_from_slice(&rec_len.to_le_bytes());
    buf.push(name.len() as u8);
    buf.push(1);
    buf.extend_from_slice(name);
    while buf.len() < start + rec_len as usize {
        buf.push(0);
    }
}

#[test]
fn directory_entry_lookup() {
    let mut dir = Vec::new();
    dirent(&mut dir, 2, 12, b".");
    dirent(&mut dir, 0, 12, b"xx");
    dirent(&mut dir, 11, 16, b"usr");
    let mut next = None;
    let mut result = DirLookup::NoEntry;
    ext4_find_entry(EXT4_IFDIR | 0o755, &dir, b"/usr/bin\0", 1, &mut next, &mut result);
    assert!(result == DirLookup::Found(24));
    assert_eq!(next, Some(5));

    let mut last = Vec::new();
    dirent(&mut last, 2, 12, b".");
    dirent(&mut last, 0, 12, b"xx");
    dirent(&mut last, 11, 40, b"usr");
    let mut next = None;
    let mut result = DirLookup::NoEntry;
    ext4_find_entry(EXT4_IFDIR | 0o755, &last[..40], b"bin\0", 0, &mut next, &mut result);
    assert!(result == DirLookup::Blank(12));
    assert_eq!(next, None);
}

#[test]
fn powers() {
    assert!(lee_os::ext4::is_power_of_n(27, 3));
    assert!(lee_os::ext4::is_power_of_n(1, 3));
    assert!(lee_os::ext4::is_power_of_n(125, 5));
    assert!(!lee_os::ext4::is_power_of_n(0, 3));
    assert!(!lee_os::ext4::is_power_of_n(12, 3));
    assert!(lee_os::ext4::is_power_of_n(-8, -2));
    assert!(lee_os::ext4::is_power_of_n(4, -2));
    assert!(!lee_os::ext4::is_power_of_n(-8, 2));
    assert!(!lee_os::ext4::is_power_of_n(0, 0));
}

#[test]
fn mkfs_plans_the_superblock_and_descriptor_writes() {
    let plan = lee_os::ext4::devmkfs(64 * 32768 * 4096, 0, 0x1_2345_6789);
    let sb = &plan.super_block;
    assert_eq!(sb.s_blocks_count_lo, 64 * 32768);
    assert_eq!(sb.s_blocks_count_hi, 0);
    assert_eq!(sb.s_inodes_count, 64 * 32768);
    assert_eq!(sb.s_inodes_per_group, 16384);
    assert_eq!(sb.s_mtime, 0x2345_6789);
    assert_eq!(sb.s_mtime_hi, 0x1);
    assert_eq!(plan.super_block_write_count, 2048);
    let blocks = ext4_group_desc_backup_blocks(64, group_bach(2));
    assert_eq!(plan.group_desc_writes.len(), blocks.len());
    for (w, b) in plan.group_desc_writes.iter().zip(blocks.iter()) {
        assert_eq!(w.block, *b);
        assert_eq!(w.count, group_bach(2));
    }
}

#[test]
fn mkfs_on_a_negative_sector_count_writes_no_descriptor() {
    let plan = lee_os::ext4::devmkfs(-40960, 0, 7);
    let sb = &plan.super_block;
    assert_eq!(sb.s_blocks_count_lo, 0xffff_fff6);
    assert_eq!(sb.s_blocks_count_hi, 0xffff_ffff);
    assert_eq!(sb.s_inodes_count, 0xffff_fff0);
    assert_eq!(sb.s_inodes_per_group, 16384);
    assert!(plan.group_desc_writes.is_empty());
}

fn extent_root(words: [i32; 15]) -> Ext4InodeExtentDesc {
    Ext4InodeExtentDesc::from_i_block(&words)
}

#[test]
fn an_inline_extent_maps_its_blocks() {
    let mut w = [0i32; 15];
    w[0] = 0xf30a | (1 << 16);
    w[1] = 4;
    w[3] = 0;
    w[4] = 8;
    w[5] = 555;
    let root = extent_root(w);
    assert!(matches!(ext4_get_logic_block_idx(&root, 3, &Vec::new()), ExtentStep::Found(555)));
    assert!(matches!(ext4_get_logic_block_idx(&root, 9, &Vec::new()), ExtentStep::OutOfRange));
    w[0] = 0x1234;
    assert!(matches!(ext4_get_logic_block_idx(&extent_root(w), 3, &Vec::new()), ExtentStep::BadMagic));
}

#[test]
fn an_indexed_extent_asks_for_its_block_then_maps_through_it() {
    let mut w = [0i32; 15];
    w[0] = 0xf30a | (2 << 16);
    w[1] = 4 | (1 << 16);
    w[3] = 0;
    w[4] = 100;
    w[6] = 50;
    w[7] = 200;
    let root = extent_root(w);
    assert!(matches!(
        ext4_get_logic_block_idx(&root, 10, &Vec::new()),
        ExtentStep::ReadBlock { block: 100, var: 0, inner: false }
    ));
    let mut words = vec![0i32; 1024];
    words[0] = 0xf30a | (1 << 16);
    words[1] = 340;
    words[3] = 0;
    words[4] = 20;
    words[5] = 7000;
    let block = Ext4ExtentBlock::from_words(&words);
    let loaded = vec![(100u64, block)];
    assert!(matches!(ext4_get_logic_block_idx(&root, 10, &loaded), ExtentStep::Found(7000)));
}

fn crc32c_bitwise(mut c: u32, data: &[u8]) -> u32 {
    for &b in data {
        c ^= b as u32;
        for _ in 0..8 {
            c = if c & 1 != 0 { (c >> 1) ^ 0x82F6_3B78 } else { c >> 1 };
        }
    }
    c
}

#[test]
fn a_bitmap_checksum_is_the_crc_of_its_bytes() {
    let map: Vec<u8> = (0..64u32).map(|i| (i * 7 + 3) as u8).collect();
    let v = crc32c_bitwise(0x1234_5678, &map[..40]);
    assert!(ext4_bitmap_csum_ok(0x1234_5678, &map, 40, v as u16, (v >> 16) as u16));
    assert!(!ext4_bitmap_csum_ok(0x1234_5678, &map, 40, v as u16 ^ 1, (v >> 16) as u16));
    assert!(!ext4_bitmap_csum_ok(0x1234_5678, &map, 41, v as u16, (v >> 16) as u16));
}

#[test]
fn a_group_descriptor_checksum_skips_its_own_field() {
    let mut gdp: Vec<u8> = (0..64u32).map(|i| (i * 13 + 5) as u8).collect();
    let mut bytes = 9u32.to_le_bytes().to_vec();
    bytes.extend_from_slice(&gdp[..30]);
    bytes.extend_from_slice(&[0, 0]);
    bytes.extend_from_slice(&gdp[32..]);
    let expect = (crc32c_bitwise(0xdead_beef, &bytes) & 0xffff) as u16;
    assert_eq!(ext4_group_desc_csum_metadata(0xdead_beef, 9, &gdp, 30), expect);
    gdp[30] = 0xaa;
    gdp[31] = 0x55;
    assert_eq!(ext4_group_desc_csum_metadata(0xdead_beef, 9, &gdp, 30), expect);
    assert_ne!(ext4_group_desc_csum_metadata(0xdead_beef, 10, &gdp, 30), expect);
}

#[test]
fn a_superblock_checksum_covers_all_but_its_last_field() {
    let mut sb: Vec<u8> = (0..1024u32).map(|i| (i * 31 + 1) as u8).collect();
    let expect = crc32c_bitwise(!0, &sb[..1020]);
    write_super_block_check_sum(&mut sb);
    assert_eq!(u32::from_le_bytes([sb[1020], sb[1021], sb[1022], sb[1023]]), expect);
    assert_eq!(sb[1019], ((1019u32 * 31 + 1) & 0xff) as u8);
}
