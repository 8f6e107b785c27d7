use fw2tar::validation::{validate_ext, validate_jffs2, validate_squashfs};

fn put_u32(buf: &mut [u8], at: usize, v: u32, be: bool) {
    let b = if be { v.to_be_bytes() } else { v.to_le_bytes() };
    buf[at..at + 4].copy_from_slice(&b);
}

fn put_u16(buf: &mut [u8], at: usize, v: u16, be: bool) {
    let b = if be { v.to_be_bytes() } else { v.to_le_bytes() };
    buf[at..at + 2].copy_from_slice(&b);
}

fn squashfs_image(magic: &[u8; 4], be: bool, block_size: u32, comp: u16, major: u16) -> Vec<u8> {
    let mut buf = vec![0u8; 8 + 96];
    let o = 8;
    buf[o..o + 4].copy_from_slice(magic);
    put_u32(&mut buf, o + 4, 7, be);
    put_u32(&mut buf, o + 12, block_size, be);
    put_u16(&mut buf, o + 20, comp, be);
    put_u16(&mut buf, o + 28, major, be);
    buf
}

#[test]
fn squashfs_little_endian_header_is_accepted() {
    let buf = squashfs_image(b"hsqs", false, 131072, 1, 4);
    assert!(validate_squashfs(&buf, 8));
}

#[test]
fn squashfs_big_endian_header_is_accepted() {
    let buf = squashfs_image(b"sqsh", true, 4096, 6, 4);
    assert!(validate_squashfs(&buf, 8));
    let buf = squashfs_image(b"qshs", true, 1048576, 4, 4);
    assert!(validate_squashfs(&buf, 8));
}

#[test]
fn squashfs_big_endian_fields_with_little_endian_magic_are_refused() {
    let buf = squashfs_image(b"hsqs", true, 131072, 1, 4);
    assert!(!validate_squashfs(&buf, 8));
}

#[test]
fn squashfs_bad_fields_are_refused() {
    assert!(!validate_squashfs(&squashfs_image(b"hsqs", false, 131072, 0, 4), 8));
    assert!(!validate_squashfs(&squashfs_image(b"hsqs", false, 131072, 7, 4), 8));
    assert!(!validate_squashfs(&squashfs_image(b"hsqs", false, 131072, 1, 3), 8));
    assert!(!validate_squashfs(&squashfs_image(b"hsqs", false, 2048, 1, 4), 8));
    assert!(!validate_squashfs(&squashfs_image(b"hsqs", false, 2097152, 1, 4), 8));
    assert!(!validate_squashfs(&squashfs_image(b"hsqs", false, 12288, 1, 4), 8));
    let mut buf = squashfs_image(b"hsqs", false, 131072, 1, 4);
    put_u32(&mut buf, 12, 0, false);
    assert!(!validate_squashfs(&buf, 8));
}

#[test]
fn squashfs_truncated_header_is_refused() {
    let buf = squashfs_image(b"hsqs", false, 131072, 1, 4);
    assert!(!validate_squashfs(&buf[..103], 8));
    assert!(!validate_squashfs(&buf, 9));
    assert!(!validate_squashfs(&buf, 500));
    assert!(!validate_squashfs(&buf, usize::MAX));
}

fn jffs2_node(be: bool, node_type: u16, total_len: u32) -> Vec<u8> {
    let mut buf = vec![0u8; 3 + 12];
    let o = 3;
    put_u16(&mut buf, o, 0x1985, be);
    put_u16(&mut buf, o + 2, node_type, be);
    put_u32(&mut buf, o + 4, total_len, be);
    buf
}

#[test]
fn jffs2_nodes_are_accepted_in_both_byte_orders() {
    assert!(validate_jffs2(&jffs2_node(false, 0x2000, 12), 3));
    assert!(validate_jffs2(&jffs2_node(false, 0x2001, 100), 3));
    assert!(validate_jffs2(&jffs2_node(true, 0x2002, 0x10000), 3));
}

#[test]
fn jffs2_bad_nodes_are_refused() {
    assert!(!validate_jffs2(&jffs2_node(false, 0x2003, 12), 3));
    assert!(!validate_jffs2(&jffs2_node(true, 0x1fff, 12), 3));
    assert!(!validate_jffs2(&jffs2_node(false, 0x2001, 11), 3));
    let buf = jffs2_node(false, 0x2001, 12);
    assert!(!validate_jffs2(&buf[..14], 3));
    assert!(!validate_jffs2(&buf, usize::MAX - 3));
}

fn ext_image(inodes: u32, blocks: u32) -> Vec<u8> {
    let mut buf = vec![0u8; 16 + 0x400 + 1024];
    put_u32(&mut buf, 16 + 0x400, inodes, false);
    put_u32(&mut buf, 16 + 0x404, blocks, false);
    buf[16 + 0x438] = 0x53;
    buf[16 + 0x439] = 0xef;
    buf
}

#[test]
fn ext_superblock_is_accepted() {
    assert!(validate_ext(&ext_image(1, 1), 16));
    assert!(validate_ext(&ext_image(0x12345678, 0xffffffff), 16));
}

#[test]
fn ext_bad_superblocks_are_refused() {
    assert!(!validate_ext(&ext_image(0, 1), 16));
    assert!(!validate_ext(&ext_image(1, 0), 16));
    let buf = ext_image(1, 1);
    assert!(!validate_ext(&buf[..buf.len() - 1], 16));
    assert!(!validate_ext(&buf, 17));
    assert!(!validate_ext(&buf, usize::MAX));
}
