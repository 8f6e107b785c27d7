use fw2tar::native::{CarveJob, ExtractTool, NativeExtractor};
use fw2tar::scanner::{regions_from_matches, scan_bytes, DetectedRegion};
use fw2tar::signatures::{search_patterns, signatures, special_signatures, SignatureKind};

fn region(offset: u64, kind: SignatureKind) -> DetectedRegion {
    DetectedRegion { offset, signature_type: kind }
}

/// An image with a gzip magic at 10, a valid little-endian squashfs at 100,
/// a squashfs magic without a valid header at 300, and an ext filesystem at
/// 2048.
fn sample_image() -> Vec<u8> {
    let mut buf = vec![0u8; 4096];
    buf[10] = 0x1f;
    buf[11] = 0x8b;
    buf[100..104].copy_from_slice(b"hsqs");
    buf[104..108].copy_from_slice(&5u32.to_le_bytes());
    buf[112..116].copy_from_slice(&131072u32.to_le_bytes());
    buf[120..122].copy_from_slice(&2u16.to_le_bytes());
    buf[128..130].copy_from_slice(&4u16.to_le_bytes());
    buf[300..304].copy_from_slice(b"hsqs");
    buf[2048 + 0x400..2048 + 0x404].copy_from_slice(&1u32.to_le_bytes());
    buf[2048 + 0x404..2048 + 0x408].copy_from_slice(&1u32.to_le_bytes());
    buf[2048 + 0x438] = 0x53;
    buf[2048 + 0x439] = 0xef;
    buf
}

#[test]
fn signature_tables_have_every_pattern() {
    assert_eq!(signatures().len(), 14);
    assert_eq!(special_signatures().len(), 1);
    assert_eq!(special_signatures()[0].offset, 0x438);
    let patterns = search_patterns();
    assert_eq!(patterns.len(), 15);
    assert_eq!(patterns[0], b"hsqs".to_vec());
    assert_eq!(patterns[12], b"\xfd7zXZ".to_vec());
    assert_eq!(patterns[14], vec![0x53, 0xef]);
}

#[test]
fn kind_names() {
    assert_eq!(SignatureKind::Squashfs.name(), "squashfs");
    assert_eq!(SignatureKind::Ext.name(), "ext");
    assert_eq!(SignatureKind::Xz.name(), "xz");
}

#[test]
fn scan_finds_genuine_regions_only() {
    let image = sample_image();
    let regions = scan_bytes(&image);
    assert_eq!(
        regions,
        vec![
            region(10, SignatureKind::Gzip),
            region(100, SignatureKind::Squashfs),
            region(2048, SignatureKind::Ext),
        ]
    );
}

#[test]
fn scan_of_empty_image_finds_nothing() {
    assert_eq!(scan_bytes(&[]), vec![]);
    assert_eq!(scan_bytes(&[0u8; 64]), vec![]);
}

#[test]
fn scan_reports_overlapping_matches() {
    // "\x85\x19\x85" holds a little-endian jffs2 magic at 0 and a big-endian
    // one at 1; neither has a valid node header.
    let mut image = vec![0u8; 32];
    image[0] = 0x85;
    image[1] = 0x19;
    image[2] = 0x85;
    assert_eq!(scan_bytes(&image), vec![]);
    // Make the node at 1 valid (big endian, type 0x2001, length 12).
    image[3..5].copy_from_slice(&0x2001u16.to_be_bytes());
    image[5..9].copy_from_slice(&12u32.to_be_bytes());
    assert_eq!(scan_bytes(&image), vec![region(1, SignatureKind::Jffs2)]);
}

#[test]
fn ext_magic_too_close_to_start_is_ignored() {
    let mut image = vec![0u8; 64];
    image[4] = 0x53;
    image[5] = 0xef;
    assert_eq!(scan_bytes(&image), vec![]);
    let matches = vec![(14usize, 4usize)];
    assert_eq!(regions_from_matches(&image, &matches), vec![]);
}

#[test]
fn neighbouring_duplicates_are_collapsed() {
    let image = vec![0u8; 16];
    // Two gzip matches at 3, a zstd match at 3, then gzip at 3 again.
    let matches = vec![(10usize, 3usize), (10, 3), (11, 3), (10, 3)];
    assert_eq!(
        regions_from_matches(&image, &matches),
        vec![
            region(3, SignatureKind::Gzip),
            region(3, SignatureKind::Zstd),
            region(3, SignatureKind::Gzip),
        ]
    );
}

#[test]
fn matches_that_fail_their_header_check_are_dropped() {
    let image = vec![0u8; 16];
    let matches = vec![(0usize, 0usize), (4, 2), (6, 5), (8, 1)];
    assert_eq!(
        regions_from_matches(&image, &matches),
        vec![region(5, SignatureKind::Ubifs), region(1, SignatureKind::Cpio)]
    );
}

#[test]
fn native_extractor_name() {
    assert_eq!(NativeExtractor.name(), "native");
}

#[test]
fn plan_skips_regions_past_the_end_and_picks_tools() {
    let regions = vec![
        region(0, SignatureKind::Squashfs),
        region(10, SignatureKind::Ubifs),
        region(99, SignatureKind::Gzip),
        region(100, SignatureKind::Xz),
        region(u64::MAX, SignatureKind::Cpio),
        region(50, SignatureKind::Xz),
        region(60, SignatureKind::Jffs2),
        region(70, SignatureKind::Cpio),
    ];
    let jobs = NativeExtractor.plan(&regions, 100);
    assert_eq!(
        jobs,
        vec![
            CarveJob { offset: 0, signature_type: SignatureKind::Squashfs, tool: Some(ExtractTool::Unsquashfs) },
            CarveJob { offset: 10, signature_type: SignatureKind::Ubifs, tool: None },
            CarveJob { offset: 99, signature_type: SignatureKind::Gzip, tool: Some(ExtractTool::TarGzip) },
            CarveJob { offset: 50, signature_type: SignatureKind::Xz, tool: Some(ExtractTool::TarXz) },
            CarveJob { offset: 60, signature_type: SignatureKind::Jffs2, tool: Some(ExtractTool::Jefferson) },
            CarveJob { offset: 70, signature_type: SignatureKind::Cpio, tool: Some(ExtractTool::Cpio) },
        ]
    );
    assert_eq!(NativeExtractor.plan(&regions, 0), vec![]);
    assert_eq!(NativeExtractor.plan(&vec![], 100), vec![]);
}

#[test]
fn regions_come_in_order_of_where_their_magic_ends() {
    // An ext filesystem at 0 (magic at 0x438) and a gzip stream at 100: the
    // gzip magic ends first, so it is reported first.
    let mut image = vec![0u8; 0x800];
    image[0x400..0x404].copy_from_slice(&3u32.to_le_bytes());
    image[0x404..0x408].copy_from_slice(&9u32.to_le_bytes());
    image[0x438] = 0x53;
    image[0x439] = 0xef;
    image[100] = 0x1f;
    image[101] = 0x8b;
    assert_eq!(scan_bytes(&image), vec![region(100, SignatureKind::Gzip), region(0, SignatureKind::Ext)]);
}
