//! Cheap header checks that weed out false signature matches.

use vstd::arithmetic::power::pow;
use vstd::arithmetic::power2::{lemma_pow2, lemma_pow2_pos, lemma_pow2_unfold, pow2};
use vstd::prelude::*;

verus! {

/// Little-endian 16-bit value of the bytes at `i`.
pub open spec fn le_u16(s: Seq<u8>, i: int) -> int {
    s[i] + 256 * s[i + 1]
}

/// Big-endian 16-bit value of the bytes at `i`.
pub open spec fn be_u16(s: Seq<u8>, i: int) -> int {
    256 * s[i] + s[i + 1]
}

/// Little-endian 32-bit value of the bytes at `i`.
pub open spec fn le_u32(s: Seq<u8>, i: int) -> int {
    s[i] + 256 * s[i + 1] + 65536 * s[i + 2] + 16777216 * s[i + 3]
}

/// Big-endian 32-bit value of the bytes at `i`.
pub open spec fn be_u32(s: Seq<u8>, i: int) -> int {
    16777216 * s[i] + 65536 * s[i + 1] + 256 * s[i + 2] + s[i + 3]
}

pub open spec fn read_u16(s: Seq<u8>, i: int, big_endian: bool) -> int {
    if big_endian {
        be_u16(s, i)
    } else {
        le_u16(s, i)
    }
}

pub open spec fn read_u32(s: Seq<u8>, i: int, big_endian: bool) -> int {
    if big_endian {
        be_u32(s, i)
    } else {
        le_u32(s, i)
    }
}

/// `n` is 2 to some natural power.
pub open spec fn is_power_of_two(n: int) -> bool
    decreases n,
{
    if n <= 0 {
        false
    } else if n == 1 {
        true
    } else if n % 2 == 1 {
        false
    } else {
        is_power_of_two(n / 2)
    }
}

/// The squashfs magic at `o` is one of the two big-endian spellings,
/// "sqsh" or "qshs".
pub open spec fn squashfs_big_endian(s: Seq<u8>, o: int) -> bool {
    ||| (s[o] == 0x73 && s[o + 1] == 0x71 && s[o + 2] == 0x73 && s[o + 3] == 0x68)
    ||| (s[o] == 0x71 && s[o + 1] == 0x73 && s[o + 2] == 0x68 && s[o + 3] == 0x73)
}

/// A squashfs superblock starts at `o`: all 96 header bytes are present,
/// the inode count is non-zero, the block size is a power of two from 4 KiB
/// to 1 MiB, the compressor id is between 1 and 6, and the major version is 4.
pub open spec fn squashfs_header_valid(s: Seq<u8>, o: int) -> bool {
    let be = squashfs_big_endian(s, o);
    &&& 0 <= o
    &&& o + 96 <= s.len()
    &&& read_u32(s, o + 4, be) != 0
    &&& 4096 <= read_u32(s, o + 12, be) <= 1048576
    &&& is_power_of_two(read_u32(s, o + 12, be))
    &&& 1 <= read_u16(s, o + 20, be) <= 6
    &&& read_u16(s, o + 28, be) == 4
}

/// The jffs2 magic at `o` is the big-endian 0x1985.
pub open spec fn jffs2_big_endian(s: Seq<u8>, o: int) -> bool {
    s[o] == 0x19 && s[o + 1] == 0x85
}

/// A jffs2 node header starts at `o`: its 12 bytes are present, the node
/// type is a clean marker (0x2000), a directory entry (0x2001) or an inode
/// (0x2002), and the total length is at least 12.
pub open spec fn jffs2_header_valid(s: Seq<u8>, o: int) -> bool {
    let be = jffs2_big_endian(s, o);
    let node_type = read_u16(s, o + 2, be);
    &&& 0 <= o
    &&& o + 12 <= s.len()
    &&& (node_type == 0x2000 || node_type == 0x2001 || node_type == 0x2002)
    &&& read_u32(s, o + 4, be) >= 12
}

/// Offset of the ext superblock from the start of the filesystem.
pub open spec fn ext_superblock_offset() -> int {
    0x400
}

/// An ext filesystem starts at `o`: its 1024-byte superblock at `o + 0x400`
/// is present, and its inode and block counts (little-endian) are non-zero.
pub open spec fn ext_header_valid(s: Seq<u8>, o: int) -> bool {
    let sb = o + ext_superblock_offset();
    &&& 0 <= o
    &&& sb + 1024 <= s.len()
    &&& le_u32(s, sb) != 0
    &&& le_u32(s, sb + 4) != 0
}

/// `is_power_of_two` holds exactly of the numbers 2^k.
pub proof fn lemma_power_of_two_is_pow2(n: int)
    ensures
        is_power_of_two(n) <==> exists|k: nat| n == #[trigger] pow2(k),
    decreases n,
{
    reveal(pow);
    if n <= 0 {
        if exists|k: nat| n == #[trigger] pow2(k) {
            let k = choose|k: nat| n == #[trigger] pow2(k);
            lemma_pow2_pos(k);
        }
    } else if n == 1 {
        lemma_pow2(0);
        assert(n == pow2(0));
    } else if n % 2 == 1 {
        if exists|k: nat| n == #[trigger] pow2(k) {
            let k = choose|k: nat| n == #[trigger] pow2(k);
            if k == 0 {
                lemma_pow2(0);
            } else {
                lemma_pow2_unfold(k);
            }
        }
    } else {
        lemma_power_of_two_is_pow2(n / 2);
        if exists|k: nat| n / 2 == #[trigger] pow2(k) {
            let k = choose|k: nat| n / 2 == #[trigger] pow2(k);
            lemma_pow2_unfold(k + 1);
            assert(n == pow2(k + 1));
        }
        if exists|k: nat| n == #[trigger] pow2(k) {
            let k = choose|k: nat| n == #[trigger] pow2(k);
            if k == 0 {
                lemma_pow2(0);
            } else {
                lemma_pow2_unfold(k);
                assert(n / 2 == pow2((k - 1) as nat));
            }
        }
    }
}

fn read_u16_at(data: &[u8], at: usize, big_endian: bool) -> (v: u16)
    requires
        at + 2 <= data.len(),
    ensures
        v == read_u16(data@, at as int, big_endian),
{
    let b0 = data[at] as u16;
    let b1 = data[at + 1] as u16;
    if big_endian {
        b0 * 256 + b1
    } else {
        b1 * 256 + b0
    }
}

fn read_u32_at(data: &[u8], at: usize, big_endian: bool) -> (v: u32)
    requires
        at + 4 <= data.len(),
    ensures
        v == read_u32(data@, at as int, big_endian),
{
    let b0 = data[at] as u32;
    let b1 = data[at + 1] as u32;
    let b2 = data[at + 2] as u32;
    let b3 = data[at + 3] as u32;
    if big_endian {
        b0 * 16777216 + b1 * 65536 + b2 * 256 + b3
    } else {
        b3 * 16777216 + b2 * 65536 + b1 * 256 + b0
    }
}

fn power_of_two(n: u32) -> (r: bool)
    ensures
        r == is_power_of_two(n as int),
{
    if n == 0 {
        return false;
    }
    let mut m = n;
    while m > 1 && m % 2 == 0
        invariant
            m >= 1,
            is_power_of_two(m as int) == is_power_of_two(n as int),
        decreases m,
    {
        m = m / 2;
    }
    m == 1
}

/// Checks the squashfs superblock that a magic at `offset` announces.
pub fn validate_squashfs(mmap: &[u8], offset: usize) -> (valid: bool)
    ensures
        valid == squashfs_header_valid(mmap@, offset as int),
        offset + 96 > mmap.len() ==> !valid,
        offset + 96 <= mmap.len() && ((mmap@[offset as int] == 0x73 && mmap@[offset + 1] == 0x71
            && mmap@[offset + 2] == 0x73 && mmap@[offset + 3] == 0x68) || (mmap@[offset as int] == 0x71
            && mmap@[offset + 1] == 0x73 && mmap@[offset + 2] == 0x68 && mmap@[offset + 3] == 0x73))
            ==> (valid <==> {
            &&& be_u32(mmap@, offset + 4) != 0
            &&& 4096 <= be_u32(mmap@, offset + 12) <= 1048576
            &&& is_power_of_two(be_u32(mmap@, offset + 12))
            &&& 1 <= be_u16(mmap@, offset + 20) <= 6
            &&& be_u16(mmap@, offset + 28) == 4
        }),
        offset + 96 <= mmap.len() && !((mmap@[offset as int] == 0x73 && mmap@[offset + 1] == 0x71
            && mmap@[offset + 2] == 0x73 && mmap@[offset + 3] == 0x68) || (mmap@[offset as int] == 0x71
            && mmap@[offset + 1] == 0x73 && mmap@[offset + 2] == 0x68 && mmap@[offset + 3] == 0x73))
            ==> (valid <==> {
            &&& le_u32(mmap@, offset + 4) != 0
            &&& 4096 <= le_u32(mmap@, offset + 12) <= 1048576
            &&& is_power_of_two(le_u32(mmap@, offset + 12))
            &&& 1 <= le_u16(mmap@, offset + 20) <= 6
            &&& le_u16(mmap@, offset + 28) == 4
        }),
{
    if offset > mmap.len() || mmap.len() - offset < 96 {
        return false;
    }
    let is_be = (mmap[offset] == 0x73 && mmap[offset + 1] == 0x71 && mmap[offset + 2] == 0x73
        && mmap[offset + 3] == 0x68) || (mmap[offset] == 0x71 && mmap[offset + 1] == 0x73
        && mmap[offset + 2] == 0x68 && mmap[offset + 3] == 0x73);

    let inodes = read_u32_at(mmap, offset + 4, is_be);
    if inodes == 0 {
        return false;
    }
    let block_size = read_u32_at(mmap, offset + 12, is_be);
    if block_size < 4096 || block_size > 1048576 || !power_of_two(block_size) {
        return false;
    }
    let comp_id = read_u16_at(mmap, offset + 20, is_be);
    if comp_id == 0 || comp_id > 6 {
        return false;
    }
    let s_major = read_u16_at(mmap, offset + 28, is_be);
    if s_major != 4 {
        return false;
    }
    true
}

/// Checks the jffs2 node header that a magic at `offset` announces.
pub fn validate_jffs2(mmap: &[u8], offset: usize) -> (valid: bool)
    ensures
        valid == jffs2_header_valid(mmap@, offset as int),
        offset + 12 > mmap.len() ==> !valid,
        offset + 12 <= mmap.len() && mmap@[offset as int] == 0x19 && mmap@[offset + 1] == 0x85
            ==> (valid <==> {
            &&& (be_u16(mmap@, offset + 2) == 0x2000 || be_u16(mmap@, offset + 2) == 0x2001
                || be_u16(mmap@, offset + 2) == 0x2002)
            &&& be_u32(mmap@, offset + 4) >= 12
        }),
        offset + 12 <= mmap.len() && !(mmap@[offset as int] == 0x19 && mmap@[offset + 1] == 0x85)
            ==> (valid <==> {
            &&& (le_u16(mmap@, offset + 2) == 0x2000 || le_u16(mmap@, offset + 2) == 0x2001
                || le_u16(mmap@, offset + 2) == 0x2002)
            &&& le_u32(mmap@, offset + 4) >= 12
        }),
{
    if offset > mmap.len() || mmap.len() - offset < 12 {
        return false;
    }
    let is_be = mmap[offset] == 0x19 && mmap[offset + 1] == 0x85;

    let nodetype = read_u16_at(mmap, offset + 2, is_be);
    if nodetype != 0x2000 && nodetype != 0x2001 && nodetype != 0x2002 {
        return false;
    }
    let totlen = read_u32_at(mmap, offset + 4, is_be);
    if totlen < 12 {
        return false;
    }
    true
}

/// Checks the ext superblock of a filesystem that starts at `offset`.
pub fn validate_ext(mmap: &[u8], offset: usize) -> (valid: bool)
    ensures
        valid == ext_header_valid(mmap@, offset as int),
        valid <==> {
            &&& offset + 0x400 + 1024 <= mmap.len()
            &&& mmap@[offset + 0x400] + 256 * mmap@[offset + 0x401] + 65536 * mmap@[offset + 0x402]
                + 16777216 * mmap@[offset + 0x403] != 0
            &&& mmap@[offset + 0x404] + 256 * mmap@[offset + 0x405] + 65536 * mmap@[offset + 0x406]
                + 16777216 * mmap@[offset + 0x407] != 0
        },
{
    if offset > mmap.len() || mmap.len() - offset < 0x400 + 1024 {
        return false;
    }
    let sb_offset = offset + 0x400;
    let s_inodes_count = read_u32_at(mmap, sb_offset, false);
    if s_inodes_count == 0 {
        return false;
    }
    let s_blocks_count = read_u32_at(mmap, sb_offset + 4, false);
    if s_blocks_count == 0 {
        return false;
    }
    true
}

} // verus!
