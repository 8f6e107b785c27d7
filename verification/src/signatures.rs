//! The byte signatures that the scanner looks for.

use vstd::prelude::*;

verus! {

/// The kind of filesystem or compressed stream a signature announces.
#[derive(Clone, Copy, Debug, PartialEq, Eq, Structural)]
pub enum SignatureKind {
    Squashfs,
    Jffs2,
    Ubifs,
    Cramfs,
    Cpio,
    Gzip,
    Zstd,
    Xz,
    Lzo,
    Ext,
}

/// The name under which a kind is reported.
pub open spec fn kind_name(kind: SignatureKind) -> Seq<char> {
    match kind {
        SignatureKind::Squashfs => "squashfs"@,
        SignatureKind::Jffs2 => "jffs2"@,
        SignatureKind::Ubifs => "ubifs"@,
        SignatureKind::Cramfs => "cramfs"@,
        SignatureKind::Cpio => "cpio"@,
        SignatureKind::Gzip => "gzip"@,
        SignatureKind::Zstd => "zstd"@,
        SignatureKind::Xz => "xz"@,
        SignatureKind::Lzo => "lzo"@,
        SignatureKind::Ext => "ext"@,
    }
}

impl SignatureKind {
    /// The name under which this kind is reported, such as `"squashfs"`.
    pub fn name(&self) -> (s: &'static str)
        ensures
            s@ == kind_name(*self),
    {
        match self {
            SignatureKind::Squashfs => "squashfs",
            SignatureKind::Jffs2 => "jffs2",
            SignatureKind::Ubifs => "ubifs",
            SignatureKind::Cramfs => "cramfs",
            SignatureKind::Cpio => "cpio",
            SignatureKind::Gzip => "gzip",
            SignatureKind::Zstd => "zstd",
            SignatureKind::Xz => "xz",
            SignatureKind::Lzo => "lzo",
            SignatureKind::Ext => "ext",
        }
    }
}

/// A magic byte string that marks the start of a region of the given kind.
pub struct Signature {
    pub name: SignatureKind,
    pub magic: Vec<u8>,
}

/// Number of signatures whose magic stands at the start of the region.
pub open spec fn num_signatures() -> int {
    14
}

/// Number of patterns searched for: the signatures, then the ext magic,
/// which stands `EXT_MAGIC_OFFSET` bytes into its region.
pub open spec fn num_patterns() -> int {
    15
}

/// Offset of the ext superblock magic from the start of the filesystem.
pub const EXT_MAGIC_OFFSET: usize = 0x438;

/// The kind announced by pattern `i`.
pub open spec fn pattern_kind(i: int) -> SignatureKind {
    if i < 4 {
        SignatureKind::Squashfs
    } else if i < 6 {
        SignatureKind::Jffs2
    } else if i == 6 {
        SignatureKind::Ubifs
    } else if i == 7 {
        SignatureKind::Cramfs
    } else if i < 10 {
        SignatureKind::Cpio
    } else if i == 10 {
        SignatureKind::Gzip
    } else if i == 11 {
        SignatureKind::Zstd
    } else if i == 12 {
        SignatureKind::Xz
    } else if i == 13 {
        SignatureKind::Lzo
    } else {
        SignatureKind::Ext
    }
}

/// The magic bytes of pattern `i`.
pub open spec fn pattern_magic(i: int) -> Seq<u8> {
    if i == 0 {
        seq![0x68u8, 0x73, 0x71, 0x73]  // "hsqs"
    } else if i == 1 {
        seq![0x73u8, 0x71, 0x73, 0x68]  // "sqsh"
    } else if i == 2 {
        seq![0x73u8, 0x68, 0x73, 0x71]  // "shsq"
    } else if i == 3 {
        seq![0x71u8, 0x73, 0x68, 0x73]  // "qshs"
    } else if i == 4 {
        seq![0x85u8, 0x19]
    } else if i == 5 {
        seq![0x19u8, 0x85]
    } else if i == 6 {
        seq![0x31u8, 0x18, 0x10, 0x06]
    } else if i == 7 {
        seq![0x45u8, 0x3d, 0xcd, 0x28]
    } else if i == 8 {
        seq![0x30u8, 0x37, 0x30, 0x37, 0x30, 0x31]  // "070701"
    } else if i == 9 {
        seq![0x30u8, 0x37, 0x30, 0x37, 0x30, 0x32]  // "070702"
    } else if i == 10 {
        seq![0x1fu8, 0x8b]
    } else if i == 11 {
        seq![0x28u8, 0xb5, 0x2f, 0xfd]
    } else if i == 12 {
        seq![0xfdu8, 0x37, 0x7a, 0x58, 0x5a]  // "\xfd7zXZ"
    } else if i == 13 {
        seq![0x89u8, 0x4c, 0x5a, 0x4f]  // "\x89LZO"
    } else {
        seq![0x53u8, 0xef]
    }
}

/// How far into its region pattern `i` stands.
pub open spec fn pattern_shift(i: int) -> int {
    if i < num_signatures() {
        0
    } else {
        EXT_MAGIC_OFFSET as int
    }
}

/// The patterns searched for, in order.
pub open spec fn pattern_table() -> Seq<Seq<u8>> {
    Seq::new(num_patterns() as nat, |i: int| pattern_magic(i))
}

/// The signatures whose magic starts their region, in search order.
pub fn signatures() -> (sigs: Vec<Signature>)
    ensures
        sigs.len() == num_signatures(),
        forall|i: int|
            #![trigger sigs@[i]]
            0 <= i < num_signatures() ==> sigs@[i].name == pattern_kind(i)
                && sigs@[i].magic@ == pattern_magic(i),
{
    let sigs = vec![
        Signature { name: SignatureKind::Squashfs, magic: vec![0x68u8, 0x73, 0x71, 0x73] },
        Signature { name: SignatureKind::Squashfs, magic: vec![0x73u8, 0x71, 0x73, 0x68] },
        Signature { name: SignatureKind::Squashfs, magic: vec![0x73u8, 0x68, 0x73, 0x71] },
        Signature { name: SignatureKind::Squashfs, magic: vec![0x71u8, 0x73, 0x68, 0x73] },
        Signature { name: SignatureKind::Jffs2, magic: vec![0x85u8, 0x19] },
        Signature { name: SignatureKind::Jffs2, magic: vec![0x19u8, 0x85] },
        Signature { name: SignatureKind::Ubifs, magic: vec![0x31u8, 0x18, 0x10, 0x06] },
        Signature { name: SignatureKind::Cramfs, magic: vec![0x45u8, 0x3d, 0xcd, 0x28] },
        Signature { name: SignatureKind::Cpio, magic: vec![0x30u8, 0x37, 0x30, 0x37, 0x30, 0x31] },
        Signature { name: SignatureKind::Cpio, magic: vec![0x30u8, 0x37, 0x30, 0x37, 0x30, 0x32] },
        Signature { name: SignatureKind::Gzip, magic: vec![0x1fu8, 0x8b] },
        Signature { name: SignatureKind::Zstd, magic: vec![0x28u8, 0xb5, 0x2f, 0xfd] },
        Signature { name: SignatureKind::Xz, magic: vec![0xfdu8, 0x37, 0x7a, 0x58, 0x5a] },
        Signature { name: SignatureKind::Lzo, magic: vec![0x89u8, 0x4c, 0x5a, 0x4f] },
    ];
    assert(sigs[0].magic@ =~= pattern_magic(0));
    assert(sigs[1].magic@ =~= pattern_magic(1));
    assert(sigs[2].magic@ =~= pattern_magic(2));
    assert(sigs[3].magic@ =~= pattern_magic(3));
    assert(sigs[4].magic@ =~= pattern_magic(4));
    assert(sigs[5].magic@ =~= pattern_magic(5));
    assert(sigs[6].magic@ =~= pattern_magic(6));
    assert(sigs[7].magic@ =~= pattern_magic(7));
    assert(sigs[8].magic@ =~= pattern_magic(8));
    assert(sigs[9].magic@ =~= pattern_magic(9));
    assert(sigs[10].magic@ =~= pattern_magic(10));
    assert(sigs[11].magic@ =~= pattern_magic(11));
    assert(sigs[12].magic@ =~= pattern_magic(12));
    assert(sigs[13].magic@ =~= pattern_magic(13));
    sigs
}

/// A signature whose magic stands at a fixed offset inside its region.
pub struct SpecialSignature {
    pub name: SignatureKind,
    pub offset: usize,
    pub magic: Vec<u8>,
}

/// The signatures whose magic stands inside the region, in search order
/// after those of `signatures`.
pub fn special_signatures() -> (sigs: Vec<SpecialSignature>)
    ensures
        sigs.len() == num_patterns() - num_signatures(),
        forall|i: int|
            #![trigger sigs@[i]]
            0 <= i < sigs.len() ==> sigs@[i].name == pattern_kind(num_signatures() + i)
                && sigs@[i].offset == pattern_shift(num_signatures() + i)
                && sigs@[i].magic@ == pattern_magic(num_signatures() + i),
{
    let sigs = vec![
        SpecialSignature { name: SignatureKind::Ext, offset: EXT_MAGIC_OFFSET, magic: vec![0x53u8, 0xef] },
    ];
    assert(sigs[0].magic@ =~= pattern_magic(14));
    sigs
}

/// All magic byte strings, in the order in which a match reports its
/// pattern: those of `signatures`, then those of `special_signatures`.
pub fn search_patterns() -> (patterns: Vec<Vec<u8>>)
    ensures
        patterns.deep_view() == pattern_table(),
{
    let sigs = signatures();
    let specials = special_signatures();
    let mut patterns: Vec<Vec<u8>> = Vec::new();
    for i in 0..sigs.len()
        invariant
            sigs.len() == num_signatures(),
            specials.len() == num_patterns() - num_signatures(),
            forall|j: int|
                #![trigger sigs@[j]]
                0 <= j < num_signatures() ==> sigs@[j].name == pattern_kind(j)
                    && sigs@[j].magic@ == pattern_magic(j),
            patterns.len() == i,
            forall|j: int| 0 <= j < i ==> #[trigger] patterns[j]@ == pattern_magic(j),
    {
        let magic = sigs[i].magic.clone();
        assert(magic@ =~= sigs[i as int].magic@);
        patterns.push(magic);
    }
    for i in 0..specials.len()
        invariant
            specials.len() == num_patterns() - num_signatures(),
            forall|j: int|
                #![trigger specials@[j]]
                0 <= j < specials.len() ==> specials@[j].name == pattern_kind(num_signatures() + j)
                    && specials@[j].offset == pattern_shift(num_signatures() + j)
                    && specials@[j].magic@ == pattern_magic(num_signatures() + j),
            patterns.len() == num_signatures() + i,
            forall|j: int| 0 <= j < num_signatures() + i ==> #[trigger] patterns[j]@ == pattern_magic(j),
    {
        let magic = specials[i].magic.clone();
        assert(magic@ =~= specials[i as int].magic@);
        patterns.push(magic);
    }
    assert forall|j: int| 0 <= j < num_patterns() implies #[trigger] patterns.deep_view()[j]
        == pattern_table()[j] by {
        assert(patterns[j]@ == pattern_magic(j));
    }
    assert(patterns.deep_view() =~= pattern_table());
    patterns
}

} // verus!
