//! Finding signature matches in a firmware image and turning them into
//! detected regions.

use aho_corasick::{AhoCorasick, BuildError};
use vstd::prelude::*;

use crate::signatures::{
    num_patterns, num_signatures, pattern_kind, EXT_MAGIC_OFFSET, pattern_magic, pattern_shift, pattern_table,
    search_patterns, signatures, special_signatures, SignatureKind,
};
use crate::validation::{
    le_u32, ext_header_valid, jffs2_header_valid, squashfs_header_valid, validate_ext, validate_jffs2,
    validate_squashfs,
};

verus! {

#[verifier::external_type_specification]
#[verifier::external_body]
pub struct ExAhoCorasick(AhoCorasick);

#[verifier::external_type_specification]
#[verifier::external_body]
pub struct ExBuildError(BuildError);

/// The patterns that a searcher was built from.
pub uninterp spec fn searcher_patterns(searcher: AhoCorasick) -> Seq<Seq<u8>>;

/// The matches, as (pattern index, start) pairs and in the order in which
/// they are reported, of an overlapping search for `patterns` in `haystack`.
pub uninterp spec fn overlapping_matches(patterns: Seq<Seq<u8>>, haystack: Seq<u8>) -> Seq<(usize, usize)>;

/// `pattern` occurs in `haystack` starting at `start`.
pub open spec fn occurs_at(haystack: Seq<u8>, pattern: Seq<u8>, start: int) -> bool {
    &&& 0 <= start
    &&& start + pattern.len() <= haystack.len()
    &&& haystack.subrange(start, start + pattern.len()) == pattern
}

/// Builds a searcher with `aho_corasick::AhoCorasick::new` (default
/// configuration, standard match semantics). Claimed: building succeeds for
/// at most 256 patterns of at most 256 bytes each (the builder fails only
/// when a pattern id, a pattern length or a state id of its non-contiguous
/// NFA passes `i32::MAX - 1`; its DFA and contiguous NFA fall back on
/// failure), and a searcher that is returned holds exactly the given
/// patterns, in order. For larger pattern sets nothing is claimed of
/// success.
#[verifier::external_body]
fn build_searcher(patterns: &Vec<Vec<u8>>) -> (built: Result<AhoCorasick, BuildError>)
    ensures
        patterns.len() <= 256 && (forall|i: int|
            0 <= i < patterns.len() ==> (#[trigger] patterns[i]).len() <= 256) ==> built is Ok,
        built matches Ok(searcher) ==> searcher_patterns(searcher) == patterns.deep_view(),
{
    AhoCorasick::new(patterns)
}

/// A match ending at `end1` of a pattern of length `len1` is reported before
/// one ending at `end2` of length `len2`: matches come in order of their end,
/// and among those that end together the longer come first.
pub open spec fn reported_in_order(end1: int, len1: nat, end2: int, len2: nat) -> bool {
    end1 < end2 || (end1 == end2 && len1 >= len2)
}

/// Runs `aho_corasick::AhoCorasick::find_overlapping_iter` over `haystack`
/// and collects each match as (pattern index, start). The searcher's
/// patterns must all be non-empty: with an empty pattern the crate reports
/// some empty matches twice. Claimed, from the crate's documentation ("all
/// possible matches at every position") and its search loop, which walks
/// the haystack once and at each position reports the match list of the
/// state reached (the state's own pattern first, then those of its failure
/// state, which are shorter): the result is the named search result; each
/// reported match is a real occurrence of its pattern; every occurrence is
/// reported; no (pattern, start) pair is reported twice; and matches come
/// in order of their end, the longer first among those that end together.
/// Which of two equal patterns comes first is left to the name.
#[verifier::external_body]
fn find_overlapping(searcher: &AhoCorasick, haystack: &[u8]) -> (found: Vec<(usize, usize)>)
    requires
        forall|p: int|
            0 <= p < searcher_patterns(*searcher).len() ==> (#[trigger] searcher_patterns(
                *searcher,
            )[p]).len() > 0,
    ensures
        found@ == overlapping_matches(searcher_patterns(*searcher), haystack@),
        forall|k: int|
            0 <= k < found.len() ==> (#[trigger] found[k]).0 < searcher_patterns(*searcher).len()
                && occurs_at(haystack@, searcher_patterns(*searcher)[found[k].0 as int], found[k].1 as int),
        forall|p: int, s: int|
            0 <= p < searcher_patterns(*searcher).len()
                && #[trigger] occurs_at(haystack@, searcher_patterns(*searcher)[p], s)
                ==> found@.contains((p as usize, s as usize)),
        forall|a: int, b: int| 0 <= a < b < found.len() ==> #[trigger] found[a] != #[trigger] found[b],
        forall|a: int, b: int|
            #![trigger found[a], found[b]]
            0 <= a < b < found.len() ==> reported_in_order(
                found[a].1 + searcher_patterns(*searcher)[found[a].0 as int].len(),
                searcher_patterns(*searcher)[found[a].0 as int].len(),
                found[b].1 + searcher_patterns(*searcher)[found[b].0 as int].len(),
                searcher_patterns(*searcher)[found[b].0 as int].len(),
            ),
{
    searcher.find_overlapping_iter(haystack).map(|m| (m.pattern().as_usize(), m.start())).collect()
}

/// A region of the image that looks like the start of a filesystem or a
/// compressed stream.
#[derive(Clone, Copy, Debug, PartialEq, Eq, Structural)]
pub struct DetectedRegion {
    pub offset: u64,
    pub signature_type: SignatureKind,
}

/// The header check that a region of the given kind must pass; kinds with
/// no cheap check pass.
pub open spec fn header_check(kind: SignatureKind, s: Seq<u8>, o: int) -> bool {
    match kind {
        SignatureKind::Squashfs => squashfs_header_valid(s, o),
        SignatureKind::Jffs2 => jffs2_header_valid(s, o),
        SignatureKind::Ext => ext_header_valid(s, o),
        _ => true,
    }
}

/// The region that a match of pattern `m.0` at `m.1` announces, if its
/// region start lies in the image and its header check passes.
pub open spec fn match_region(s: Seq<u8>, m: (usize, usize)) -> Option<DetectedRegion> {
    let p = m.0 as int;
    let start = m.1 - pattern_shift(p);
    if start >= 0 && header_check(pattern_kind(p), s, start) {
        Some(DetectedRegion { offset: start as u64, signature_type: pattern_kind(p) })
    } else {
        None
    }
}

/// The regions announced by the matches, in match order.
pub open spec fn candidate_regions(s: Seq<u8>, ms: Seq<(usize, usize)>) -> Seq<DetectedRegion>
    decreases ms.len(),
{
    if ms.len() == 0 {
        Seq::empty()
    } else {
        let rest = candidate_regions(s, ms.drop_last());
        match match_region(s, ms.last()) {
            Some(r) => rest.push(r),
            None => rest,
        }
    }
}

/// `rs` with each run of equal neighbours collapsed to its first element.
pub open spec fn dedup_adjacent(rs: Seq<DetectedRegion>) -> Seq<DetectedRegion>
    decreases rs.len(),
{
    if rs.len() == 0 {
        rs
    } else {
        let d = dedup_adjacent(rs.drop_last());
        if d.len() > 0 && d.last() == rs.last() {
            d
        } else {
            d.push(rs.last())
        }
    }
}

/// The regions reported for the matches `ms` in the image `s`.
pub open spec fn detected_regions(s: Seq<u8>, ms: Seq<(usize, usize)>) -> Seq<DetectedRegion> {
    dedup_adjacent(candidate_regions(s, ms))
}

/// Some pattern of the region's kind occurs where that kind's magic stands
/// in a region starting at `r.offset`.
pub open spec fn magic_found(s: Seq<u8>, r: DetectedRegion) -> bool {
    exists|p: int|
        0 <= p < num_patterns() && pattern_kind(p) == r.signature_type && #[trigger] occurs_at(
            s,
            pattern_magic(p),
            r.offset + pattern_shift(p),
        )
}

/// A region whose magic is present and whose header check passes.
pub open spec fn genuine_region(s: Seq<u8>, r: DetectedRegion) -> bool {
    magic_found(s, r) && header_check(r.signature_type, s, r.offset as int)
}

proof fn lemma_candidates_step(s: Seq<u8>, ms: Seq<(usize, usize)>, k: int)
    requires
        0 <= k < ms.len(),
    ensures
        candidate_regions(s, ms.take(k + 1)) == (match match_region(s, ms[k]) {
            Some(r) => candidate_regions(s, ms.take(k)).push(r),
            None => candidate_regions(s, ms.take(k)),
        }),
{
    assert(ms.take(k + 1).drop_last() =~= ms.take(k));
}

proof fn lemma_candidate_member(s: Seq<u8>, ms: Seq<(usize, usize)>, r: DetectedRegion)
    ensures
        candidate_regions(s, ms).contains(r) <==> exists|k: int|
            0 <= k < ms.len() && #[trigger] match_region(s, ms[k]) == Some(r),
    decreases ms.len(),
{
    if ms.len() > 0 {
        let init = ms.drop_last();
        lemma_candidate_member(s, init, r);
        let rest = candidate_regions(s, init);
        if candidate_regions(s, ms).contains(r) {
            let j = choose|j: int| 0 <= j < candidate_regions(s, ms).len() && candidate_regions(s, ms)[j] == r;
            if j < rest.len() {
                assert(rest[j] == r);
                let k = choose|k: int| 0 <= k < init.len() && #[trigger] match_region(s, init[k]) == Some(r);
                assert(ms[k] == init[k]);
            } else {
                assert(match_region(s, ms[ms.len() - 1]) == Some(r));
            }
        }
        if exists|k: int| 0 <= k < ms.len() && #[trigger] match_region(s, ms[k]) == Some(r) {
            let k = choose|k: int| 0 <= k < ms.len() && #[trigger] match_region(s, ms[k]) == Some(r);
            if k < ms.len() - 1 {
                assert(init[k] == ms[k]);
                assert(rest.contains(r));
                let j = choose|j: int| 0 <= j < rest.len() && rest[j] == r;
                assert(candidate_regions(s, ms)[j] == r);
            } else {
                let c = candidate_regions(s, ms);
                assert(c[c.len() - 1] == r);
            }
        }
    }
}

proof fn lemma_dedup_member(rs: Seq<DetectedRegion>, x: DetectedRegion)
    ensures
        dedup_adjacent(rs).contains(x) <==> rs.contains(x),
    decreases rs.len(),
{
    if rs.len() > 0 {
        let init = rs.drop_last();
        lemma_dedup_member(init, x);
        let d = dedup_adjacent(init);
        let dd = dedup_adjacent(rs);
        if dd.contains(x) {
            let j = choose|j: int| 0 <= j < dd.len() && dd[j] == x;
            if j < d.len() {
                assert(d[j] == x);
                let i = choose|i: int| 0 <= i < init.len() && init[i] == x;
                assert(rs[i] == x);
            } else {
                assert(rs[rs.len() - 1] == x);
            }
        }
        if rs.contains(x) {
            let i = choose|i: int| 0 <= i < rs.len() && rs[i] == x;
            if i < rs.len() - 1 {
                assert(init[i] == x);
                let j = choose|j: int| 0 <= j < d.len() && d[j] == x;
                assert(dd[j] == x);
            } else if d.len() > 0 && d.last() == rs.last() {
                assert(dd[d.len() - 1] == x);
            } else {
                assert(dd[dd.len() - 1] == x);
            }
        }
    }
}

proof fn lemma_dedup_distinct_neighbours(rs: Seq<DetectedRegion>)
    ensures
        forall|j: int|
            0 <= j < dedup_adjacent(rs).len() - 1 ==> #[trigger] dedup_adjacent(rs)[j]
                != dedup_adjacent(rs)[j + 1],
    decreases rs.len(),
{
    if rs.len() > 0 {
        lemma_dedup_distinct_neighbours(rs.drop_last());
        let d = dedup_adjacent(rs.drop_last());
        let dd = dedup_adjacent(rs);
        assert forall|j: int| 0 <= j < dd.len() - 1 implies #[trigger] dd[j] != dd[j + 1] by {
            if j < d.len() - 1 {
                assert(dd[j] == d[j] && dd[j + 1] == d[j + 1]);
            }
        }
    }
}

/// A genuine region starts inside the image.
pub proof fn lemma_genuine_region_inside_image(s: Seq<u8>, r: DetectedRegion)
    requires
        genuine_region(s, r),
    ensures
        r.offset < s.len(),
{
    let p = choose|p: int|
        0 <= p < num_patterns() && pattern_kind(p) == r.signature_type && #[trigger] occurs_at(
            s,
            pattern_magic(p),
            r.offset + pattern_shift(p),
        );
    assert(pattern_magic(p).len() > 0);
}

/// No two neighbouring detected regions are equal.
pub proof fn lemma_detected_regions_distinct_neighbours(s: Seq<u8>, ms: Seq<(usize, usize)>)
    ensures
        forall|j: int|
            0 <= j < detected_regions(s, ms).len() - 1 ==> #[trigger] detected_regions(s, ms)[j]
                != detected_regions(s, ms)[j + 1],
{
    lemma_dedup_distinct_neighbours(candidate_regions(s, ms));
}

/// When every match is a real occurrence of its pattern, every detected
/// region is genuine: its magic is present and its header check passes.
pub proof fn lemma_detected_regions_sound(s: Seq<u8>, ms: Seq<(usize, usize)>)
    requires
        forall|k: int|
            0 <= k < ms.len() ==> (#[trigger] ms[k]).0 < num_patterns() && occurs_at(
                s,
                pattern_magic(ms[k].0 as int),
                ms[k].1 as int,
            ),
    ensures
        forall|j: int|
            0 <= j < detected_regions(s, ms).len() ==> genuine_region(
                s,
                #[trigger] detected_regions(s, ms)[j],
            ),
{
    let c = candidate_regions(s, ms);
    let d = detected_regions(s, ms);
    assert forall|j: int| 0 <= j < d.len() implies genuine_region(s, #[trigger] d[j]) by {
        let r = d[j];
        assert(d.contains(r));
        lemma_dedup_member(c, r);
        lemma_candidate_member(s, ms, r);
        let k = choose|k: int| 0 <= k < ms.len() && #[trigger] match_region(s, ms[k]) == Some(r);
        let p = ms[k].0 as int;
        assert(occurs_at(s, pattern_magic(p), r.offset + pattern_shift(p)));
    }
}

/// When every occurrence of every pattern is among the matches, every
/// genuine region is detected.
pub proof fn lemma_detected_regions_complete(s: Seq<u8>, ms: Seq<(usize, usize)>)
    requires
        s.len() <= usize::MAX,
        forall|p: int, i: int|
            0 <= p < num_patterns() && #[trigger] occurs_at(s, pattern_magic(p), i)
                ==> ms.contains((p as usize, i as usize)),
    ensures
        forall|r: DetectedRegion| #[trigger] genuine_region(s, r) ==> detected_regions(s, ms).contains(r),
{
    assert forall|r: DetectedRegion| #[trigger] genuine_region(s, r) implies detected_regions(
        s,
        ms,
    ).contains(r) by {
        let p = choose|p: int|
            0 <= p < num_patterns() && pattern_kind(p) == r.signature_type && #[trigger] occurs_at(
                s,
                pattern_magic(p),
                r.offset + pattern_shift(p),
            );
        let i = r.offset + pattern_shift(p);
        assert(ms.contains((p as usize, i as usize)));
        let k = choose|k: int| 0 <= k < ms.len() && ms[k] == (p as usize, i as usize);
        assert(match_region(s, ms[k]) == Some(r));
        lemma_candidate_member(s, ms, r);
        lemma_dedup_member(candidate_regions(s, ms), r);
    }
}

/// The bytes `m` stand in `s` starting at `o`.
pub open spec fn bytes_at(s: Seq<u8>, o: int, m: Seq<u8>) -> bool {
    &&& 0 <= o
    &&& o + m.len() <= s.len()
    &&& forall|k: int| 0 <= k < m.len() ==> s[o + k] == #[trigger] m[k]
}

/// The magic bytes of a `kind` region that starts at `o` are present, as the
/// formats define them: squashfs "hsqs", "sqsh", "shsq" or "qshs"; jffs2
/// 85 19 or 19 85; ubifs 31 18 10 06; cramfs 45 3d cd 28; cpio "070701" or
/// "070702"; gzip 1f 8b; zstd 28 b5 2f fd; xz fd "7zXZ"; lzo 89 "LZO"; and ext
/// 53 ef at 0x438 into the filesystem.
pub open spec fn format_magic_at(s: Seq<u8>, o: int, kind: SignatureKind) -> bool {
    match kind {
        SignatureKind::Squashfs => {
            ||| bytes_at(s, o, seq![0x68u8, 0x73, 0x71, 0x73])
            ||| bytes_at(s, o, seq![0x73u8, 0x71, 0x73, 0x68])
            ||| bytes_at(s, o, seq![0x73u8, 0x68, 0x73, 0x71])
            ||| bytes_at(s, o, seq![0x71u8, 0x73, 0x68, 0x73])
        },
        SignatureKind::Jffs2 => bytes_at(s, o, seq![0x85u8, 0x19]) || bytes_at(s, o, seq![0x19u8, 0x85]),
        SignatureKind::Ubifs => bytes_at(s, o, seq![0x31u8, 0x18, 0x10, 0x06]),
        SignatureKind::Cramfs => bytes_at(s, o, seq![0x45u8, 0x3d, 0xcd, 0x28]),
        SignatureKind::Cpio => {
            ||| bytes_at(s, o, seq![0x30u8, 0x37, 0x30, 0x37, 0x30, 0x31])
            ||| bytes_at(s, o, seq![0x30u8, 0x37, 0x30, 0x37, 0x30, 0x32])
        },
        SignatureKind::Gzip => bytes_at(s, o, seq![0x1fu8, 0x8b]),
        SignatureKind::Zstd => bytes_at(s, o, seq![0x28u8, 0xb5, 0x2f, 0xfd]),
        SignatureKind::Xz => bytes_at(s, o, seq![0xfdu8, 0x37, 0x7a, 0x58, 0x5a]),
        SignatureKind::Lzo => bytes_at(s, o, seq![0x89u8, 0x4c, 0x5a, 0x4f]),
        SignatureKind::Ext => bytes_at(s, o + 0x438, seq![0x53u8, 0xef]),
    }
}

proof fn lemma_bytes_at_occurs(s: Seq<u8>, o: int, m: Seq<u8>)
    ensures
        bytes_at(s, o, m) <==> occurs_at(s, m, o),
{
    if bytes_at(s, o, m) {
        assert(s.subrange(o, o + m.len()) =~= m);
    }
    if occurs_at(s, m, o) {
        assert forall|k: int| 0 <= k < m.len() implies s[o + k] == #[trigger] m[k] by {
            assert(s.subrange(o, o + m.len())[k] == s[o + k]);
        }
    }
}

/// A region's magic is found among the search patterns exactly when the
/// format's magic bytes stand where the region says.
pub proof fn lemma_magic_found_is_format_magic(s: Seq<u8>, r: DetectedRegion)
    ensures
        magic_found(s, r) <==> format_magic_at(s, r.offset as int, r.signature_type),
{
    let o = r.offset as int;
    lemma_bytes_at_occurs(s, o, pattern_magic(0));
    lemma_bytes_at_occurs(s, o, pattern_magic(1));
    lemma_bytes_at_occurs(s, o, pattern_magic(2));
    lemma_bytes_at_occurs(s, o, pattern_magic(3));
    lemma_bytes_at_occurs(s, o, pattern_magic(4));
    lemma_bytes_at_occurs(s, o, pattern_magic(5));
    lemma_bytes_at_occurs(s, o, pattern_magic(6));
    lemma_bytes_at_occurs(s, o, pattern_magic(7));
    lemma_bytes_at_occurs(s, o, pattern_magic(8));
    lemma_bytes_at_occurs(s, o, pattern_magic(9));
    lemma_bytes_at_occurs(s, o, pattern_magic(10));
    lemma_bytes_at_occurs(s, o, pattern_magic(11));
    lemma_bytes_at_occurs(s, o, pattern_magic(12));
    lemma_bytes_at_occurs(s, o, pattern_magic(13));
    lemma_bytes_at_occurs(s, o + 0x438, pattern_magic(14));
    assert(pattern_shift(14) == 0x438);
    if magic_found(s, r) {
        let p = choose|p: int|
            0 <= p < num_patterns() && pattern_kind(p) == r.signature_type && #[trigger] occurs_at(
                s,
                pattern_magic(p),
                r.offset + pattern_shift(p),
            );
        assert(p == 0 || p == 1 || p == 2 || p == 3 || p == 4 || p == 5 || p == 6 || p == 7 || p
            == 8 || p == 9 || p == 10 || p == 11 || p == 12 || p == 13 || p == 14);
    }
    if format_magic_at(s, o, r.signature_type) {
        match r.signature_type {
            SignatureKind::Squashfs => {
                if bytes_at(s, o, pattern_magic(0)) {
                    assert(occurs_at(s, pattern_magic(0), r.offset + pattern_shift(0)));
                } else if bytes_at(s, o, pattern_magic(1)) {
                    assert(occurs_at(s, pattern_magic(1), r.offset + pattern_shift(1)));
                } else if bytes_at(s, o, pattern_magic(2)) {
                    assert(occurs_at(s, pattern_magic(2), r.offset + pattern_shift(2)));
                } else {
                    assert(occurs_at(s, pattern_magic(3), r.offset + pattern_shift(3)));
                }
            },
            SignatureKind::Jffs2 => {
                if bytes_at(s, o, pattern_magic(4)) {
                    assert(occurs_at(s, pattern_magic(4), r.offset + pattern_shift(4)));
                } else {
                    assert(occurs_at(s, pattern_magic(5), r.offset + pattern_shift(5)));
                }
            },
            SignatureKind::Ubifs => {
                assert(occurs_at(s, pattern_magic(6), r.offset + pattern_shift(6)));
            },
            SignatureKind::Cramfs => {
                assert(occurs_at(s, pattern_magic(7), r.offset + pattern_shift(7)));
            },
            SignatureKind::Cpio => {
                if bytes_at(s, o, pattern_magic(8)) {
                    assert(occurs_at(s, pattern_magic(8), r.offset + pattern_shift(8)));
                } else {
                    assert(occurs_at(s, pattern_magic(9), r.offset + pattern_shift(9)));
                }
            },
            SignatureKind::Gzip => {
                assert(occurs_at(s, pattern_magic(10), r.offset + pattern_shift(10)));
            },
            SignatureKind::Zstd => {
                assert(occurs_at(s, pattern_magic(11), r.offset + pattern_shift(11)));
            },
            SignatureKind::Xz => {
                assert(occurs_at(s, pattern_magic(12), r.offset + pattern_shift(12)));
            },
            SignatureKind::Lzo => {
                assert(occurs_at(s, pattern_magic(13), r.offset + pattern_shift(13)));
            },
            SignatureKind::Ext => {
                assert(occurs_at(s, pattern_magic(14), r.offset + pattern_shift(14)));
            },
        }
    }
}

/// Every detected region passes the header check of its kind.
proof fn lemma_detected_pass_header_check(s: Seq<u8>, ms: Seq<(usize, usize)>)
    requires
        forall|k: int| 0 <= k < ms.len() ==> (#[trigger] ms[k]).0 < num_patterns(),
    ensures
        forall|j: int|
            0 <= j < detected_regions(s, ms).len() ==> header_check(
                (#[trigger] detected_regions(s, ms)[j]).signature_type,
                s,
                detected_regions(s, ms)[j].offset as int,
            ),
{
    let d = detected_regions(s, ms);
    assert forall|j: int| 0 <= j < d.len() implies header_check(
        (#[trigger] d[j]).signature_type,
        s,
        d[j].offset as int,
    ) by {
        let r = d[j];
        assert(d.contains(r));
        lemma_dedup_member(candidate_regions(s, ms), r);
        lemma_candidate_member(s, ms, r);
        let k = choose|k: int| 0 <= k < ms.len() && #[trigger] match_region(s, ms[k]) == Some(r);
        assert(ms[k].0 < num_patterns());
    }
}

/// Turns overlapping signature matches, given as (pattern index, start)
/// in the order in which they were found, into detected regions: a match
/// of a special signature stands the signature's offset into its region,
/// squashfs, jffs2 and ext regions must pass their header check, and runs of
/// equal neighbouring regions are collapsed.
pub fn regions_from_matches(mmap: &[u8], matches: &Vec<(usize, usize)>) -> (regions: Vec<DetectedRegion>)
    requires
        forall|k: int| 0 <= k < matches.len() ==> (#[trigger] matches[k]).0 < num_patterns(),
    ensures
        regions@ == detected_regions(mmap@, matches@),
        forall|j: int| 0 <= j < regions.len() - 1 ==> #[trigger] regions[j] != regions[j + 1],
        forall|j: int|
            0 <= j < regions.len() && (#[trigger] regions[j]).signature_type == SignatureKind::Ext ==> {
                &&& regions[j].offset + 0x400 + 1024 <= mmap.len()
                &&& le_u32(mmap@, regions[j].offset + 0x400) != 0
                &&& le_u32(mmap@, regions[j].offset + 0x404) != 0
            },
        forall|j: int|
            0 <= j < regions.len() && (#[trigger] regions[j]).signature_type == SignatureKind::Squashfs
                ==> squashfs_header_valid(mmap@, regions[j].offset as int),
        forall|j: int|
            0 <= j < regions.len() && (#[trigger] regions[j]).signature_type == SignatureKind::Jffs2
                ==> jffs2_header_valid(mmap@, regions[j].offset as int),
{
    let sigs = signatures();
    let specials = special_signatures();
    let mut regions: Vec<DetectedRegion> = Vec::new();
    for k in 0..matches.len()
        invariant
            sigs.len() == num_signatures(),
            forall|j: int|
                #![trigger sigs@[j]]
                0 <= j < num_signatures() ==> sigs@[j].name == pattern_kind(j)
                    && sigs@[j].magic@ == pattern_magic(j),
            specials.len() == num_patterns() - num_signatures(),
            forall|j: int|
                #![trigger specials@[j]]
                0 <= j < specials.len() ==> specials@[j].name == pattern_kind(num_signatures() + j)
                    && specials@[j].offset == pattern_shift(num_signatures() + j)
                    && specials@[j].magic@ == pattern_magic(num_signatures() + j),
            forall|j: int| 0 <= j < matches.len() ==> (#[trigger] matches[j]).0 < num_patterns(),
            regions@ == detected_regions(mmap@, matches@.take(k as int)),
    {
        let (pattern_idx, i) = matches[k];
        let mut found: Option<DetectedRegion> = None;
        if pattern_idx < sigs.len() {
            let kind = sigs[pattern_idx].name;
            let is_valid = match kind {
                SignatureKind::Squashfs => validate_squashfs(mmap, i),
                SignatureKind::Jffs2 => validate_jffs2(mmap, i),
                _ => true,
            };
            if is_valid {
                found = Some(DetectedRegion { offset: i as u64, signature_type: kind });
            }
        } else {
            let special = &specials[pattern_idx - sigs.len()];
            if i >= special.offset {
                let start = i - special.offset;
                let is_valid = match special.name {
                    SignatureKind::Ext => validate_ext(mmap, start),
                    _ => true,
                };
                if is_valid {
                    found = Some(DetectedRegion { offset: start as u64, signature_type: special.name });
                }
            }
        }
        assert(found == match_region(mmap@, matches@[k as int]));
        proof {
            lemma_candidates_step(mmap@, matches@, k as int);
            let c = candidate_regions(mmap@, matches@.take(k as int));
            if let Some(r) = found {
                assert(c.push(r).drop_last() =~= c);
            }
        }
        if let Some(region) = found {
            let n = regions.len();
            if n == 0 || regions[n - 1] != region {
                regions.push(region);
            }
        }
    }
    assert(matches@.take(matches.len() as int) =~= matches@);
    proof {
        lemma_detected_regions_distinct_neighbours(mmap@, matches@);
        lemma_detected_pass_header_check(mmap@, matches@);
        assert forall|j: int| 0 <= j < regions.len() implies header_check(
            (#[trigger] regions[j]).signature_type,
            mmap@,
            regions[j].offset as int,
        ) by {
            assert(regions@[j] == detected_regions(mmap@, matches@)[j]);
        }
    }
    regions
}

/// Two patterns of the same kind with the same magic are the same pattern.
proof fn lemma_pattern_magics_distinct(p1: int, p2: int)
    requires
        0 <= p1 < num_patterns(),
        0 <= p2 < num_patterns(),
        pattern_kind(p1) == pattern_kind(p2),
        pattern_magic(p1) == pattern_magic(p2),
    ensures
        p1 == p2,
{
    assert(pattern_magic(p1)[0] == pattern_magic(p2)[0]);
    assert(pattern_magic(p1)[1] == pattern_magic(p2)[1]);
    if pattern_kind(p1) == SignatureKind::Cpio {
        assert(pattern_magic(p1)[5] == pattern_magic(p2)[5]);
    }
}

/// Two real occurrences that announce the same region are the same match.
proof fn lemma_match_region_injective(s: Seq<u8>, m1: (usize, usize), m2: (usize, usize), r: DetectedRegion)
    requires
        m1.0 < num_patterns(),
        m2.0 < num_patterns(),
        occurs_at(s, pattern_magic(m1.0 as int), m1.1 as int),
        occurs_at(s, pattern_magic(m2.0 as int), m2.1 as int),
        match_region(s, m1) == Some(r),
        match_region(s, m2) == Some(r),
    ensures
        m1 == m2,
{
    let p1 = m1.0 as int;
    let p2 = m2.0 as int;
    assert(pattern_kind(p1) == pattern_kind(p2));
    assert(pattern_shift(p1) == pattern_shift(p2));
    assert(m1.1 == m2.1);
    let len = pattern_magic(p1).len();
    assert(pattern_magic(p2).len() == len);
    let i = m1.1 as int;
    assert(pattern_magic(p1) =~= s.subrange(i, i + len));
    assert(pattern_magic(p2) =~= s.subrange(i, i + len));
    lemma_pattern_magics_distinct(p1, p2);
}

/// Distinct real matches announce distinct regions.
proof fn lemma_candidates_distinct(s: Seq<u8>, ms: Seq<(usize, usize)>)
    requires
        forall|k: int|
            0 <= k < ms.len() ==> (#[trigger] ms[k]).0 < num_patterns() && occurs_at(
                s,
                pattern_magic(ms[k].0 as int),
                ms[k].1 as int,
            ),
        forall|a: int, b: int| 0 <= a < b < ms.len() ==> #[trigger] ms[a] != #[trigger] ms[b],
    ensures
        forall|a: int, b: int|
            0 <= a < b < candidate_regions(s, ms).len() ==> #[trigger] candidate_regions(s, ms)[a]
                != #[trigger] candidate_regions(s, ms)[b],
    decreases ms.len(),
{
    if ms.len() > 0 {
        let init = ms.drop_last();
        assert forall|k: int| 0 <= k < init.len() implies (#[trigger] init[k]).0 < num_patterns()
            && occurs_at(s, pattern_magic(init[k].0 as int), init[k].1 as int) by {
            assert(init[k] == ms[k]);
        }
        assert forall|a: int, b: int| 0 <= a < b < init.len() implies #[trigger] init[a]
            != #[trigger] init[b] by {
            assert(init[a] == ms[a] && init[b] == ms[b]);
        }
        lemma_candidates_distinct(s, init);
        let rest = candidate_regions(s, init);
        let m = ms[ms.len() - 1];
        if let Some(r) = match_region(s, m) {
            if rest.contains(r) {
                lemma_candidate_member(s, init, r);
                let k = choose|k: int| 0 <= k < init.len() && #[trigger] match_region(s, init[k]) == Some(r);
                assert(init[k] == ms[k]);
                lemma_match_region_injective(s, ms[k], m, r);
                assert(ms[k] != ms[ms.len() - 1]);
            }
            let c = candidate_regions(s, ms);
            assert forall|a: int, b: int| 0 <= a < b < c.len() implies #[trigger] c[a] != #[trigger] c[b] by {
                if b == c.len() - 1 {
                    assert(rest[a] == c[a]);
                    assert(rest.contains(c[a]));
                }
            }
        }
    }
}

/// Collapsing neighbours leaves a sequence with no repeats unchanged.
proof fn lemma_dedup_of_distinct(rs: Seq<DetectedRegion>)
    requires
        forall|a: int, b: int| 0 <= a < b < rs.len() ==> #[trigger] rs[a] != #[trigger] rs[b],
    ensures
        dedup_adjacent(rs) == rs,
    decreases rs.len(),
{
    if rs.len() > 0 {
        let init = rs.drop_last();
        assert forall|a: int, b: int| 0 <= a < b < init.len() implies #[trigger] init[a]
            != #[trigger] init[b] by {
            assert(init[a] == rs[a] && init[b] == rs[b]);
        }
        lemma_dedup_of_distinct(init);
        if init.len() > 0 {
            assert(rs[init.len() - 1] != rs[rs.len() - 1]);
        }
        assert(init.push(rs.last()) =~= rs);
    }
}

/// When the matches are real occurrences and no match repeats, no detected
/// region repeats.
pub proof fn lemma_detected_regions_distinct(s: Seq<u8>, ms: Seq<(usize, usize)>)
    requires
        forall|k: int|
            0 <= k < ms.len() ==> (#[trigger] ms[k]).0 < num_patterns() && occurs_at(
                s,
                pattern_magic(ms[k].0 as int),
                ms[k].1 as int,
            ),
        forall|a: int, b: int| 0 <= a < b < ms.len() ==> #[trigger] ms[a] != #[trigger] ms[b],
    ensures
        forall|a: int, b: int|
            0 <= a < b < detected_regions(s, ms).len() ==> #[trigger] detected_regions(s, ms)[a]
                != #[trigger] detected_regions(s, ms)[b],
{
    lemma_candidates_distinct(s, ms);
    lemma_dedup_of_distinct(candidate_regions(s, ms));
}

/// Length of the magic of a kind (all patterns of one kind have the same).
pub open spec fn kind_magic_len(kind: SignatureKind) -> nat {
    match kind {
        SignatureKind::Squashfs => 4,
        SignatureKind::Jffs2 => 2,
        SignatureKind::Ubifs => 4,
        SignatureKind::Cramfs => 4,
        SignatureKind::Cpio => 6,
        SignatureKind::Gzip => 2,
        SignatureKind::Zstd => 4,
        SignatureKind::Xz => 5,
        SignatureKind::Lzo => 4,
        SignatureKind::Ext => 2,
    }
}

/// How far into a region of this kind its magic stands.
pub open spec fn kind_magic_shift(kind: SignatureKind) -> int {
    if kind == SignatureKind::Ext {
        EXT_MAGIC_OFFSET as int
    } else {
        0
    }
}

/// Where the magic of a region ends in the image.
pub open spec fn magic_end(r: DetectedRegion) -> int {
    r.offset + kind_magic_shift(r.signature_type) + kind_magic_len(r.signature_type)
}

/// `r1` may be reported before `r2`: its magic ends earlier, or at the same
/// place and is at least as long.
pub open spec fn regions_in_order(r1: DetectedRegion, r2: DetectedRegion) -> bool {
    reported_in_order(
        magic_end(r1),
        kind_magic_len(r1.signature_type),
        magic_end(r2),
        kind_magic_len(r2.signature_type),
    )
}

/// The matches come in the order in which the search reports them.
pub open spec fn matches_in_order(ms: Seq<(usize, usize)>) -> bool {
    forall|a: int, b: int|
        #![trigger ms[a], ms[b]]
        0 <= a < b < ms.len() ==> reported_in_order(
            ms[a].1 + pattern_magic(ms[a].0 as int).len(),
            pattern_magic(ms[a].0 as int).len(),
            ms[b].1 + pattern_magic(ms[b].0 as int).len(),
            pattern_magic(ms[b].0 as int).len(),
        )
}

/// The regions come in order of where their magic ends, the longer magic
/// first among those that end together.
pub open spec fn regions_ordered(rs: Seq<DetectedRegion>) -> bool {
    forall|a: int, b: int|
        #![trigger rs[a], rs[b]]
        0 <= a < b < rs.len() ==> regions_in_order(rs[a], rs[b])
}

proof fn lemma_pattern_kind_layout(p: int)
    requires
        0 <= p < num_patterns(),
    ensures
        kind_magic_len(pattern_kind(p)) == pattern_magic(p).len(),
        kind_magic_shift(pattern_kind(p)) == pattern_shift(p),
{
}

/// A region announced by a match ends its magic where the match ends.
proof fn lemma_match_region_end(s: Seq<u8>, m: (usize, usize), r: DetectedRegion)
    requires
        m.0 < num_patterns(),
        match_region(s, m) == Some(r),
    ensures
        magic_end(r) == m.1 + pattern_magic(m.0 as int).len(),
        kind_magic_len(r.signature_type) == pattern_magic(m.0 as int).len(),
{
    lemma_pattern_kind_layout(m.0 as int);
}

proof fn lemma_candidates_ordered(s: Seq<u8>, ms: Seq<(usize, usize)>)
    requires
        forall|k: int| 0 <= k < ms.len() ==> (#[trigger] ms[k]).0 < num_patterns(),
        matches_in_order(ms),
    ensures
        regions_ordered(candidate_regions(s, ms)),
    decreases ms.len(),
{
    if ms.len() > 0 {
        let init = ms.drop_last();
        let n = ms.len() - 1;
        assert forall|k: int| 0 <= k < init.len() implies (#[trigger] init[k]).0 < num_patterns() by {
            assert(init[k] == ms[k]);
        }
        assert forall|a: int, b: int| #![trigger init[a], init[b]] 0 <= a < b < init.len() implies reported_in_order(
            init[a].1 + pattern_magic(init[a].0 as int).len(),
            pattern_magic(init[a].0 as int).len(),
            init[b].1 + pattern_magic(init[b].0 as int).len(),
            pattern_magic(init[b].0 as int).len(),
        ) by {
            assert(init[a] == ms[a] && init[b] == ms[b]);
        }
        lemma_candidates_ordered(s, init);
        let rest = candidate_regions(s, init);
        if let Some(r) = match_region(s, ms[n]) {
            let c = candidate_regions(s, ms);
            assert forall|a: int, b: int| #![trigger c[a], c[b]] 0 <= a < b < c.len() implies regions_in_order(
                c[a],
                c[b],
            ) by {
                if b == c.len() - 1 {
                    assert(c[a] == rest[a]);
                    assert(rest.contains(c[a]));
                    lemma_candidate_member(s, init, c[a]);
                    let k = choose|k: int| 0 <= k < init.len() && #[trigger] match_region(s, init[k]) == Some(c[a]);
                    assert(init[k] == ms[k]);
                    lemma_match_region_end(s, ms[k], c[a]);
                    lemma_match_region_end(s, ms[n], r);
                    assert(reported_in_order(
                        ms[k].1 + pattern_magic(ms[k].0 as int).len(),
                        pattern_magic(ms[k].0 as int).len(),
                        ms[n].1 + pattern_magic(ms[n].0 as int).len(),
                        pattern_magic(ms[n].0 as int).len(),
                    ));
                } else {
                    assert(c[a] == rest[a] && c[b] == rest[b]);
                }
            }
        }
    }
}

proof fn lemma_dedup_ordered(rs: Seq<DetectedRegion>)
    requires
        regions_ordered(rs),
    ensures
        regions_ordered(dedup_adjacent(rs)),
    decreases rs.len(),
{
    if rs.len() > 0 {
        let init = rs.drop_last();
        let n = rs.len() - 1;
        assert forall|a: int, b: int| #![trigger init[a], init[b]] 0 <= a < b < init.len() implies regions_in_order(
            init[a],
            init[b],
        ) by {
            assert(init[a] == rs[a] && init[b] == rs[b]);
        }
        lemma_dedup_ordered(init);
        let d = dedup_adjacent(init);
        let dd = dedup_adjacent(rs);
        assert forall|a: int, b: int| #![trigger dd[a], dd[b]] 0 <= a < b < dd.len() implies regions_in_order(
            dd[a],
            dd[b],
        ) by {
            if b < d.len() {
                assert(dd[a] == d[a] && dd[b] == d[b]);
            } else {
                assert(dd[a] == d[a]);
                assert(d.contains(d[a]));
                lemma_dedup_member(init, d[a]);
                let i = choose|i: int| 0 <= i < init.len() && init[i] == d[a];
                assert(init[i] == rs[i]);
                assert(dd[b] == rs[n]);
                assert(regions_in_order(rs[i], rs[n]));
            }
        }
    }
}

/// When the matches come in the search's order, the detected regions come
/// in order of where their magic ends, the longer magic first among those
/// that end together.
pub proof fn lemma_detected_regions_ordered(s: Seq<u8>, ms: Seq<(usize, usize)>)
    requires
        forall|k: int| 0 <= k < ms.len() ==> (#[trigger] ms[k]).0 < num_patterns(),
        matches_in_order(ms),
    ensures
        regions_ordered(detected_regions(s, ms)),
{
    lemma_candidates_ordered(s, ms);
    lemma_dedup_ordered(candidate_regions(s, ms));
}

/// Scans a firmware image for filesystem and compression signatures.
///
/// The regions are those that the overlapping matches of the search
/// patterns announce; every one of them is genuine, every genuine region of
/// the image is among them, none is reported twice, and they come in order
/// of where their magic ends, the longer magic first among those that end
/// together.
pub fn scan_bytes(mmap: &[u8]) -> (regions: Vec<DetectedRegion>)
    ensures
        regions@ == detected_regions(mmap@, overlapping_matches(pattern_table(), mmap@)),
        forall|j: int| 0 <= j < regions.len() ==> genuine_region(mmap@, #[trigger] regions[j]),
        forall|r: DetectedRegion| #[trigger] genuine_region(mmap@, r) ==> regions@.contains(r),
        forall|a: int, b: int| 0 <= a < b < regions.len() ==> #[trigger] regions[a] != #[trigger] regions[b],
        regions_ordered(regions@),
        forall|j: int|
            0 <= j < regions.len() ==> format_magic_at(
                mmap@,
                (#[trigger] regions[j]).offset as int,
                regions[j].signature_type,
            ),
        forall|j: int|
            0 <= j < regions.len() && (#[trigger] regions[j]).signature_type == SignatureKind::Ext ==> {
                &&& regions[j].offset + 0x400 + 1024 <= mmap.len()
                &&& le_u32(mmap@, regions[j].offset + 0x400) != 0
                &&& le_u32(mmap@, regions[j].offset + 0x404) != 0
            },
        forall|j: int|
            0 <= j < regions.len() && (#[trigger] regions[j]).signature_type == SignatureKind::Squashfs
                ==> squashfs_header_valid(mmap@, regions[j].offset as int),
        forall|j: int|
            0 <= j < regions.len() && (#[trigger] regions[j]).signature_type == SignatureKind::Jffs2
                ==> jffs2_header_valid(mmap@, regions[j].offset as int),
        forall|r: DetectedRegion|
            #[trigger] format_magic_at(mmap@, r.offset as int, r.signature_type) && (r.signature_type
                == SignatureKind::Squashfs ==> squashfs_header_valid(mmap@, r.offset as int)) && (
            r.signature_type == SignatureKind::Jffs2 ==> jffs2_header_valid(mmap@, r.offset as int))
                && (r.signature_type == SignatureKind::Ext ==> {
                &&& r.offset + 0x400 + 1024 <= mmap.len()
                &&& le_u32(mmap@, r.offset + 0x400) != 0
                &&& le_u32(mmap@, r.offset + 0x404) != 0
            }) ==> regions@.contains(r),
{
    let patterns = search_patterns();
    proof {
        assert(patterns.deep_view().len() == patterns.len());
        assert forall|i: int| 0 <= i < patterns.len() implies (#[trigger] patterns[i]).len() <= 256 by {
            assert(patterns.deep_view().len() == patterns.len());
            assert(patterns.deep_view()[i] == patterns[i]@);
            assert(pattern_table()[i] == pattern_magic(i));
            assert(pattern_magic(i).len() <= 6);
        }
    }
    match build_searcher(&patterns) {
        Ok(searcher) => {
            let matches = find_overlapping(&searcher, mmap);
            proof {
                let pats = searcher_patterns(searcher);
                assert(pats == pattern_table());
                assert forall|k: int| 0 <= k < matches.len() implies (#[trigger] matches@[k]).0
                    < num_patterns() && occurs_at(
                    mmap@,
                    pattern_magic(matches@[k].0 as int),
                    matches@[k].1 as int,
                ) by {
                    assert(matches@[k] == matches[k]);
                }
                lemma_detected_regions_sound(mmap@, matches@);
                assert forall|p: int, i: int|
                    0 <= p < num_patterns() && #[trigger] occurs_at(mmap@, pattern_magic(p), i)
                        implies matches@.contains((p as usize, i as usize)) by {
                    assert(pats[p] == pattern_magic(p));
                    assert(occurs_at(mmap@, pats[p], i));
                }
                assert(mmap@.len() == mmap.len());
                lemma_detected_regions_complete(mmap@, matches@);
                assert forall|a: int, b: int| 0 <= a < b < matches@.len() implies #[trigger] matches@[a]
                    != #[trigger] matches@[b] by {
                    assert(matches@[a] == matches[a] && matches@[b] == matches[b]);
                }
                lemma_detected_regions_distinct(mmap@, matches@);
                assert forall|a: int, b: int|
                    #![trigger matches@[a], matches@[b]]
                    0 <= a < b < matches@.len() implies reported_in_order(
                    matches@[a].1 + pattern_magic(matches@[a].0 as int).len(),
                    pattern_magic(matches@[a].0 as int).len(),
                    matches@[b].1 + pattern_magic(matches@[b].0 as int).len(),
                    pattern_magic(matches@[b].0 as int).len(),
                ) by {
                    assert(matches@[a] == matches[a] && matches@[b] == matches[b]);
                    assert(pats[matches[a].0 as int] == pattern_magic(matches[a].0 as int));
                    assert(pats[matches[b].0 as int] == pattern_magic(matches[b].0 as int));
                }
                lemma_detected_regions_ordered(mmap@, matches@);
            }
            let regions = regions_from_matches(mmap, &matches);
            proof {
                assert forall|j: int| 0 <= j < regions.len() implies format_magic_at(
                    mmap@,
                    (#[trigger] regions[j]).offset as int,
                    regions[j].signature_type,
                ) by {
                    assert(genuine_region(mmap@, regions[j]));
                    lemma_magic_found_is_format_magic(mmap@, regions[j]);
                }
                assert forall|r: DetectedRegion|
                    #[trigger] format_magic_at(mmap@, r.offset as int, r.signature_type) && (
                    r.signature_type == SignatureKind::Squashfs ==> squashfs_header_valid(
                        mmap@,
                        r.offset as int,
                    )) && (r.signature_type == SignatureKind::Jffs2 ==> jffs2_header_valid(
                        mmap@,
                        r.offset as int,
                    )) && (r.signature_type == SignatureKind::Ext ==> {
                        &&& r.offset + 0x400 + 1024 <= mmap.len()
                        &&& le_u32(mmap@, r.offset + 0x400) != 0
                        &&& le_u32(mmap@, r.offset + 0x404) != 0
                    }) implies regions@.contains(r) by {
                    lemma_magic_found_is_format_magic(mmap@, r);
                    assert(genuine_region(mmap@, r));
                }
            }
            regions
        },
        Err(_) => Vec::new(),
    }
}

} // verus!
