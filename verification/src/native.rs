//! Planning the native extractor's work: which detected regions are carved
//! out of the image and which tool unpacks each of them.

use vstd::prelude::*;

use crate::scanner::DetectedRegion;
use crate::signatures::SignatureKind;

verus! {

/// The extractor that carves detected regions out of the image itself and
/// hands each to a format-specific tool.
pub struct NativeExtractor;

/// The outside tool that unpacks a carved region.
#[derive(Clone, Copy, Debug, PartialEq, Eq, Structural)]
pub enum ExtractTool {
    /// `unsquashfs -f -d <dir> <carved>`
    Unsquashfs,
    /// `jefferson -d <dir> <carved>`
    Jefferson,
    /// `cpio -idm` run in `<dir>`, reading the carved bytes on stdin
    Cpio,
    /// `tar -xzf <carved> -C <dir>`
    TarGzip,
    /// `tar -xJf <carved> -C <dir>`
    TarXz,
}

/// The tool for each kind the native extractor handles.
pub open spec fn tool_for(kind: SignatureKind) -> Option<ExtractTool> {
    match kind {
        SignatureKind::Squashfs => Some(ExtractTool::Unsquashfs),
        SignatureKind::Jffs2 => Some(ExtractTool::Jefferson),
        SignatureKind::Cpio => Some(ExtractTool::Cpio),
        SignatureKind::Gzip => Some(ExtractTool::TarGzip),
        SignatureKind::Xz => Some(ExtractTool::TarXz),
        _ => None,
    }
}

/// The tool that unpacks regions of `kind`, if the native extractor
/// handles that kind.
pub fn extraction_tool(kind: SignatureKind) -> (tool: Option<ExtractTool>)
    ensures
        tool == tool_for(kind),
        kind == SignatureKind::Squashfs <==> tool == Some(ExtractTool::Unsquashfs),
        kind == SignatureKind::Jffs2 <==> tool == Some(ExtractTool::Jefferson),
        kind == SignatureKind::Cpio <==> tool == Some(ExtractTool::Cpio),
        kind == SignatureKind::Gzip <==> tool == Some(ExtractTool::TarGzip),
        kind == SignatureKind::Xz <==> tool == Some(ExtractTool::TarXz),
{
    match kind {
        SignatureKind::Squashfs => Some(ExtractTool::Unsquashfs),
        SignatureKind::Jffs2 => Some(ExtractTool::Jefferson),
        SignatureKind::Cpio => Some(ExtractTool::Cpio),
        SignatureKind::Gzip => Some(ExtractTool::TarGzip),
        SignatureKind::Xz => Some(ExtractTool::TarXz),
        _ => None,
    }
}

/// One region to carve: its output directory is made and the bytes from
/// `offset` to the end of the image are written out; then `tool`, if any,
/// unpacks them, and the carved file is removed.
#[derive(Clone, Copy, Debug, PartialEq, Eq, Structural)]
pub struct CarveJob {
    pub offset: usize,
    pub signature_type: SignatureKind,
    pub tool: Option<ExtractTool>,
}

/// The jobs for `regions` in an image of `image_len` bytes: one for each
/// region that starts inside the image, in order.
pub open spec fn carve_jobs(regions: Seq<DetectedRegion>, image_len: int) -> Seq<CarveJob>
    decreases regions.len(),
{
    if regions.len() == 0 {
        Seq::empty()
    } else {
        let rest = carve_jobs(regions.drop_last(), image_len);
        let r = regions.last();
        if r.offset < image_len {
            rest.push(
                CarveJob {
                    offset: r.offset as usize,
                    signature_type: r.signature_type,
                    tool: tool_for(r.signature_type),
                },
            )
        } else {
            rest
        }
    }
}

impl NativeExtractor {
    /// The name under which this extractor's results are reported.
    pub fn name(&self) -> (name: &'static str)
        ensures
            name@ == "native"@,
    {
        "native"
    }

    /// The carving work for `regions` found in an image of `image_len`
    /// bytes: regions that start at or past the end of the image are
    /// skipped.
    pub fn plan(&self, regions: &Vec<DetectedRegion>, image_len: usize) -> (jobs: Vec<CarveJob>)
        ensures
            jobs@ == carve_jobs(regions@, image_len as int),
    {
        let mut jobs: Vec<CarveJob> = Vec::new();
        for k in 0..regions.len()
            invariant
                jobs@ == carve_jobs(regions@.take(k as int), image_len as int),
        {
            let region = regions[k];
            proof {
                assert(regions@.take(k + 1).drop_last() =~= regions@.take(k as int));
            }
            if region.offset < image_len as u64 {
                let offset = region.offset as usize;
                jobs.push(
                    CarveJob {
                        offset,
                        signature_type: region.signature_type,
                        tool: extraction_tool(region.signature_type),
                    },
                );
            }
        }
        assert(regions@.take(regions.len() as int) =~= regions@);
        jobs
    }
}

/// Every carve job starts inside the image.
pub proof fn lemma_carve_jobs_in_image(regions: Seq<DetectedRegion>, image_len: int)
    ensures
        forall|j: int|
            0 <= j < carve_jobs(regions, image_len).len() ==> #[trigger] carve_jobs(
                regions,
                image_len,
            )[j].offset < image_len,
    decreases regions.len(),
{
    if regions.len() > 0 {
        lemma_carve_jobs_in_image(regions.drop_last(), image_len);
    }
}

/// Planning never makes more jobs than there are regions, and a region
/// that starts inside the image always gets its job.
pub proof fn lemma_carve_jobs_cover_regions(regions: Seq<DetectedRegion>, image_len: int)
    ensures
        carve_jobs(regions, image_len).len() <= regions.len(),
        (forall|j: int| 0 <= j < regions.len() ==> (#[trigger] regions[j]).offset < image_len)
            ==> carve_jobs(regions, image_len).len() == regions.len(),
    decreases regions.len(),
{
    if regions.len() > 0 {
        let init = regions.drop_last();
        lemma_carve_jobs_cover_regions(init, image_len);
        if forall|j: int| 0 <= j < regions.len() ==> (#[trigger] regions[j]).offset < image_len {
            assert forall|j: int| 0 <= j < init.len() implies (#[trigger] init[j]).offset < image_len by {
                assert(init[j] == regions[j]);
            }
            assert(regions[regions.len() - 1].offset < image_len);
        }
    }
}

} // verus!
