//! The integer side of root-filesystem scoring.
//!
//! A candidate directory scores 2 per key directory present, 3 per critical
//! file present, and the natural logarithm of one plus its executable count.
//! The logarithm is floating point and stays outside this library; what is
//! decided here is the pre-filter, which is made before executables are
//! counted.

use vstd::prelude::*;

verus! {

/// Directories whose presence marks a Linux root filesystem, in sorted order.
pub const KEY_DIRS: [&'static str; 5] = ["bin", "etc", "lib", "usr", "var"];

/// Files whose presence marks a Linux root filesystem.
pub const CRITICAL_FILES: [&'static str; 2] = ["bin/sh", "etc/passwd"];

/// Whether a directory with these counts can still reach the shard minimum
/// of 3.0, and so must have its executables counted. The executable term,
/// the logarithm of one plus the count, grows without bound, so every
/// directory can still reach it, whatever its key directories and critical
/// files: none is dropped before its executables are counted.
pub fn can_reach_shard_score(key_dir_count: usize, critical_file_count: usize) -> (passes: bool)
    ensures
        passes,
{
    true
}

} // verus!
