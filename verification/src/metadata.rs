//! Metadata stored with each output archive.

use vstd::prelude::*;

verus! {

/// Output archive metadata that is appended to the tar, inside the gzip.
pub struct Metadata {
    pub input_hash: String,
    pub file: String,
    pub fw2tar_command: Vec<String>,
}

} // verus!
