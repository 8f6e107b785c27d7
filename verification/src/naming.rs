//! Names of the files written next to the output.
//!
//! Each is the output's file name with a fixed suffix appended as text, so
//! that a name with dots in it keeps all of them.

use vstd::prelude::*;
use vstd::string::*;

verus! {

/// The selected root filesystem archive: `<name>.rootfs.tar.gz`.
pub fn rootfs_archive_name(file_name: &str) -> (name: String)
    ensures
        name@ == file_name@ + ".rootfs.tar.gz"@,
{
    String::from_str(file_name).concat(".rootfs.tar.gz")
}

/// The list of device files removed during extraction: `<name>.devices.log`.
pub fn devices_log_name(file_name: &str) -> (name: String)
    ensures
        name@ == file_name@ + ".devices.log"@,
{
    String::from_str(file_name).concat(".devices.log")
}

/// The firmware metadata file: `<name>.fw2tar-meta.json`.
pub fn firmware_metadata_name(file_name: &str) -> (name: String)
    ensures
        name@ == file_name@ + ".fw2tar-meta.json"@,
{
    String::from_str(file_name).concat(".fw2tar-meta.json")
}

} // verus!
