use fw2tar::naming::{devices_log_name, firmware_metadata_name, rootfs_archive_name};

#[test]
fn output_names_append_their_suffix() {
    assert_eq!(rootfs_archive_name("firmware"), "firmware.rootfs.tar.gz");
    assert_eq!(rootfs_archive_name("fw.v1.2"), "fw.v1.2.rootfs.tar.gz");
    assert_eq!(devices_log_name("fw.v1.2"), "fw.v1.2.devices.log");
    assert_eq!(firmware_metadata_name("image"), "image.fw2tar-meta.json");
    assert_eq!(rootfs_archive_name(""), ".rootfs.tar.gz");
}
