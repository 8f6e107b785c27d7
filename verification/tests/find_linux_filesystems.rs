use fw2tar::filesystems::{can_reach_shard_score, CRITICAL_FILES, KEY_DIRS};

#[test]
fn assert_key_dirs_sorted() {
    assert!(KEY_DIRS.is_sorted());
}

#[test]
fn critical_files_are_under_key_dirs() {
    assert_eq!(CRITICAL_FILES, ["bin/sh", "etc/passwd"]);
}

#[test]
fn prefilter_keeps_directories_that_executables_can_lift_to_a_shard() {
    // One key directory and two executables score about 3.10, a shard.
    assert!(can_reach_shard_score(1, 0));
    assert!(can_reach_shard_score(0, 0));
    assert!(can_reach_shard_score(2, 0));
    assert!(can_reach_shard_score(0, 1));
    assert!(can_reach_shard_score(5, 2));
}
