use immutability::persist::FileInfo;
use immutability::persist::FileMetadata;
use immutability::persist::FileOperations;

fn create_test_file_ops() -> FileOperations {
    FileOperations::new()
}

#[test]
fn test_new_file_operations() {
    let ops = create_test_file_ops();
    let (files, dirs, bytes) = ops.get_stats();
    assert_eq!(files, 0);
    assert_eq!(dirs, 0);
    assert_eq!(bytes, 0);
}

#[test]
fn test_path_belongs_to_subvolume_root() {
    let ops = create_test_file_ops();
    let root_mount = "/";

    // Root subvolume should handle non-home paths
    assert!(ops.path_belongs_to_subvolume("/etc/ssh", root_mount));
    assert!(ops.path_belongs_to_subvolume("/var/log", root_mount));

    // Root subvolume should NOT handle home paths
    assert!(!ops.path_belongs_to_subvolume("/home/user", root_mount));
    assert!(!ops.path_belongs_to_subvolume("/home/user/file.txt", root_mount));
}

#[test]
fn test_path_belongs_to_subvolume_home() {
    let ops = create_test_file_ops();
    let home_mount = "/home";

    // Home subvolume should handle home paths
    assert!(ops.path_belongs_to_subvolume("/home/user", home_mount));
    assert!(ops.path_belongs_to_subvolume("/home/user/.config", home_mount));

    // Home subvolume should NOT handle non-home paths
    assert!(!ops.path_belongs_to_subvolume("/etc/ssh", home_mount));
    assert!(!ops.path_belongs_to_subvolume("/var/log", home_mount));
}

#[test]
fn test_path_belongs_to_subvolume_exact_match() {
    let ops = create_test_file_ops();
    let mount = "/var";

    // Should match exact path
    assert!(ops.path_belongs_to_subvolume("/var", mount));
    assert!(ops.path_belongs_to_subvolume("/var/", mount));
    assert!(ops.path_belongs_to_subvolume("/var/log", mount));

    // Should not match different paths
    assert!(!ops.path_belongs_to_subvolume("/home", mount));
    assert!(!ops.path_belongs_to_subvolume("/etc", mount));
}

#[test]
fn test_get_stats_initial() {
    let ops = create_test_file_ops();
    let (files, dirs, bytes) = ops.get_stats();

    assert_eq!(files, 0);
    assert_eq!(dirs, 0);
    assert_eq!(bytes, 0);
}

#[test]
fn test_atomic_counters() {
    let mut ops = create_test_file_ops();

    // Test counter increments
    ops.add_copied_files(5);
    ops.add_copied_dirs(3);
    ops.add_total_bytes(1024);

    let (files, dirs, bytes) = ops.get_stats();
    assert_eq!(files, 5);
    assert_eq!(dirs, 3);
    assert_eq!(bytes, 1024);
}

#[test]
fn test_file_info_debug() {
    let info = FileInfo {
        path: String::from("/tmp/test-area/test.txt"),
        is_dir: false,
        metadata: Some(FileMetadata { mode: 0o644, uid: 1000, gid: 1000, size: 42 }),
    };

    let debug_str = format!("{:?}", info);
    assert!(debug_str.contains("test.txt"));
    assert!(debug_str.contains("is_dir: false"));
}

#[test]
fn test_file_metadata_debug() {
    let metadata = FileMetadata { mode: 0o755, uid: 1000, gid: 1000, size: 1024 };

    let debug_str = format!("{:?}", metadata);
    assert!(debug_str.contains("mode: 493")); // 0o755 in decimal
    assert!(debug_str.contains("uid: 1000"));
    assert!(debug_str.contains("size: 1024"));
}

#[test]
fn test_clone_file_info() {
    let file_info = FileInfo { path: String::from("/test/path"), is_dir: true, metadata: None };

    let cloned = file_info.clone();
    assert_eq!(cloned.path, file_info.path);
    assert_eq!(cloned.is_dir, file_info.is_dir);
    assert!(cloned.metadata.is_none());
}

#[test]
fn test_clone_file_metadata() {
    let metadata = FileMetadata { mode: 0o644, uid: 1000, gid: 1000, size: 512 };

    let cloned = metadata.clone();
    assert_eq!(cloned.mode, metadata.mode);
    assert_eq!(cloned.uid, metadata.uid);
    assert_eq!(cloned.gid, metadata.gid);
    assert_eq!(cloned.size, metadata.size);
}
