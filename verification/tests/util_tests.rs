use immutability::subvol::BtrfsManager;
use immutability::subvol::SubvolumeInfo;

/// Listing output shaped like the real tooling's, for parser tests.
fn mock_btrfs_list_output() -> String {
    r#"ID 256 gen 85 top level 5 path @
ID 257 gen 84 top level 5 path @home
ID 258 gen 83 top level 5 path @nix
ID 259 gen 12 top level 5 path @snapshots
ID 260 gen 82 top level 257 path @home/.snapshots
ID 261 gen 82 top level 256 path @/srv
ID 262 gen 82 top level 256 path @/var/lib/portables
ID 263 gen 82 top level 256 path @/var/lib/machines
ID 264 gen 83 top level 256 path @/tmp
ID 265 gen 82 top level 256 path @/var/tmp"#
        .to_string()
}

fn expected_subvolume_infos() -> Vec<SubvolumeInfo> {
    vec![
        SubvolumeInfo { id: 256, path: "@".to_string() },
        SubvolumeInfo { id: 257, path: "@home".to_string() },
        SubvolumeInfo { id: 258, path: "@nix".to_string() },
        SubvolumeInfo { id: 259, path: "@snapshots".to_string() },
        SubvolumeInfo { id: 260, path: "@home/.snapshots".to_string() },
        SubvolumeInfo { id: 261, path: "@/srv".to_string() },
        SubvolumeInfo { id: 262, path: "@/var/lib/portables".to_string() },
        SubvolumeInfo { id: 263, path: "@/var/lib/machines".to_string() },
        SubvolumeInfo { id: 264, path: "@/tmp".to_string() },
        SubvolumeInfo { id: 265, path: "@/var/tmp".to_string() },
    ]
}

fn mock_subvolume_path_pairs() -> Vec<(String, String)> {
    vec![
        ("@".to_string(), "/".to_string()),
        ("@home".to_string(), "/home".to_string()),
        ("@var".to_string(), "/var".to_string()),
        ("@tmp".to_string(), "/tmp".to_string()),
    ]
}

fn mock_keep_paths() -> Vec<String> {
    vec![
        "/etc/ssh".to_string(),
        "/etc/sops".to_string(),
        "/var/log".to_string(),
        "/var/lib/nixos".to_string(),
        "/home/user/.config".to_string(),
    ]
}

fn mock_device() -> String {
    "/dev/mock-device".to_string()
}

fn mock_mount() -> String {
    "/tmp/mock-btrfs-mount".to_string()
}

fn assert_path_contains<P: AsRef<std::path::Path>>(path: P, expected: &str) {
    let path_str = path.as_ref().to_string_lossy();
    assert!(
        path_str.contains(expected),
        "Path '{}' does not contain '{}'",
        path_str,
        expected
    );
}

fn assert_error_contains<T, E: std::fmt::Display>(result: Result<T, E>, expected_message: &str) {
    match result {
        Ok(_) => panic!("Expected error but got Ok result"),
        Err(e) => {
            let error_str = e.to_string();
            assert!(
                error_str.contains(expected_message),
                "Error '{}' does not contain '{}'",
                error_str,
                expected_message
            );
        }
    }
}

fn assert_vec_contains_all<T: PartialEq + std::fmt::Debug>(vec: &[T], expected: &[T]) {
    for item in expected {
        assert!(vec.contains(item), "Vector {:?} does not contain {:?}", vec, item);
    }
}

fn assert_vec_equivalent<T: PartialEq + std::fmt::Debug>(actual: &[T], expected: &[T]) {
    assert_eq!(
        actual.len(),
        expected.len(),
        "Vectors have different lengths: actual={:?}, expected={:?}",
        actual,
        expected
    );
    assert_vec_contains_all(actual, expected);
    assert_vec_contains_all(expected, actual);
}

#[test]
fn test_mock_btrfs_output_is_valid() {
    let output = mock_btrfs_list_output();
    assert!(output.contains("ID 256"));
    assert!(output.contains("path @"));
    assert!(output.contains("@home"));
}

#[test]
fn test_expected_subvolume_infos() {
    let infos = expected_subvolume_infos();
    assert_eq!(infos.len(), 10);
    assert_eq!(infos[0].id, 256);
    assert_eq!(infos[0].path, "@");
}

#[test]
fn test_mock_subvolume_paths() {
    let paths = mock_subvolume_path_pairs();
    assert_eq!(paths.len(), 4);
    assert_eq!(paths[0].0, "@");
    assert_eq!(paths[0].1, "/".to_string());
    assert_eq!(paths[1].0, "@home");
    assert_eq!(paths[1].1, "/home".to_string());
}

#[test]
fn test_mock_paths_to_keep() {
    let paths = mock_keep_paths();
    assert_eq!(paths.len(), 5);
    assert!(paths.contains(&"/etc/ssh".to_string()));
    assert!(paths.contains(&"/home/user/.config".to_string()));
}

#[test]
fn test_mock_device_and_mount_paths() {
    let device = mock_device();
    let mount = mock_mount();

    assert_eq!(device, "/dev/mock-device");
    assert_eq!(mount, "/tmp/mock-btrfs-mount".to_string());
}

#[test]
fn test_assert_path_contains() {
    let path = "/home/user/.config".to_string();
    assert_path_contains(&path, "user");
    assert_path_contains(&path, ".config");
}

#[test]
#[should_panic]
fn test_assert_path_contains_fail() {
    let path = "/home/user".to_string();
    assert_path_contains(&path, "nonexistent");
}

#[test]
fn test_assert_error_contains() {
    let result: Result<(), String> = Err("Invalid format".to_string());
    assert_error_contains(result, "Invalid");
}

#[test]
#[should_panic]
fn test_assert_error_contains_with_ok() {
    let result: Result<i32, String> = Ok(42);
    assert_error_contains(result, "Invalid");
}

#[test]
fn test_assert_vec_contains_all() {
    let vec = vec![1, 2, 3, 4];
    let expected = vec![2, 4];
    assert_vec_contains_all(&vec, &expected);
}

#[test]
fn test_assert_vec_equivalent() {
    let vec1 = vec![1, 2, 3];
    let vec2 = vec![3, 1, 2];
    assert_vec_equivalent(&vec1, &vec2);
}

#[test]
fn test_mock_listing_parses_to_expected_infos() {
    let manager = BtrfsManager::new("/dev/fake", "/tmp/mock-btrfs-mount");
    let parsed = manager.parse_subvolume_listing(&mock_btrfs_list_output());
    let expected = expected_subvolume_infos();

    assert_eq!(parsed.len(), expected.len());
    for (p, e) in parsed.iter().zip(expected.iter()) {
        assert_eq!(p.id, e.id);
        assert_eq!(p.path, e.path);
    }
}
