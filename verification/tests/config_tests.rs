use immutability::config::parse_paths_to_keep;
use immutability::config::parse_subvolume_pairs;
use immutability::config::Args;
use immutability::config::ConfigError;
use immutability::config::SubvolumePair;

fn assert_error_contains<T, E: std::fmt::Display>(result: Result<T, E>, expected_message: &str) {
    match result {
        Ok(_) => panic!("Expected error but got Ok result"),
        Err(e) => {
            let error_str = e.to_string();
            assert!(
                error_str.contains(expected_message),
                "Error '{}' does not contain '{}'",
                error_str,
                expected_message
            );
        }
    }
}

fn assert_vec_contains_all<T: PartialEq + std::fmt::Debug>(vec: &[T], expected: &[T]) {
    for item in expected {
        assert!(vec.contains(item), "Vector {:?} does not contain {:?}", vec, item);
    }
}

fn assert_vec_equivalent<T: PartialEq + std::fmt::Debug>(actual: &[T], expected: &[T]) {
    assert_eq!(
        actual.len(),
        expected.len(),
        "Vectors have different lengths: actual={:?}, expected={:?}",
        actual,
        expected
    );
    assert_vec_contains_all(actual, expected);
    assert_vec_contains_all(expected, actual);
}

fn mock_subvolume_paths() -> Vec<(String, String)> {
    vec![
        ("@".to_string(), "/".to_string()),
        ("@home".to_string(), "/home".to_string()),
        ("@var".to_string(), "/var".to_string()),
        ("@tmp".to_string(), "/tmp".to_string()),
    ]
}

fn mock_paths_to_keep() -> Vec<String> {
    vec![
        "/etc/ssh".to_string(),
        "/etc/sops".to_string(),
        "/var/log".to_string(),
        "/var/lib/nixos".to_string(),
        "/home/user/.config".to_string(),
    ]
}

fn mock_device_path() -> String {
    "/dev/mock-device".to_string()
}

fn mock_mount_point() -> String {
    "/tmp/mock-btrfs-mount".to_string()
}

fn config_message<T>(result: Result<T, ConfigError>) -> Result<T, String> {
    result.map_err(|e| e.message())
}

#[test]
fn test_parse_subvolume_pairs_valid() {
    let pairs_str = "@=/ @home=/home @var=/var";
    let result = parse_subvolume_pairs(pairs_str).unwrap();

    assert_eq!(result.len(), 3);
    assert_eq!(result[0].name, "@");
    assert_eq!(result[0].mount_point, String::from("/"));
    assert_eq!(result[1].name, "@home");
    assert_eq!(result[1].mount_point, String::from("/home"));
    assert_eq!(result[2].name, "@var");
    assert_eq!(result[2].mount_point, String::from("/var"));
}

#[test]
fn test_parse_subvolume_pairs_single() {
    let pairs_str = "@=/";
    let result = parse_subvolume_pairs(pairs_str).unwrap();

    assert_eq!(result.len(), 1);
    assert_eq!(result[0].name, "@");
    assert_eq!(result[0].mount_point, String::from("/"));
}

#[test]
fn test_parse_subvolume_pairs_with_complex_names() {
    let pairs_str = "@my-vol=/mnt/my-vol";
    let result = parse_subvolume_pairs(pairs_str).unwrap();

    assert_eq!(result.len(), 1);
    assert_eq!(result[0].name, "@my-vol");
    assert_eq!(result[0].mount_point, String::from("/mnt/my-vol"));
}

#[test]
fn test_parse_subvolume_pairs_invalid_format() {
    let pairs_str = "invalid_no_equals";
    let result = parse_subvolume_pairs(pairs_str);

    assert!(result.is_err());
    assert!(result.unwrap_err().message().contains("Invalid subvolume pair format"));
}

#[test]
fn test_parse_subvolume_pairs_empty() {
    let pairs_str = "";
    let result = parse_subvolume_pairs(pairs_str);

    assert!(result.is_err());
    assert!(result.unwrap_err().message().contains("No subvolume pairs specified"));
}

#[test]
fn test_parse_subvolume_pairs_whitespace_only() {
    let pairs_str = "   \t\n  ";
    let result = parse_subvolume_pairs(pairs_str);

    assert!(result.is_err());
    assert!(result.unwrap_err().message().contains("No subvolume pairs specified"));
}

#[test]
fn test_parse_subvolume_pairs_mixed_valid_invalid() {
    let pairs_str = "@=/ invalid_format @home=/home";
    let result = parse_subvolume_pairs(pairs_str);

    assert!(result.is_err());
    assert!(result.unwrap_err().message().contains("Invalid subvolume pair format"));
}

#[test]
fn test_parse_paths_to_keep_multiple() {
    let paths_str = "/etc/ssh /etc/sops /var/log /var/lib/nixos";
    let result = parse_paths_to_keep(paths_str);

    assert_eq!(result.len(), 4);
    assert_eq!(result[0], "/etc/ssh");
    assert_eq!(result[1], "/etc/sops");
    assert_eq!(result[2], "/var/log");
    assert_eq!(result[3], "/var/lib/nixos");
}

#[test]
fn test_parse_paths_to_keep_single() {
    let paths_str = "/etc/ssh";
    let result = parse_paths_to_keep(paths_str);

    assert_eq!(result.len(), 1);
    assert_eq!(result[0], "/etc/ssh");
}

#[test]
fn test_parse_paths_to_keep_empty() {
    let paths_str = "";
    let result = parse_paths_to_keep(paths_str);

    assert_eq!(result.len(), 0);
}

#[test]
fn test_parse_paths_to_keep_whitespace() {
    let paths_str = "  /etc/ssh   /var/log  ";
    let result = parse_paths_to_keep(paths_str);

    assert_eq!(result.len(), 2);
    assert_eq!(result[0], "/etc/ssh");
    assert_eq!(result[1], "/var/log");
}

#[test]
fn test_parse_paths_to_keep_with_empty_entries() {
    let paths_str = "/etc/ssh  /var/log";
    let result = parse_paths_to_keep(paths_str);

    // Empty entries should be filtered out
    assert_eq!(result.len(), 2);
    assert_eq!(result[0], "/etc/ssh");
    assert_eq!(result[1], "/var/log");
}

#[test]
fn test_subvolume_pair_debug() {
    let pair = SubvolumePair { name: "@test".to_string(), mount_point: String::from("/test") };

    let debug_str = format!("{:?}", pair);
    assert!(debug_str.contains("@test"));
    assert!(debug_str.contains("/test"));
}

#[test]
fn test_subvolume_pair_clone() {
    let pair = SubvolumePair { name: "@original".to_string(), mount_point: String::from("/original") };

    let cloned = pair.clone();
    assert_eq!(cloned.name, pair.name);
    assert_eq!(cloned.mount_point, pair.mount_point);
}

#[test]
fn test_args_debug() {
    let args = Args {
        device: "/dev/test".to_string(),
        snapshots_subvolume: "@snapshots".to_string(),
        subvolume_pairs: "@=/".to_string(),
        paths_to_keep: "/etc/ssh".to_string(),
    };

    let debug_str = format!("{:?}", args);
    assert!(debug_str.contains("/dev/test"));
    assert!(debug_str.contains("@snapshots"));
}

#[test]
fn test_parse_subvolume_pairs_multiple_invalid() {
    let test_cases = vec![
        "no_equals_sign",
        "missing_mount=",
        "@valid=/ invalid_format @another=/path",
    ];

    for case in test_cases {
        let result = parse_subvolume_pairs(case);
        assert!(result.is_err(), "Expected error for case: {}", case);
    }
}

#[test]
fn test_parse_subvolume_pairs_edge_cases() {
    // Test various edge cases
    assert!(parse_subvolume_pairs("=").is_err());
    assert!(parse_subvolume_pairs("==").is_err());
    assert!(parse_subvolume_pairs("a=").is_err());
    assert!(parse_subvolume_pairs("=b").is_err());
}

#[test]
fn test_parse_subvolume_pairs_empty_parts() {
    // Test cases with empty name or mount point
    assert!(parse_subvolume_pairs("=missing_name").is_err());
    assert!(parse_subvolume_pairs("missing_mount=").is_err());
}

#[test]
fn test_args_creation() {
    let args = Args {
        device: "/dev/sda1".to_string(),
        snapshots_subvolume: "@snapshots".to_string(),
        subvolume_pairs: "@=/ @home=/home".to_string(),
        paths_to_keep: "/etc/ssh /var/log".to_string(),
    };

    assert_eq!(args.device, "/dev/sda1");
    assert_eq!(args.snapshots_subvolume, "@snapshots");
    assert_eq!(args.subvolume_pairs, "@=/ @home=/home");
    assert_eq!(args.paths_to_keep, "/etc/ssh /var/log");
}

#[test]
fn test_parse_subvolume_pairs_with_mock_data() {
    let mock_pairs = mock_subvolume_paths();
    let pairs_str = mock_pairs
        .iter()
        .map(|(name, path)| format!("{}={}", name, path))
        .collect::<Vec<_>>()
        .join(" ");

    let result = parse_subvolume_pairs(&pairs_str).unwrap();

    assert_eq!(result.len(), mock_pairs.len());
    for (i, (expected_name, expected_path)) in mock_pairs.iter().enumerate() {
        assert_eq!(result[i].name, *expected_name);
        assert_eq!(result[i].mount_point, *expected_path);
    }
}

#[test]
fn test_parse_paths_to_keep_with_mock_data() {
    let mock_paths = mock_paths_to_keep();
    let paths_str = mock_paths.join(" ");

    let result = parse_paths_to_keep(&paths_str);

    assert_vec_equivalent(&result, &mock_paths);
}

#[test]
fn test_error_handling_with_invalid_mock_data() {
    // Test with intentionally broken data
    let invalid_pairs = "@=/ broken_format @home=/home";
    assert_error_contains(
        config_message(parse_subvolume_pairs(invalid_pairs)),
        "Invalid subvolume pair format",
    );

    let empty_pairs = "";
    assert_error_contains(
        config_message(parse_subvolume_pairs(empty_pairs)),
        "No subvolume pairs specified",
    );
}

#[test]
fn test_mock_device_and_mount_point_paths() {
    let device = mock_device_path();
    let mount = mock_mount_point();

    assert!(device.contains("/dev/"));
    assert!(mount.contains("/tmp/"));

    // These paths should be safe mock paths that don't exist
    assert!(!std::path::Path::new(&device).exists());
}

#[test]
fn test_subvolume_pair_creation_with_mock_data() {
    let mock_pairs = mock_subvolume_paths();

    for (name, path) in mock_pairs {
        let pair = SubvolumePair { name: name.clone(), mount_point: path.clone() };

        assert_eq!(pair.name, name);
        assert_eq!(pair.mount_point, path);
    }
}

#[test]
fn test_complex_parsing_scenarios() {
    // Test with realistic data from the actual system
    let complex_pairs = "@=/ @home=/home @var=/var @nix=/nix @snapshots=/snapshots";
    let result = parse_subvolume_pairs(complex_pairs).unwrap();

    assert_eq!(result.len(), 5);
    assert_eq!(result[0].name, "@");
    assert_eq!(result[0].mount_point, String::from("/"));
    assert_eq!(result[1].name, "@home");
    assert_eq!(result[1].mount_point, String::from("/home"));
    assert_eq!(result[4].name, "@snapshots");
    assert_eq!(result[4].mount_point, String::from("/snapshots"));

    // Test with complex paths to keep
    let complex_paths = "/etc/ssh /etc/sops /var/log /var/lib/nixos /var/lib/systemd/random-seed /home/user/.config /home/user/.ssh";
    let paths_result = parse_paths_to_keep(complex_paths);

    assert_eq!(paths_result.len(), 7);
    assert!(paths_result.contains(&"/etc/ssh".to_string()));
    assert!(paths_result.contains(&"/home/user/.config".to_string()));
    assert!(paths_result.contains(&"/var/lib/systemd/random-seed".to_string()));
}
