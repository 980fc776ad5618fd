use immutability::persist::join_path;
use immutability::subvol::BtrfsManager;
use immutability::subvol::SubvolumeInfo;

fn create_test_manager() -> BtrfsManager {
    BtrfsManager::new("/dev/fake", "/tmp/test-area/mount")
}

#[test]
fn test_new_manager() {
    let manager = create_test_manager();
    assert_eq!(manager.device, String::from("/dev/fake"));
    assert!(manager.mount_point.contains("mount"));
}

#[test]
fn test_parse_subvolume_line_valid() {
    let manager = create_test_manager();
    let line = "ID 256 gen 85 top level 5 path @";
    let result = manager.parse_subvolume_line(line);

    assert!(result.is_some());
    let info = result.unwrap();
    assert_eq!(info.id, 256);
    assert_eq!(info.path, "@");
}

#[test]
fn test_parse_subvolume_line_with_spaces() {
    let manager = create_test_manager();
    let line = "ID 257 gen 84 top level 5 path @home with spaces";
    let result = manager.parse_subvolume_line(line);

    assert!(result.is_some());
    let info = result.unwrap();
    assert_eq!(info.id, 257);
    assert_eq!(info.path, "@home with spaces");
}

#[test]
fn test_parse_subvolume_line_invalid() {
    let manager = create_test_manager();
    let line = "invalid line format";
    let result = manager.parse_subvolume_line(line);
    assert!(result.is_none());
}

#[test]
fn test_parse_subvolume_line_missing_id() {
    let manager = create_test_manager();
    let line = "ID abc gen 85 top level 5 path @";
    let result = manager.parse_subvolume_line(line);
    assert!(result.is_none());
}

#[test]
fn test_parse_subvolume_line_short() {
    let manager = create_test_manager();
    let line = "ID 256 gen";
    let result = manager.parse_subvolume_line(line);
    assert!(result.is_none());
}

#[test]
fn test_manager_paths() {
    let device = "/dev/test-device";
    let mount_point = "/tmp/test-mount";
    let manager = BtrfsManager::new(device, mount_point);

    assert_eq!(manager.device, String::from(device));
    assert_eq!(manager.mount_point, String::from(mount_point));
}

#[test]
fn test_mount_subvolume_path_generation() {
    let manager = create_test_manager();
    let subvolume_name = "@home";

    // This test doesn't actually mount, but tests path generation
    let expected_path = join_path(&manager.mount_point, subvolume_name);
    assert!(expected_path.contains("@home"));
}

#[test]
fn test_parse_multiple_subvolume_lines() {
    let manager = create_test_manager();
    let lines = vec![
        "ID 256 gen 85 top level 5 path @",
        "ID 257 gen 84 top level 5 path @home",
        "invalid line",
        "ID 258 gen 83 top level 5 path @snapshots",
    ];

    let mut results = Vec::new();
    for line in lines {
        if let Some(info) = manager.parse_subvolume_line(line) {
            results.push(info);
        }
    }

    assert_eq!(results.len(), 3);
    assert_eq!(results[0].path, "@");
    assert_eq!(results[1].path, "@home");
    assert_eq!(results[2].path, "@snapshots");
}

#[test]
fn test_subvolume_info_debug() {
    let info = SubvolumeInfo { id: 256, path: "@test".to_string() };
    let debug_str = format!("{:?}", info);
    assert!(debug_str.contains("256"));
    assert!(debug_str.contains("@test"));
}

#[test]
fn test_manager_clone_subvolume_info() {
    let info = SubvolumeInfo { id: 256, path: "@test".to_string() };
    let cloned = info.clone();
    assert_eq!(cloned.id, info.id);
    assert_eq!(cloned.path, info.path);
}

#[test]
fn test_parse_edge_cases() {
    let manager = create_test_manager();

    // Test empty line
    assert!(manager.parse_subvolume_line("").is_none());

    // Test line with just ID
    assert!(manager.parse_subvolume_line("ID").is_none());

    // Test line without path keyword
    assert!(manager.parse_subvolume_line("ID 256 gen 85 top level 5").is_none());

    // Test line with path but no actual path value
    assert!(manager.parse_subvolume_line("ID 256 gen 85 top level 5 path").is_none());
}

#[test]
fn test_device_and_mount_point_types() {
    // Test with different ways of supplying the path strings
    let manager1 = BtrfsManager::new("/dev/sda1", "/mnt/test");
    let device2 = String::from("/dev/sda2");
    let mount2 = String::from("/mnt/test2");
    let manager2 = BtrfsManager::new(device2.as_str(), mount2.as_str());
    let manager3 = BtrfsManager::new(&String::from("/dev/sda3"), &String::from("/mnt/test3"));

    assert_eq!(manager1.device, String::from("/dev/sda1"));
    assert_eq!(manager2.device, String::from("/dev/sda2"));
    assert_eq!(manager3.device, String::from("/dev/sda3"));
}
