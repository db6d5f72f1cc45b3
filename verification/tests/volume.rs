use gpscan::get_volume_info;
use gpscan::volume::Volume;

fn volume(mount_point: &str, total_space: u64, available_space: u64) -> Volume {
    Volume { mount_point: mount_point.to_string(), total_space, available_space }
}

#[test]
fn test_get_volume_info_no_disks() {
    let disks = Vec::new();
    let (volume_path, volume_size, free_space) = get_volume_info("/nonexistent", &disks);

    assert_eq!(volume_path, "/");
    assert_eq!(volume_size, 0);
    assert_eq!(free_space, 0);
}

#[test]
fn test_windows_path_canonicalization() {
    let disks = Vec::new();
    let (_volume_path, _volume_size, _free_space) = get_volume_info(r"\\?\C:\test", &disks);
    let _expected = "C:\\test";
}

#[test]
fn the_deepest_mount_point_that_holds_the_path_is_chosen() {
    let disks = vec![
        volume("/", 100, 10),
        volume("/home", 200, 20),
        volume("/home/user", 300, 30),
        volume("/var", 400, 40),
    ];
    assert_eq!(get_volume_info("/home/user/data", &disks), ("/home/user".to_string(), 300, 30));
    assert_eq!(get_volume_info("/home/other", &disks), ("/home".to_string(), 200, 20));
    assert_eq!(get_volume_info("/etc", &disks), ("/".to_string(), 100, 10));
    assert_eq!(get_volume_info("/var", &disks), ("/var".to_string(), 400, 40));
}

#[test]
fn mount_points_are_compared_by_whole_components() {
    let disks = vec![volume("/home", 200, 20)];
    assert_eq!(get_volume_info("/homer", &disks), ("/".to_string(), 0, 0));
    assert_eq!(get_volume_info("/home", &disks), ("/home".to_string(), 200, 20));
    assert_eq!(get_volume_info("/home/", &disks), ("/home".to_string(), 200, 20));
    assert_eq!(get_volume_info("/home//x/./y", &disks), ("/home".to_string(), 200, 20));
    assert_eq!(get_volume_info("home/x", &disks), ("/".to_string(), 0, 0));
}

#[test]
fn the_first_of_equally_deep_mount_points_is_chosen() {
    let disks = vec![volume("/data", 1, 1), volume("/data/", 2, 2), volume("/", 3, 3)];
    assert_eq!(get_volume_info("/data/x", &disks), ("/data".to_string(), 1, 1));
}

#[test]
fn a_path_that_no_volume_holds_gives_the_root_without_size() {
    let disks = vec![volume("/mnt/a", 1, 1), volume("/mnt/b", 2, 2)];
    assert_eq!(get_volume_info("/srv", &disks), ("/".to_string(), 0, 0));
}
