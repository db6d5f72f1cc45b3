use gpscan::get_volume_info;
use gpscan::paths::entry_name;
use gpscan::volume::Volume;
use gpscan::Options;
use std::path::{Path, PathBuf};

const PATHS: [&str; 64] = [
    "",
    ".",
    "..",
    "...",
    "/",
    "//",
    "///",
    "/.",
    "/..",
    "./",
    "../",
    "./.",
    "./..",
    "././",
    "a",
    "a.",
    "a..",
    ".a",
    "..a",
    "a/",
    "a//",
    "a/.",
    "a/./",
    "a/..",
    "a/../",
    "a/b",
    "a//b",
    "a/./b",
    "a/././b",
    "a/.//./b",
    "a/../b",
    "a/b/.",
    "a/b/./.",
    "a/b//.",
    "a/b/..",
    "/a",
    "/a/",
    "/a/.",
    "/a/b",
    "//a",
    "//a//b",
    "/./a",
    "/../a",
    "./a",
    "./a/b",
    ".//a",
    "././a",
    "../a",
    ".a/b",
    "a/.b",
    "a/b.",
    "a/b...",
    "a/...",
    "a.gpscan",
    "a/b.gpscan",
    "a//b.gpscan",
    "a/.gpscan",
    "a/b.gpscan.",
    "/x.gz",
    "dir.d/file.tar.gz",
    "a\\b",
    "a/b\\",
    "ünï/cødé.",
    "a b/c d",
];

/// The name of the output file, put together with the standard library's
/// path functions.
fn with_standard_paths(filename: &str) -> String {
    if filename.ends_with('/') || filename.ends_with('\\') {
        return filename.to_string();
    }
    let path = Path::new(filename);
    let Some(os_fname) = path.file_name() else {
        return filename.to_string();
    };
    let fname = os_fname.to_string_lossy();
    if fname.ends_with(".gpscan") {
        return filename.to_string();
    }
    if fname == "." || fname == ".." {
        return filename.to_string();
    }
    let mut trimmed = fname.to_string();
    while trimmed.ends_with('.') {
        trimmed.pop();
    }
    if trimmed.is_empty() {
        return filename.to_string();
    }
    let new_fname = format!("{}.gpscan", trimmed);
    let new_path: PathBuf = match path.parent() {
        Some(parent) if !parent.as_os_str().is_empty() => parent.join(new_fname),
        _ => PathBuf::from(new_fname),
    };
    new_path.to_string_lossy().into_owned()
}

#[test]
fn output_names_are_those_of_the_standard_paths() {
    for path in PATHS {
        assert_eq!(Options::process_output_filename(path), with_standard_paths(path), "{:?}", path);
    }
}

#[test]
fn output_names_of_unusual_paths() {
    assert_eq!(Options::process_output_filename("a//b"), "a/b.gpscan");
    assert_eq!(Options::process_output_filename("a/./b."), "a/b.gpscan");
    assert_eq!(Options::process_output_filename("a/."), "a.gpscan");
    assert_eq!(Options::process_output_filename("/x"), "/x.gpscan");
    assert_eq!(Options::process_output_filename("//x"), "/x.gpscan");
    assert_eq!(Options::process_output_filename("./x"), "./x.gpscan");
    assert_eq!(Options::process_output_filename("a/../b"), "a/../b.gpscan");
    assert_eq!(Options::process_output_filename("/.."), "/..");
}

#[test]
fn entry_names_are_the_file_names_of_the_standard_paths() {
    for path in PATHS {
        let expected = Path::new(path)
            .file_name()
            .unwrap_or(Path::new(path).as_os_str())
            .to_string_lossy()
            .to_string();
        assert_eq!(entry_name(path), expected, "{:?}", path);
    }
}

#[test]
fn entry_names_of_some_paths() {
    assert_eq!(entry_name("/home/user/data"), "data");
    assert_eq!(entry_name("data"), "data");
    assert_eq!(entry_name("/home/user/data/"), "data");
    assert_eq!(entry_name("/"), "/");
    assert_eq!(entry_name("a/.."), "a/..");
    assert_eq!(entry_name(""), "");
}

#[test]
fn volumes_hold_the_paths_that_start_with_their_mount_point() {
    for mount in PATHS {
        for path in PATHS {
            let disks = vec![Volume {
                mount_point: mount.to_string(),
                total_space: 7,
                available_space: 3,
            }];
            let held = get_volume_info(path, &disks) == (mount.to_string(), 7, 3);
            let expected = Path::new(path).starts_with(Path::new(mount));
            assert_eq!(held, expected, "{:?} in {:?}", path, mount);
        }
    }
}

#[test]
fn the_deepest_volume_is_the_one_with_most_components() {
    for path in PATHS {
        let disks: Vec<Volume> = PATHS
            .iter()
            .map(|mount| Volume {
                mount_point: mount.to_string(),
                total_space: 1,
                available_space: 1,
            })
            .collect();
        let expected = PATHS
            .iter()
            .filter(|mount| Path::new(path).starts_with(Path::new(mount)))
            .map(|mount| (Path::new(mount).components().count(), *mount))
            .fold(None, |best: Option<(usize, &str)>, (depth, mount)| match best {
                Some((most, _)) if most >= depth => best,
                _ => Some((depth, mount)),
            })
            .map(|(_, mount)| mount)
            .unwrap_or("/");
        assert_eq!(get_volume_info(path, &disks).0, expected, "{:?}", path);
    }
}
