use gpscan::options::Matches;
use gpscan::{CompressionType, Options};

/// The arguments of a command line that names only the directory.
fn no_arguments() -> Matches {
    Matches {
        directory: "test".to_string(),
        output: None,
        apparent_size: false,
        mounts: false,
        zero_files: false,
        empty_folders: false,
        gzip: false,
        no_gzip: false,
        compression_level: None,
        force: false,
    }
}

#[test]
fn test_options_from_matches_default() {
    let matches = no_arguments();
    let options = Options::from_matches(&matches);

    assert!(!options.apparent_size);
    assert!(!options.cross_mount_points);
    assert!(!options.include_zero_files);
    assert!(!options.include_empty_folders);
    assert_eq!(options.compression_type, CompressionType::Uncompressed);
    assert_eq!(options.compression_level, 6);
    assert!(!options.force_overwrite);
}

#[test]
fn test_options_from_matches_all_flags() {
    let matches = Matches {
        apparent_size: true,
        mounts: true,
        zero_files: true,
        empty_folders: true,
        gzip: true,
        compression_level: Some(9),
        force: true,
        ..no_arguments()
    };
    let options = Options::from_matches(&matches);

    assert!(options.apparent_size);
    assert!(options.cross_mount_points);
    assert!(options.include_zero_files);
    assert!(options.include_empty_folders);
    assert_eq!(options.compression_type, CompressionType::Gzip);
    assert_eq!(options.compression_level, 9);
    assert!(options.force_overwrite);
}

#[test]
fn test_options_default() {
    let options = Options::default();

    assert!(!options.apparent_size);
    assert!(!options.cross_mount_points);
    assert!(!options.include_zero_files);
    assert!(!options.include_empty_folders);
    assert_eq!(options.compression_type, CompressionType::Uncompressed);
    assert_eq!(options.compression_level, 6);
}

#[test]
fn test_file_output_default_gzip() {
    // Test file output defaults to gzip compression
    let matches = Matches { output: Some("foo".to_string()), ..no_arguments() };
    let options = Options::from_matches(&matches);
    assert_eq!(options.compression_type, CompressionType::Gzip);
    assert_eq!(options.output_filename, Some("foo.gpscan".to_string()));
    assert_eq!(options.compression_level, 6);
}

#[test]
fn test_file_output_with_gpscan_extension() {
    // Test file output with .gpscan extension doesn't add another extension
    let matches = Matches { output: Some("foo.gpscan".to_string()), ..no_arguments() };
    let options = Options::from_matches(&matches);
    assert_eq!(options.compression_type, CompressionType::Gzip);
    assert_eq!(options.output_filename, Some("foo.gpscan".to_string()));
    assert_eq!(options.compression_level, 6);
}

#[test]
fn test_file_output_with_gz_extension() {
    // Test file output with .gz extension gets .gpscan added
    let matches = Matches { output: Some("foo.gz".to_string()), ..no_arguments() };
    let options = Options::from_matches(&matches);
    assert_eq!(options.compression_type, CompressionType::Gzip);
    assert_eq!(options.output_filename, Some("foo.gz.gpscan".to_string()));
    assert_eq!(options.compression_level, 6);
}

#[test]
fn test_file_output_no_gzip() {
    // Test --no-gzip disables compression for file output
    let matches = Matches { output: Some("foo".to_string()), no_gzip: true, ..no_arguments() };
    let options = Options::from_matches(&matches);
    assert_eq!(options.compression_type, CompressionType::Uncompressed);
    assert_eq!(options.output_filename, Some("foo.gpscan".to_string()));
    assert_eq!(options.compression_level, 6);
}

#[test]
fn test_stdout_default_no_compression() {
    // Test stdout defaults to no compression
    let matches = no_arguments();
    let options = Options::from_matches(&matches);
    assert_eq!(options.compression_type, CompressionType::Uncompressed);
    assert_eq!(options.output_filename, None);
    assert_eq!(options.compression_level, 6);
}

#[test]
fn test_stdout_with_gzip() {
    // Test --gzip enables compression for stdout
    let matches = Matches { gzip: true, ..no_arguments() };
    let options = Options::from_matches(&matches);
    assert_eq!(options.compression_type, CompressionType::Gzip);
    assert_eq!(options.output_filename, None);
    assert_eq!(options.compression_level, 6);
}

#[test]
fn test_process_output_filename() {
    assert_eq!(Options::process_output_filename("foo"), "foo.gpscan");
    assert_eq!(Options::process_output_filename("foo.gpscan"), "foo.gpscan");
    assert_eq!(Options::process_output_filename("foo.gz"), "foo.gz.gpscan");
    assert_eq!(
        Options::process_output_filename("foo.xml"),
        "foo.xml.gpscan"
    );
    // trailing dot should not double-dot
    assert_eq!(Options::process_output_filename("foo."), "foo.gpscan");
    // keep directory-like paths unchanged here; validation happens later
    assert_eq!(Options::process_output_filename("dir/"), "dir/");
    assert_eq!(Options::process_output_filename("./"), "./");
    assert_eq!(Options::process_output_filename("."), ".");
    assert_eq!(Options::process_output_filename(".."), "..");
    // nested path: only filename is modified
    assert_eq!(
        Options::process_output_filename("out/result.xml"),
        "out/result.xml.gpscan"
    );

    // Windows-style paths (treated robustly across platforms)
    assert_eq!(
        Options::process_output_filename("C\\\\dir\\\\file."),
        "C\\\\dir\\\\file.gpscan"
    );
    assert_eq!(
        Options::process_output_filename("C\\\\dir\\\\"),
        "C\\\\dir\\\\"
    );
    assert_eq!(
        Options::process_output_filename("C\\\\dir\\\\file"),
        "C\\\\dir\\\\file.gpscan"
    );
    assert_eq!(
        Options::process_output_filename("C\\\\dir\\\\file.gpscan"),
        "C\\\\dir\\\\file.gpscan"
    );
}

#[test]
fn output_filename_edge_cases() {
    assert_eq!(Options::process_output_filename(""), "");
    assert_eq!(Options::process_output_filename("..."), "...");
    assert_eq!(Options::process_output_filename("out/.."), "out/..");
    assert_eq!(Options::process_output_filename("foo..."), "foo.gpscan");
    assert_eq!(Options::process_output_filename(".hidden"), ".hidden.gpscan");
    assert_eq!(Options::process_output_filename("a.b/c"), "a.b/c.gpscan");
    assert_eq!(Options::process_output_filename("/abs/x.gpscan"), "/abs/x.gpscan");
    assert_eq!(Options::process_output_filename("x.gpscan."), "x.gpscan.gpscan");
}

#[test]
fn compression_level_is_taken_from_the_arguments() {
    let matches = Matches { compression_level: Some(0), ..no_arguments() };
    assert_eq!(Options::from_matches(&matches).compression_level, 0);
}

#[test]
fn gzip_flag_does_not_touch_file_output() {
    let matches = Matches {
        output: Some("dump".to_string()),
        gzip: true,
        no_gzip: true,
        ..no_arguments()
    };
    let options = Options::from_matches(&matches);
    assert_eq!(options.compression_type, CompressionType::Uncompressed);
}
