use gpscan::filesystem::{PathKind, RootEntry, RunError, Surroundings};
use gpscan::inodes::InodeTracker;
use gpscan::options::Matches;
use gpscan::platform::EntryMetadata;
use gpscan::scan::{enter_directory, leave_directory};
use gpscan::tree::{Directory, DirectoryEntry, Node};
use gpscan::volume::Volume;
use gpscan::xml_output::XmlEmitter;
use gpscan::{run, CompressionType, Options};

const SCAN_TIME: i64 = 1700000000;

fn metadata(inode: u64, length: u64) -> EntryMetadata {
    EntryMetadata::new(
        64769,
        inode,
        length,
        Some(8 * ((length + 4095) / 4096)),
        None,
        Some(SCAN_TIME - 60),
        Some(SCAN_TIME - 30),
    )
    .unwrap()
}

fn file(name: &str, inode: u64, content: &str) -> DirectoryEntry {
    DirectoryEntry {
        name: name.to_string(),
        node: Node::File(metadata(inode, content.len() as u64)),
    }
}

fn symlink(name: &str) -> DirectoryEntry {
    DirectoryEntry { name: name.to_string(), node: Node::Symlink }
}

fn directory(path: &str, inode: u64, entries: Vec<DirectoryEntry>) -> Directory {
    Directory {
        path: path.to_string(),
        metadata: Some(metadata(inode, 4096)),
        entries: Some(entries),
    }
}

fn subdirectory(path: &str, inode: u64, entries: Vec<DirectoryEntry>) -> DirectoryEntry {
    let name = path.rsplit('/').next().unwrap().to_string();
    DirectoryEntry { name, node: Node::Directory(directory(path, inode, entries)) }
}

/// Helper function to create a test directory structure
fn create_test_directory(name: &str) -> Directory {
    let root = format!("/tmp/{}", name);
    directory(
        &root,
        100,
        vec![
            // Create a non-empty file with sample content
            file("file1.txt", 101, "This is a test file.\n"),
            // Create an empty file
            file("empty_file.txt", 102, ""),
            // Create a subdirectory with a non-empty file and a hard link to it
            subdirectory(
                &format!("{}/subdir", root),
                103,
                vec![
                    file("file2.txt", 104, "This is another test file.\n"),
                    file("hardlink_to_file2", 104, "This is another test file.\n"),
                ],
            ),
            // Create an empty directory
            subdirectory(&format!("{}/empty_dir", root), 105, vec![]),
            // Create symbolic links
            symlink("symlink_to_file1"),
            symlink("symlink_to_subdir"),
        ],
    )
}

/// Helper function to create a simple test directory for compression tests
fn create_simple_test_directory(name: &str, content1: &str, content2: &str) -> Directory {
    let root = format!("/tmp/{}", name);
    directory(
        &root,
        200,
        vec![
            file("file1.txt", 201, &format!("{}\n", content1)),
            subdirectory(
                &format!("{}/subdir", root),
                202,
                vec![file("file2.txt", 203, &format!("{}\n", content2))],
            ),
        ],
    )
}

fn arguments(directory: &str, output: Option<&str>, flags: &[&str]) -> Matches {
    Matches {
        directory: directory.to_string(),
        output: output.map(|name| name.to_string()),
        apparent_size: flags.contains(&"--apparent-size"),
        mounts: flags.contains(&"--mounts"),
        zero_files: flags.contains(&"--zero-files"),
        empty_folders: flags.contains(&"--empty-folders"),
        gzip: flags.contains(&"--gzip"),
        no_gzip: flags.contains(&"--no-gzip"),
        compression_level: None,
        force: false,
    }
}

fn surroundings(root: Directory) -> Surroundings {
    Surroundings {
        canonical_root: root.path.clone(),
        root: RootEntry::Directory(root),
        output: PathKind::Missing,
        disks: vec![
            Volume { mount_point: "/".to_string(), total_space: 1000000, available_space: 400000 },
            Volume { mount_point: "/tmp".to_string(), total_space: 5000, available_space: 3000 },
        ],
        scan_time: SCAN_TIME,
    }
}

/// Helper function to run the scan with arguments
fn run_gpscan(root: Directory, args: &[&str]) -> String {
    let matches = arguments(&root.path.clone(), None, args);
    let output = run(&matches, &surroundings(root)).ok().expect("Failed to execute gpscan");
    String::from_utf8_lossy(&output).to_string()
}

/// Helper function to verify XML structure
fn assert_xml_structure(xml_content: &str) {
    assert!(
        xml_content.starts_with(
            r#"<?xml version="1.0" encoding="UTF-8"?>
<GrandPerspectiveScanDump"#
        ),
        "XML does not start with correct declaration"
    );
    assert!(
        xml_content.trim_end().ends_with("</GrandPerspectiveScanDump>"),
        "XML does not end with </GrandPerspectiveScanDump>"
    );
}

/// Helper function to verify file presence in XML
fn assert_file_in_xml(xml_content: &str, filename: &str, should_exist: bool) {
    let pattern = format!(r#"<File name="{}""#, filename);
    let contains = xml_content.contains(&pattern);
    if should_exist {
        assert!(contains, "XML does not contain {}", filename);
    } else {
        assert!(!contains, "XML contains {}", filename);
    }
}

/// Helper function to verify folder presence in XML
fn assert_folder_in_xml(xml_content: &str, foldername: &str, should_exist: bool) {
    let pattern = format!(r#"<Folder name="{}""#, foldername);
    let contains = xml_content.contains(&pattern);
    if should_exist {
        assert!(contains, "XML does not contain folder {}", foldername);
    } else {
        assert!(!contains, "XML contains folder {}", foldername);
    }
}

#[test]
fn test_gpscan_output() {
    // gpscan_test
    // ├── file1.txt
    // ├── empty_file.txt
    // ├── subdir
    // │   ├── file2.txt
    // │   └── hardlink_to_file2 -> file2.txt
    // ├── empty_dir
    // ├── symlink_to_file1 -> file1.txt
    // └── symlink_to_subdir -> subdir
    let xml_output = run_gpscan(create_test_directory("gpscan_test"), &[]);

    // Debug print the XML output
    println!("{}", xml_output);

    // Check if the XML output contains expected entries for non-empty files and folders
    assert_file_in_xml(&xml_output, "file1.txt", true);
    assert_folder_in_xml(&xml_output, "subdir", true);
    assert_file_in_xml(&xml_output, "file2.txt", true);

    // Check if the XML output does NOT contain empty files, empty folders, or symbolic links
    assert_file_in_xml(&xml_output, "empty_file.txt", false);
    assert_folder_in_xml(&xml_output, "empty_dir", false);
    assert_file_in_xml(&xml_output, "symlink_to_file1", false);
    assert_folder_in_xml(&xml_output, "symlink_to_subdir", false);
    assert_file_in_xml(&xml_output, "hardlink_to_file2", false);

    // Test XML structure
    assert_xml_structure(&xml_output);
    assert!(
        xml_output.contains("fileSizeMeasure=\"physical\""),
        "Expected physical measure by default"
    );

    // Test --zero-files option
    let xml_output_zero = run_gpscan(create_test_directory("gpscan_test"), &["--zero-files"]);
    assert_file_in_xml(&xml_output_zero, "empty_file.txt", true);
    assert!(xml_output_zero.contains("fileSizeMeasure=\"physical\""));

    // Test --empty-folders option
    let xml_output_empty = run_gpscan(create_test_directory("gpscan_test"), &["--empty-folders"]);
    assert_folder_in_xml(&xml_output_empty, "empty_dir", true);
    assert!(xml_output_empty.contains("fileSizeMeasure=\"physical\""));

    // Test apparent size (logical)
    let xml_output_logical =
        run_gpscan(create_test_directory("gpscan_test"), &["--apparent-size"]);
    assert!(
        xml_output_logical.contains("fileSizeMeasure=\"logical\""),
        "Expected logical measure when --apparent-size is set"
    );
}

#[test]
fn test_gpscan_with_output_file() {
    let root = create_simple_test_directory("gpscan_test_output", "Content for file1", "");

    // Specify an output file - should automatically get .gpscan extension and be gzip compressed
    let matches = arguments(&root.path.clone(), Some("output.xml"), &[]);
    let options = Options::from_matches(&matches);
    assert_eq!(options.output_filename, Some("output.xml.gpscan".to_string()));
    assert_eq!(options.compression_type, CompressionType::Gzip);

    // The document that goes into the file
    let content = run(&matches, &surroundings(root)).ok().unwrap();
    let content = String::from_utf8(content).unwrap();
    assert_file_in_xml(&content, "file1.txt", true);
    assert_xml_structure(&content);
}

#[test]
fn test_gpscan_with_gzip_compression() {
    let root = create_simple_test_directory(
        "gpscan_gzip_test",
        "Content for gzip compression test",
        "Another file for gzip test",
    );

    // Test file output - should be gzip compressed by default with .gpscan extension
    // Input: "output.xml.gz" -> Output: "output.xml.gz.gpscan" (gzip compressed)
    let matches = arguments(&root.path.clone(), Some("output.xml.gz"), &[]);
    let options = Options::from_matches(&matches);
    assert_eq!(options.output_filename, Some("output.xml.gz.gpscan".to_string()));
    assert_eq!(options.compression_type, CompressionType::Gzip);

    // Verify the XML content that is compressed
    let content = String::from_utf8(run(&matches, &surroundings(root)).ok().unwrap()).unwrap();
    assert_file_in_xml(&content, "file1.txt", true);
    assert_folder_in_xml(&content, "subdir", true);
    assert_file_in_xml(&content, "file2.txt", true);
    assert_xml_structure(&content);

    // Test --no-gzip flag - should create uncompressed .gpscan file
    let root = create_simple_test_directory(
        "gpscan_no_gzip_test",
        "Content for no gzip test",
        "Another file for no gzip test",
    );
    let matches = arguments(&root.path.clone(), Some("output2"), &["--no-gzip"]);
    let options = Options::from_matches(&matches);
    assert_eq!(options.output_filename, Some("output2.gpscan".to_string()));
    assert_eq!(options.compression_type, CompressionType::Uncompressed);

    // Verify the XML content
    let content = String::from_utf8(run(&matches, &surroundings(root)).ok().unwrap()).unwrap();
    assert_file_in_xml(&content, "file1.txt", true);
    assert_folder_in_xml(&content, "subdir", true);
    assert_file_in_xml(&content, "file2.txt", true);
    assert_xml_structure(&content);
}

#[test]
fn test_gpscan_with_auto_gzip_detection() {
    let root = create_simple_test_directory(
        "gpscan_auto_gzip_test",
        "Content for auto gzip detection test",
        "",
    );

    // Test file output with .gpscan extension - should be gzip compressed by default
    let matches = arguments(&root.path.clone(), Some("auto_output.gpscan"), &[]);
    let options = Options::from_matches(&matches);
    assert_eq!(options.output_filename, Some("auto_output.gpscan".to_string()));
    assert_eq!(options.compression_type, CompressionType::Gzip);

    let content = String::from_utf8(run(&matches, &surroundings(root)).ok().unwrap()).unwrap();
    assert_file_in_xml(&content, "file1.txt", true);
    assert_xml_structure(&content);
}

#[test]
fn test_gpscan_stdout_compression() {
    let root = create_simple_test_directory("gpscan_stdout_test", "Content for stdout test", "");

    // Test stdout without --gzip flag - should output plain text
    let matches = arguments(&root.path.clone(), None, &[]);
    assert_eq!(Options::from_matches(&matches).compression_type, CompressionType::Uncompressed);
    let stdout_content = String::from_utf8(run(&matches, &surroundings(root)).ok().unwrap());
    let stdout_content = stdout_content.unwrap();

    // Should be plain XML
    assert_xml_structure(&stdout_content);
    assert_file_in_xml(&stdout_content, "file1.txt", true);

    // Test stdout with --gzip flag - the output is to be compressed
    let matches = arguments("/tmp/gpscan_stdout_test", None, &["--gzip"]);
    assert_eq!(Options::from_matches(&matches).compression_type, CompressionType::Gzip);
}

#[test]
fn the_volume_of_the_root_is_reported() {
    let xml = run_gpscan(create_test_directory("gpscan_test"), &[]);
    assert!(xml.contains(
        "<ScanInfo volumePath=\"/tmp\" volumeSize=\"5000\" freeSpace=\"3000\" \
scanTime=\"2023-11-14T22:13:20Z\" fileSizeMeasure=\"physical\">"
    ));
}

#[test]
fn a_missing_root_is_an_error() {
    let matches = arguments("/nowhere", None, &[]);
    let found = Surroundings { root: RootEntry::Missing, ..surroundings(directory("x", 1, vec![])) };
    match run(&matches, &found) {
        Err(RunError::PathNotFound(path)) => assert_eq!(path, "/nowhere"),
        _ => panic!("expected an error"),
    }
    let error = run(&matches, &found).err().unwrap();
    assert_eq!(error.message(), "The specified path does not exist: /nowhere");
}

#[test]
fn a_root_that_is_no_directory_is_an_error() {
    let matches = arguments("/etc/passwd", None, &[]);
    let found =
        Surroundings { root: RootEntry::NotDirectory, ..surroundings(directory("x", 1, vec![])) };
    let error = run(&matches, &found).err().unwrap();
    assert!(matches!(error, RunError::NotADirectory(_)));
    assert_eq!(error.message(), "The specified path is not a directory: /etc/passwd");
}

#[test]
fn a_root_without_metadata_is_an_error() {
    let matches = arguments("/locked", None, &[]);
    let root = Directory { path: "/locked".to_string(), metadata: None, entries: None };
    let error = run(&matches, &surroundings(root)).err().unwrap();
    assert!(matches!(error, RunError::RootUnreadable(_)));
    assert_eq!(error.message(), "Cannot read the metadata of: /locked");
}

#[test]
fn an_output_name_that_names_a_directory_is_an_error() {
    let matches = arguments("/tmp/x", Some("out/"), &[]);
    let error = run(&matches, &surroundings(directory("/tmp/x", 1, vec![]))).err().unwrap();
    assert!(matches!(error, RunError::OutputLooksLikeDirectory(_)));
    assert_eq!(error.message(), "Output path looks like a directory: out/");

    let matches = arguments("/tmp/x", Some(""), &[]);
    let error = run(&matches, &surroundings(directory("/tmp/x", 1, vec![]))).err().unwrap();
    assert_eq!(error.message(), "Output path looks like a directory: ");

    let matches = arguments("/tmp/x", Some("dumps"), &[]);
    let found =
        Surroundings { output: PathKind::Directory, ..surroundings(directory("/tmp/x", 1, vec![])) };
    let error = run(&matches, &found).err().unwrap();
    assert!(matches!(error, RunError::OutputIsDirectory(_)));
    assert_eq!(error.message(), "Output path is a directory: dumps.gpscan");
}

#[test]
fn the_root_is_checked_before_the_output() {
    let matches = arguments("/nowhere", Some("out/"), &[]);
    let found = Surroundings { root: RootEntry::Missing, ..surroundings(directory("x", 1, vec![])) };
    assert!(matches!(run(&matches, &found), Err(RunError::PathNotFound(_))));
}

#[test]
fn an_existing_output_file_is_no_error() {
    let matches = arguments("/tmp/x", Some("old.gpscan"), &[]);
    let found =
        Surroundings { output: PathKind::File, ..surroundings(directory("/tmp/x", 1, vec![])) };
    assert!(run(&matches, &found).is_ok());
}

/// A directory as it is listed in its parent: by its path only.
fn unread(dir: &Directory) -> Directory {
    Directory { path: dir.path.clone(), metadata: None, entries: None }
}

/// What is read of one directory when the scan reaches it: its own
/// metadata, and its entries without what lies below them.
fn read(dir: &Directory) -> Directory {
    Directory {
        path: dir.path.clone(),
        metadata: dir.metadata,
        entries: dir.entries.as_ref().map(|entries| {
            entries
                .iter()
                .map(|entry| DirectoryEntry {
                    name: entry.name.clone(),
                    node: match &entry.node {
                        Node::File(metadata) => Node::File(*metadata),
                        Node::Directory(sub) => Node::Directory(unread(sub)),
                        Node::Symlink => Node::Symlink,
                        Node::Other => Node::Other,
                        Node::Unreadable => Node::Unreadable,
                    },
                })
                .collect()
        }),
    }
}

/// Scans a tree one directory at a time, as a program does that reads each
/// directory only when the scan reaches it.
fn walk(
    dir: &Directory,
    is_root: bool,
    options: &Options,
    visited: &mut InodeTracker,
    writer: &mut XmlEmitter,
    sink: &mut Vec<u8>,
) {
    let folders = match enter_directory(&read(dir), is_root, 64769, options, visited, writer) {
        Some(folders) => folders,
        None => return,
    };
    sink.extend(writer.take_output());
    for position in folders {
        match &dir.entries.as_ref().unwrap()[position].node {
            Node::Directory(sub) => walk(sub, false, options, visited, writer, sink),
            _ => panic!("not a directory"),
        }
    }
    leave_directory(options, writer);
    sink.extend(writer.take_output());
}

#[test]
fn a_scan_in_steps_gives_the_same_document() {
    for flags in [
        vec![],
        vec!["--zero-files"],
        vec!["--empty-folders"],
        vec!["--zero-files", "--empty-folders", "--apparent-size"],
    ] {
        let root = create_test_directory("gpscan_test");
        let matches = arguments(&root.path.clone(), None, &flags);
        let options = Options::from_matches(&matches);
        let found = surroundings(root);

        let mut sink = Vec::new();
        let mut writer = XmlEmitter::new();
        gpscan::filesystem::begin_document(
            &mut writer,
            &found.disks,
            &found.canonical_root,
            found.scan_time,
            &options,
        );
        sink.extend(writer.take_output());
        let mut visited = InodeTracker::new();
        match &found.root {
            RootEntry::Directory(root) => {
                walk(root, true, &options, &mut visited, &mut writer, &mut sink)
            }
            _ => panic!("not a directory"),
        }
        gpscan::filesystem::end_document(&mut writer);
        sink.extend(writer.take_output());

        assert_eq!(sink, run(&matches, &found).ok().unwrap());
    }
}
