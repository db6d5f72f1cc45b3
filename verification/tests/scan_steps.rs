use gpscan::inodes::InodeTracker;
use gpscan::platform::EntryMetadata;
use gpscan::scan::{enter_directory, leave_directory, within_bounds};
use gpscan::tree::{Directory, DirectoryEntry, Node};
use gpscan::xml_output::XmlEmitter;
use gpscan::{process_file_entry, traverse_directory_to_xml, Options};

fn metadata(device: u64, inode: u64, length: u64) -> EntryMetadata {
    EntryMetadata::new(device, inode, length, Some(length / 512), None, None, None).unwrap()
}

fn text(writer: &mut XmlEmitter) -> String {
    String::from_utf8(writer.take_output()).unwrap()
}

const EPOCHS: &str =
    "created=\"1970-01-01T00:00:00Z\" modified=\"1970-01-01T00:00:00Z\" accessed=\"1970-01-01T00:00:00Z\"";

#[test]
fn a_file_is_marked_and_emitted() {
    let mut visited = InodeTracker::new();
    let mut writer = XmlEmitter::new();
    let options = Options::default();
    process_file_entry("f", &metadata(1, 5, 1024), &options, &mut visited, &mut writer);
    assert!(visited.seen(5));
    assert_eq!(text(&mut writer), format!("<File name=\"f\" size=\"1024\" {}/>", EPOCHS));
    process_file_entry("g", &metadata(1, 5, 1024), &options, &mut visited, &mut writer);
    assert_eq!(text(&mut writer), "");
}

#[test]
fn a_file_of_size_zero_is_marked_and_left_out() {
    let mut visited = InodeTracker::new();
    let mut writer = XmlEmitter::new();
    let options = Options::default();
    process_file_entry("f", &metadata(1, 5, 0), &options, &mut visited, &mut writer);
    assert!(visited.seen(5));
    assert_eq!(text(&mut writer), "");

    let options = Options { include_zero_files: true, ..Options::default() };
    process_file_entry("g", &metadata(1, 6, 0), &options, &mut visited, &mut writer);
    assert_eq!(text(&mut writer), format!("<File name=\"g\" size=\"0\" {}/>", EPOCHS));
}

#[test]
fn bounds_follow_the_device_unless_mounts_are_crossed() {
    let options = Options::default();
    assert!(within_bounds(&metadata(1, 2, 0), 1, &options));
    assert!(!within_bounds(&metadata(2, 2, 0), 1, &options));
    let options = Options { cross_mount_points: true, ..Options::default() };
    assert!(within_bounds(&metadata(2, 2, 0), 1, &options));
}

fn tree() -> Directory {
    Directory {
        path: "top".to_string(),
        metadata: Some(metadata(1, 2, 0)),
        entries: Some(vec![
            DirectoryEntry {
                name: "sub".to_string(),
                node: Node::Directory(Directory {
                    path: "top/sub".to_string(),
                    metadata: Some(metadata(1, 3, 0)),
                    entries: Some(vec![DirectoryEntry {
                        name: "inner".to_string(),
                        node: Node::File(metadata(1, 11, 512)),
                    }]),
                }),
            },
            DirectoryEntry { name: "outer".to_string(), node: Node::File(metadata(1, 10, 512)) },
            DirectoryEntry { name: "link".to_string(), node: Node::Symlink },
        ]),
    }
}

#[test]
fn a_directory_is_entered_and_left() {
    let mut visited = InodeTracker::new();
    let mut writer = XmlEmitter::new();
    let options = Options::default();
    let folders = enter_directory(&tree(), true, 1, &options, &mut visited, &mut writer);
    assert_eq!(folders, Some(vec![0]));
    assert_eq!(writer.depth(), 1);
    assert!(visited.seen(10));
    assert!(!visited.seen(11));
    assert_eq!(
        text(&mut writer),
        format!("<Folder name=\"top\" {e}>\n <File name=\"outer\" size=\"512\" {e}/>", e = EPOCHS)
    );
    leave_directory(&options, &mut writer);
    assert_eq!(text(&mut writer), "\n</Folder>");
    assert_eq!(writer.depth(), 0);
}

#[test]
fn a_directory_that_is_not_entered_changes_nothing() {
    let mut visited = InodeTracker::new();
    let mut writer = XmlEmitter::new();
    let options = Options::default();
    assert_eq!(enter_directory(&tree(), true, 9, &options, &mut visited, &mut writer), None);
    assert_eq!(writer.depth(), 0);
    assert!(!visited.seen(10));
    assert_eq!(text(&mut writer), "");
}

#[test]
fn a_tree_is_traversed_depth_first() {
    let mut visited = InodeTracker::new();
    let mut writer = XmlEmitter::new();
    let options = Options::default();
    traverse_directory_to_xml(&tree(), false, 1, &options, &mut visited, &mut writer);
    assert_eq!(
        text(&mut writer),
        format!(
            "<Folder name=\"top\" {e}>\n <File name=\"outer\" size=\"512\" {e}/>\n \
<Folder name=\"sub\" {e}>\n  <File name=\"inner\" size=\"512\" {e}/>\n </Folder>\n</Folder>",
            e = EPOCHS
        )
    );
    assert!(visited.seen(10) && visited.seen(11));
    assert_eq!(writer.depth(), 0);
}

#[test]
fn a_second_traversal_finds_every_file_seen() {
    let mut visited = InodeTracker::new();
    let mut writer = XmlEmitter::new();
    let options = Options::default();
    traverse_directory_to_xml(&tree(), true, 1, &options, &mut visited, &mut writer);
    let _ = writer.take_output();
    traverse_directory_to_xml(&tree(), true, 1, &options, &mut visited, &mut writer);
    assert_eq!(text(&mut writer), "");
}
