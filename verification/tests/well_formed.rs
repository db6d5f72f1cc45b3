use gpscan::filesystem::{PathKind, RootEntry, Surroundings};
use gpscan::options::Matches;
use gpscan::platform::EntryMetadata;
use gpscan::run;
use gpscan::tree::{Directory, DirectoryEntry, Node};
use quick_xml::events::Event;
use quick_xml::Reader;

fn metadata(inode: u64, length: u64) -> EntryMetadata {
    EntryMetadata::new(1, inode, length, None, Some(0), Some(86400), Some(-86400)).unwrap()
}

fn file(name: &str, inode: u64) -> DirectoryEntry {
    DirectoryEntry { name: name.to_string(), node: Node::File(metadata(inode, 1)) }
}

fn folder(path: &str, name: &str, entries: Vec<DirectoryEntry>) -> DirectoryEntry {
    DirectoryEntry {
        name: name.to_string(),
        node: Node::Directory(Directory {
            path: path.to_string(),
            metadata: Some(metadata(0, 0)),
            entries: Some(entries),
        }),
    }
}

fn document(empty_folders: bool) -> String {
    let root = Directory {
        path: "/data/<root> & \"more\"".to_string(),
        metadata: Some(metadata(0, 0)),
        entries: Some(vec![
            file("plain.txt", 1),
            file("a&b<c>d\"e'f", 2),
            file("tab\there", 3),
            file("é日本語", 4),
            folder(
                "/data/<root> & \"more\"/sub&dir",
                "sub&dir",
                vec![
                    file("deep", 5),
                    folder("/data/<root> & \"more\"/sub&dir/hollow", "hollow", vec![]),
                    folder(
                        "/data/<root> & \"more\"/sub&dir/nested",
                        "nested",
                        vec![file("x", 6), file("y", 7)],
                    ),
                ],
            ),
            folder("/data/<root> & \"more\"/void", "void", vec![]),
        ]),
    };
    let matches = Matches {
        directory: root.path.clone(),
        output: None,
        apparent_size: false,
        mounts: false,
        zero_files: false,
        empty_folders,
        gzip: false,
        no_gzip: false,
        compression_level: None,
        force: false,
    };
    let found = Surroundings {
        canonical_root: root.path.clone(),
        root: RootEntry::Directory(root),
        output: PathKind::Missing,
        disks: Vec::new(),
        scan_time: 0,
    };
    String::from_utf8(run(&matches, &found).ok().unwrap()).unwrap()
}

#[allow(deprecated)]
fn value_of(attribute: quick_xml::events::attributes::Attribute) -> String {
    attribute.unescape_value().unwrap().to_string()
}

/// Reads a document with an XML parser: returns the names that `File` and
/// `Folder` elements show, in order, and checks that every element is
/// closed by its own end tag.
fn names_in(xml: &str) -> Vec<String> {
    let mut reader = Reader::from_str(xml);
    let mut open: Vec<String> = Vec::new();
    let mut names = Vec::new();
    let mut declared = false;
    loop {
        match reader.read_event().unwrap() {
            Event::Decl(_) => {
                assert!(!declared && open.is_empty());
                declared = true;
            }
            Event::Start(element) => {
                let tag = element.name().as_ref().to_string();
                if tag == "Folder" {
                    let name = element.try_get_attribute("name").unwrap().unwrap();
                    names.push(value_of(name));
                }
                open.push(tag);
            }
            Event::Empty(element) => {
                assert_eq!(element.name().as_ref(), "File");
                let name = element.try_get_attribute("name").unwrap().unwrap();
                names.push(value_of(name));
                assert_eq!(element.attributes().count(), 5);
            }
            Event::End(element) => {
                let tag = element.name().as_ref().to_string();
                assert_eq!(open.pop(), Some(tag));
            }
            Event::Text(text) => assert!(text.trim().is_empty()),
            Event::Eof => break,
            _ => panic!("unexpected event"),
        }
    }
    assert!(declared);
    assert!(open.is_empty());
    names
}

#[test]
fn a_parser_reads_the_document_back() {
    let names = names_in(&document(false));
    assert_eq!(
        names,
        vec![
            "/data/<root> & \"more\"",
            "a&b<c>d\"e'f",
            "plain.txt",
            // a parser reads white space in an attribute value as a space
            "tab here",
            "é日本語",
            "sub&dir",
            "deep",
            "nested",
            "x",
            "y",
        ]
    );
}

#[test]
fn a_parser_reads_empty_folders_back() {
    let names = names_in(&document(true));
    assert_eq!(
        names,
        vec![
            "/data/<root> & \"more\"",
            "a&b<c>d\"e'f",
            "plain.txt",
            "tab here",
            "é日本語",
            "sub&dir",
            "deep",
            "hollow",
            "nested",
            "x",
            "y",
            "void",
        ]
    );
}
