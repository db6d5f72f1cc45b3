//! A whole run: the checks before the scan, and the document from its
//! declaration to its final line feed.

use vstd::prelude::*;
use vstd::string::StringExecFns;
use vstd::utf8::encode_utf8;
use crate::events::{
    folder_opens, render, root_close_event, root_open_event, scan_info_close_event,
    scan_info_open_event, with_deferred, FolderTag, ScanInfoTag, XmlEvent,
};
use crate::inodes::InodeTracker;
use crate::options::{output_filename_of, Matches, Options, ScanOptions};
use crate::platform::MetadataExtOps;
use crate::scan::{folder_scan, item_events, traverse_directory_to_xml};
use crate::text::to_chars;
use crate::tree::{height, Directory};
use crate::volume::{get_volume_info, volume_info, Volume};
use crate::xml_output::{format_system_time, output_xml_header, time_text, XmlEmitter};

verus! {

/// What a path leads to.
#[derive(Debug, Clone, Copy, PartialEq, Eq, Structural)]
pub enum PathKind {
    /// Nothing: the path does not exist.
    Missing,
    /// Something that is not a directory.
    File,
    /// A directory.
    Directory,
}

/// What the path of the directory to scan leads to.
#[derive(Debug)]
pub enum RootEntry {
    /// Nothing: the path does not exist.
    Missing,
    /// Something that is not a directory.
    NotDirectory,
    /// A directory.
    Directory(Directory),
}

/// Why a run ends before any output.
#[derive(Debug)]
pub enum RunError {
    /// The path to scan does not exist.
    PathNotFound(String),
    /// The path to scan is not a directory.
    NotADirectory(String),
    /// The metadata of the directory to scan cannot be read.
    RootUnreadable(String),
    /// The output file name is empty or ends in a path separator.
    OutputLooksLikeDirectory(String),
    /// The output file name leads to a directory.
    OutputIsDirectory(String),
}

/// Why a run ends before any output, with the path or name that it is about
/// as text.
pub enum RunFailure {
    PathNotFound(Seq<char>),
    NotADirectory(Seq<char>),
    RootUnreadable(Seq<char>),
    OutputLooksLikeDirectory(Seq<char>),
    OutputIsDirectory(Seq<char>),
}

impl View for RunError {
    type V = RunFailure;

    open spec fn view(&self) -> RunFailure {
        match *self {
            RunError::PathNotFound(path) => RunFailure::PathNotFound(path@),
            RunError::NotADirectory(path) => RunFailure::NotADirectory(path@),
            RunError::RootUnreadable(path) => RunFailure::RootUnreadable(path@),
            RunError::OutputLooksLikeDirectory(name) => RunFailure::OutputLooksLikeDirectory(
                name@,
            ),
            RunError::OutputIsDirectory(name) => RunFailure::OutputIsDirectory(name@),
        }
    }
}

/// The message that is shown for a failure.
pub open spec fn failure_message(failure: RunFailure) -> Seq<char> {
    match failure {
        RunFailure::PathNotFound(path) => "The specified path does not exist: "@ + path,
        RunFailure::NotADirectory(path) => "The specified path is not a directory: "@ + path,
        RunFailure::RootUnreadable(path) => "Cannot read the metadata of: "@ + path,
        RunFailure::OutputLooksLikeDirectory(name) => "Output path looks like a directory: "@
            + name,
        RunFailure::OutputIsDirectory(name) => "Output path is a directory: "@ + name,
    }
}

impl RunError {
    /// The message that is shown for the error.
    pub fn message(&self) -> (text: String)
        ensures
            text@ == failure_message(self@),
    {
        match self {
            RunError::PathNotFound(path) => "The specified path does not exist: ".to_owned().concat(
                path.as_str(),
            ),
            RunError::NotADirectory(path) => "The specified path is not a directory: ".to_owned()
                .concat(path.as_str()),
            RunError::RootUnreadable(path) => "Cannot read the metadata of: ".to_owned().concat(
                path.as_str(),
            ),
            RunError::OutputLooksLikeDirectory(name) => "Output path looks like a directory: "
                .to_owned().concat(name.as_str()),
            RunError::OutputIsDirectory(name) => "Output path is a directory: ".to_owned().concat(
                name.as_str(),
            ),
        }
    }
}

/// Whether an output file name can only name a directory: it is empty or
/// ends in the path separator.
pub open spec fn looks_like_directory(filename: Seq<char>) -> bool {
    filename.len() == 0 || filename.last() == '/'
}

/// Why the path to scan cannot be scanned, if it cannot.
pub open spec fn root_failure(directory: Seq<char>, root: PathKind) -> Option<RunFailure> {
    match root {
        PathKind::Missing => Some(RunFailure::PathNotFound(directory)),
        PathKind::File => Some(RunFailure::NotADirectory(directory)),
        PathKind::Directory => None,
    }
}

/// Why the name of the output file cannot name a file, if it cannot.
pub open spec fn output_failure(filename: Seq<char>, output: PathKind) -> Option<RunFailure> {
    if looks_like_directory(filename) {
        Some(RunFailure::OutputLooksLikeDirectory(filename))
    } else if output == PathKind::Directory {
        Some(RunFailure::OutputIsDirectory(filename))
    } else {
        None
    }
}

/// Checks that the path to scan leads to a directory.
pub fn check_root(directory: &str, root: PathKind) -> (checked: Result<(), RunError>)
    ensures
        match checked {
            Ok(()) => root_failure(directory@, root) is None,
            Err(error) => root_failure(directory@, root) == Some(error@),
        },
{
    match root {
        PathKind::Missing => Err(RunError::PathNotFound(directory.to_owned())),
        PathKind::File => Err(RunError::NotADirectory(directory.to_owned())),
        PathKind::Directory => Ok(()),
    }
}

/// Checks that the output file name can name a file: it is not empty, does
/// not end in the path separator and does not lead to a directory.
pub fn check_output(filename: &str, output: PathKind) -> (checked: Result<(), RunError>)
    ensures
        match checked {
            Ok(()) => output_failure(filename@, output) is None,
            Err(error) => output_failure(filename@, output) == Some(error@),
        },
{
    let chars = to_chars(filename);
    if chars.len() == 0 || chars[chars.len() - 1] == '/' {
        return Err(RunError::OutputLooksLikeDirectory(filename.to_owned()));
    }
    match output {
        PathKind::Directory => Err(RunError::OutputIsDirectory(filename.to_owned())),
        _ => Ok(()),
    }
}

/// What the `ScanInfo` element of a run shows.
pub open spec fn scan_info(
    volumes: Seq<Volume>,
    canonical_root: Seq<char>,
    scan_time: i64,
    apparent_size: bool,
) -> ScanInfoTag {
    let volume = volume_info(volumes, canonical_root);
    ScanInfoTag {
        volume_path: volume.0,
        volume_size: volume.1,
        free_space: volume.2,
        scan_time: time_text(Some(scan_time)),
        apparent_size,
    }
}

/// The events with which every document begins.
pub open spec fn document_head(info: ScanInfoTag) -> Seq<XmlEvent> {
    seq![XmlEvent::Declaration, root_open_event(), scan_info_open_event(info)]
}

/// The events with which every document ends.
pub open spec fn document_tail() -> Seq<XmlEvent> {
    seq![scan_info_close_event(), root_close_event()]
}

/// The events of the whole document for a tree: the head, the scan of the
/// root directory with a tracker that has seen nothing, and the tail.
pub open spec fn document_events(
    root: Directory,
    root_dev: u64,
    options: ScanOptions,
    info: ScanInfoTag,
) -> Seq<XmlEvent> {
    document_head(info) + item_events(
        folder_scan(root, true, root_dev, options, Set::empty()).items,
    ) + document_tail()
}

/// The bytes of the whole document for a tree.
pub open spec fn document_bytes(
    root: Directory,
    root_dev: u64,
    options: ScanOptions,
    info: ScanInfoTag,
) -> Seq<u8> {
    encode_utf8(render(document_events(root, root_dev, options, info)))
}

/// Begins the document: the declaration, the root element and the
/// `ScanInfo` element with the volume that holds `canonical_root`.
pub fn begin_document(
    writer: &mut XmlEmitter,
    disks: &Vec<Volume>,
    canonical_root: &str,
    scan_time: i64,
    options: &Options,
)
    requires
        old(writer).wf(),
        old(writer).nesting() + 2 <= usize::MAX,
    ensures
        final(writer).wf(),
        final(writer).events() == old(writer).events() + with_deferred(
            old(writer).deferred(),
            document_head(scan_info(disks@, canonical_root@, scan_time, options.apparent_size)),
        ),
        final(writer).deferred() == Seq::<FolderTag>::empty(),
        final(writer).taken() == old(writer).taken(),
        final(writer).nesting() == old(writer).nesting() + 2,
{
    // Output the XML header and start tag
    output_xml_header(writer);

    // Get volume information
    let (volume_path, volume_size, free_space) = get_volume_info(canonical_root, disks);

    // Output the scan information
    let time = format_system_time(Some(scan_time));
    writer.open_scan_info(
        volume_path.as_str(),
        volume_size,
        free_space,
        time.as_str(),
        options.apparent_size,
    );
    proof {
        assert(folder_opens(Seq::<FolderTag>::empty()) =~= Seq::<XmlEvent>::empty());
        assert(writer.events() =~= old(writer).events() + with_deferred(
            old(writer).deferred(),
            document_head(scan_info(disks@, canonical_root@, scan_time, options.apparent_size)),
        ));
    }
}

/// Ends the document: closes the `ScanInfo` element and the root element,
/// and writes the final line feed.
pub fn end_document(writer: &mut XmlEmitter)
    requires
        old(writer).wf(),
    ensures
        final(writer).wf(),
        final(writer).events() == old(writer).events() + with_deferred(
            old(writer).deferred(),
            document_tail(),
        ),
        final(writer).deferred() == Seq::<FolderTag>::empty(),
        final(writer).taken() == old(writer).taken(),
{
    writer.close_scan_info();
    writer.close_root();
    proof {
        assert(folder_opens(Seq::<FolderTag>::empty()) =~= Seq::<XmlEvent>::empty());
        assert(writer.events() =~= old(writer).events() + with_deferred(
            old(writer).deferred(),
            document_tail(),
        ));
    }
}

/// What a run finds outside itself.
#[derive(Debug)]
pub struct Surroundings {
    /// What the path of the directory to scan leads to.
    pub root: RootEntry,
    /// The absolute path of the directory to scan.
    pub canonical_root: String,
    /// What the name of the output file leads to.
    pub output: PathKind,
    /// The mounted volumes.
    pub disks: Vec<Volume>,
    /// The time of the scan, in seconds since the Unix epoch.
    pub scan_time: i64,
}

/// Why the output file that the arguments ask for cannot be written, if it
/// cannot; nothing stands against standard output.
pub open spec fn requested_output_failure(matches: Matches, output: PathKind) -> Option<
    RunFailure,
> {
    match matches.output {
        Some(filename) => output_failure(output_filename_of(filename@), output),
        None => None,
    }
}

/// The outcome of a run: the bytes of the document, or the first reason
/// for which there is none. The path to scan is checked first, then the
/// name of the output file.
pub open spec fn run_outcome(matches: Matches, found: Surroundings) -> Result<Seq<u8>, RunFailure> {
    match found.root {
        RootEntry::Missing => Err(RunFailure::PathNotFound(matches.directory@)),
        RootEntry::NotDirectory => Err(RunFailure::NotADirectory(matches.directory@)),
        RootEntry::Directory(root) => match root.metadata {
            None => Err(RunFailure::RootUnreadable(matches.directory@)),
            Some(metadata) => match requested_output_failure(matches, found.output) {
                Some(failure) => Err(failure),
                None => Ok(
                    document_bytes(
                        root,
                        metadata.device(),
                        matches.rules(),
                        scan_info(
                            found.disks@,
                            found.canonical_root@,
                            found.scan_time,
                            matches.apparent_size,
                        ),
                    ),
                ),
            },
        },
    }
}

/// Runs the main logic of the program on a tree that is held in memory:
/// returns the document, or the error for which nothing is written.
pub fn run(matches: &Matches, found: &Surroundings) -> (result: Result<Vec<u8>, RunError>)
    requires
        found.root matches RootEntry::Directory(root) ==> height(root) + 2 <= usize::MAX,
    ensures
        match result {
            Ok(bytes) => run_outcome(*matches, *found) == Ok::<Seq<u8>, RunFailure>(bytes@),
            Err(error) => run_outcome(*matches, *found) == Err::<Seq<u8>, RunFailure>(error@),
        },
{
    // Check if the provided path exists and is a directory
    let root = match &found.root {
        RootEntry::Missing => {
            return Err(RunError::PathNotFound(matches.directory.clone()));
        },
        RootEntry::NotDirectory => {
            return Err(RunError::NotADirectory(matches.directory.clone()));
        },
        RootEntry::Directory(root) => root,
    };

    // Get option values
    let options = Options::from_matches(matches);

    // Get the device ID of the root directory
    let root_dev = match &root.metadata {
        Some(metadata) => metadata.device_id(),
        None => {
            return Err(RunError::RootUnreadable(matches.directory.clone()));
        },
    };

    // Validate that the provided output is not a directory-like path
    match &options.output_filename {
        Some(filename) => {
            match check_output(filename.as_str(), found.output) {
                Ok(()) => {},
                Err(error) => {
                    return Err(error);
                },
            }
        },
        None => {},
    }

    let mut writer = XmlEmitter::new();
    proof {
        writer.lemma_output();
    }
    begin_document(
        &mut writer,
        &found.disks,
        found.canonical_root.as_str(),
        found.scan_time,
        &options,
    );

    // Create a set to store visited inodes
    let mut visited_inodes = InodeTracker::new();

    // Start traversing the directory
    let ghost head = writer.events();
    proof {
        assert(folder_opens(Seq::<FolderTag>::empty()) =~= Seq::<XmlEvent>::empty());
        assert(head =~= document_head(
            scan_info(
                found.disks@,
                found.canonical_root@,
                found.scan_time,
                matches.apparent_size,
            ),
        ));
    }
    traverse_directory_to_xml(root, true, root_dev, &options, &mut visited_inodes, &mut writer);
    proof {
        assert(folder_opens(Seq::<FolderTag>::empty()) =~= Seq::<XmlEvent>::empty());
        let items = item_events(
            folder_scan(*root, true, root_dev, options.rules(), Set::empty()).items,
        );
        assert(writer.events() =~= head + items);
        assert(options.rules() == matches.rules());
    }
    let ghost body = writer.events();
    end_document(&mut writer);
    proof {
        assert(writer.events() =~= body + document_tail());
        writer.lemma_output();
        assert(Seq::<u8>::empty() + writer.pending() =~= writer.pending());
    }
    Ok(writer.take_output())
}

} // verus!
