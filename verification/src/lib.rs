//! Inventory of a directory tree as a GrandPerspective scan dump.
//!
//! The library is the scan engine and the streaming XML emitter. It works
//! on plain values: what is read from the filesystem is handed to it one
//! directory at a time ([`tree`]), and it hands back the bytes of the
//! document as they are written ([`xml_output::XmlEmitter::take_output`]).
//!
//! - [`scan`] decides what is emitted: it enters directories, leaves out
//!   symbolic links, hard links to content already counted, files of size
//!   zero and folders without content, and emits files before folders, each
//!   in the order of the names ([`order`]).
//! - [`xml_output`] writes the elements of the document; [`events`] says
//!   what the document is as a sequence of events and as text; [`xml`]
//!   escapes attribute values.
//! - [`filesystem`] puts a whole run together: the checks before the scan
//!   and the document from its declaration to its final line feed.
//! - [`guarantees`] states and proves what holds of every scan.
//! - [`platform`], [`inodes`], [`volume`], [`options`], [`compression`] and
//!   [`paths`] hold the metadata of entries, the tracker of inode
//!   identities, the choice of the volume, the options of a run and the
//!   handling of paths as text.
//!
//! Two modules rest on other crates and are not proved: [`writer`], which
//! states what `quick_xml`'s writer does, and [`calendar`], which names the
//! date and time that `chrono` gives for an instant.

pub mod calendar;
pub mod compression;
pub mod events;
pub mod filesystem;
pub mod guarantees;
pub mod inodes;
pub mod options;
pub mod order;
pub mod paths;
pub mod platform;
pub mod scan;
pub mod text;
pub mod tree;
pub mod volume;
pub mod writer;
pub mod xml;
pub mod xml_output;

pub use compression::CompressionType;
pub use filesystem::run;
pub use options::Options;
pub use platform::MetadataExtOps;
pub use scan::{process_file_entry, traverse_directory_to_xml};
pub use volume::get_volume_info;
pub use xml::xml_escape;
pub use xml_output::{format_system_time, get_file_times, output_xml_header};
