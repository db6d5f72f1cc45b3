//! The streaming emitter of the report: the elements of the document, in the
//! order and with the attributes that the consumer expects.

use quick_xml::Writer;
use quick_xml::events::BytesStart;
use vstd::prelude::*;
use vstd::utf8::encode_utf8;
use crate::calendar::{format_utc, utc_date_time};
use crate::events::{
    event_text, file_event, folder_close_event, folder_open_event, folder_opens,
    lemma_level_after_opens, level_after, level_of, level_past, render, root_close_event,
    root_open_event, scan_info_close_event, scan_info_open_event, size_measure, tag_text,
    with_deferred, FileTag, FolderTag, ScanInfoTag, XmlEvent,
};
use crate::platform::EntryMetadata;
use crate::text::{decimal, decimal_string, lemma_encode_concat};
use crate::writer::{
    breaks_line, buffered, indent_level, level_after_end, line_start, new_tag, new_writer,
    push_attribute, tag_content, take_buffer, write_declaration, write_empty, write_end,
    write_line_feed, write_start,
};
use crate::xml::xml_escape;

verus! {

/// The version of the application whose format is written.
pub const GRANDPERSPECTIVE_APP_VERSION: &'static str = "4";

/// The version of the scan dump format.
pub const GRANDPERSPECTIVE_FORMAT_VERSION: &'static str = "7";

/// The XML version that the declaration names.
pub const XML_VERSION: &'static str = "1.0";

/// The encoding that the declaration names.
pub const XML_ENCODING: &'static str = "UTF-8";

/// The time that stands for a time that the filesystem cannot supply.
pub const DEFAULT_DATETIME: &'static str = "1970-01-01T00:00:00Z";

/// The name of the element that holds what is known of the scan.
pub const TAG_SCAN_INFO: &'static str = "ScanInfo";

/// The name of the root element.
pub const TAG_GRANDPERSPECTIVE_SCAN_DUMP: &'static str = "GrandPerspectiveScanDump";

/// The name of the element of a directory.
pub const TAG_FOLDER: &'static str = "Folder";

/// The name of the element of a file.
pub const TAG_FILE: &'static str = "File";

/// A directory as it is emitted: its name and its three timestamps, already
/// formatted.
#[derive(Debug)]
pub struct DirectoryRecord {
    pub name: String,
    pub created: String,
    pub modified: String,
    pub accessed: String,
}

impl View for DirectoryRecord {
    type V = FolderTag;

    open spec fn view(&self) -> FolderTag {
        FolderTag {
            name: self.name@,
            created: self.created@,
            modified: self.modified@,
            accessed: self.accessed@,
        }
    }
}

/// A file as it is emitted: its name, its size under the active size mode
/// and its three timestamps, already formatted; and its inode identity,
/// which is used while the file is processed and is not emitted.
#[derive(Debug)]
pub struct FileRecord {
    pub name: String,
    pub size: u64,
    pub created: String,
    pub modified: String,
    pub accessed: String,
    pub inode: u64,
}

impl View for FileRecord {
    type V = FileTag;

    open spec fn view(&self) -> FileTag {
        FileTag {
            name: self.name@,
            size: self.size,
            created: self.created@,
            modified: self.modified@,
            accessed: self.accessed@,
            inode: self.inode,
        }
    }
}

/// The streaming writer of the report.
///
/// Events are written into a buffer as they occur, and the buffer is handed
/// out by [`XmlEmitter::take_output`]. The start tag of a folder is held back
/// until the folder is known to have content or is closed, so the emitter
/// holds at most the chain of folders that are open and still empty.
pub struct XmlEmitter {
    writer: Writer<Vec<u8>>,
    deferred: Vec<DirectoryRecord>,
    level: usize,
    events: Ghost<Seq<XmlEvent>>,
    taken: Ghost<Seq<u8>>,
}

/// Appends one attribute to a tag under construction, escaping its value.
fn add_attribute(
    tag: &mut BytesStart<'static>,
    key: &str,
    value: &str,
    Ghost(name): Ghost<Seq<char>>,
    Ghost(attributes): Ghost<Seq<(Seq<char>, Seq<char>)>>,
)
    requires
        tag_content(*old(tag)) == tag_text(name, attributes),
    ensures
        tag_content(*final(tag)) == tag_text(name, attributes.push((key@, value@))),
{
    let escaped = xml_escape(value);
    push_attribute(tag, key, escaped.as_str());
    proof {
        assert(attributes.push((key@, value@)).drop_last() == attributes);
    }
}

/// The start tag of a folder, ready to be written.
fn folder_start_tag(folder: &DirectoryRecord) -> (tag: BytesStart<'static>)
    ensures
        folder_open_event(folder@) matches XmlEvent::Open { name, attributes } && tag_content(tag)
            == tag_text(name, attributes),
{
    let ghost name = TAG_FOLDER@;
    let ghost a0 = Seq::<(Seq<char>, Seq<char>)>::empty();
    let ghost a1 = a0.push(("name"@, folder.name@));
    let ghost a2 = a1.push(("created"@, folder.created@));
    let ghost a3 = a2.push(("modified"@, folder.modified@));
    let mut tag = new_tag(TAG_FOLDER);
    add_attribute(&mut tag, "name", folder.name.as_str(), Ghost(name), Ghost(a0));
    add_attribute(&mut tag, "created", folder.created.as_str(), Ghost(name), Ghost(a1));
    add_attribute(&mut tag, "modified", folder.modified.as_str(), Ghost(name), Ghost(a2));
    add_attribute(&mut tag, "accessed", folder.accessed.as_str(), Ghost(name), Ghost(a3));
    proof {
        assert(a3.push(("accessed"@, folder.accessed@)) == folder_open_event(
            folder@,
        )->Open_attributes);
    }
    tag
}

/// A file element, ready to be written.
fn file_tag(file: &FileRecord) -> (tag: BytesStart<'static>)
    ensures
        file_event(file@) matches XmlEvent::Empty { name, attributes } && tag_content(tag)
            == tag_text(name, attributes),
{
    let ghost name = TAG_FILE@;
    let ghost a0 = Seq::<(Seq<char>, Seq<char>)>::empty();
    let ghost a1 = a0.push(("name"@, file.name@));
    let ghost a2 = a1.push(("size"@, decimal(file.size as nat)));
    let ghost a3 = a2.push(("created"@, file.created@));
    let ghost a4 = a3.push(("modified"@, file.modified@));
    let size = decimal_string(file.size);
    let mut tag = new_tag(TAG_FILE);
    add_attribute(&mut tag, "name", file.name.as_str(), Ghost(name), Ghost(a0));
    add_attribute(&mut tag, "size", size.as_str(), Ghost(name), Ghost(a1));
    add_attribute(&mut tag, "created", file.created.as_str(), Ghost(name), Ghost(a2));
    add_attribute(&mut tag, "modified", file.modified.as_str(), Ghost(name), Ghost(a3));
    add_attribute(&mut tag, "accessed", file.accessed.as_str(), Ghost(name), Ghost(a4));
    proof {
        assert(a4.push(("accessed"@, file.accessed@)) == file_event(file@)->Empty_attributes);
    }
    tag
}

/// The label of the size mode.
pub fn size_measure_label(apparent_size: bool) -> (label: &'static str)
    ensures
        label@ == size_measure(apparent_size),
{
    if apparent_size {
        "logical"
    } else {
        "physical"
    }
}

/// The `ScanInfo` start tag, ready to be written.
fn scan_info_tag(
    volume_path: &str,
    volume_size: u64,
    free_space: u64,
    scan_time: &str,
    apparent_size: bool,
) -> (tag: BytesStart<'static>)
    ensures
        scan_info_open_event(
            ScanInfoTag {
                volume_path: volume_path@,
                volume_size,
                free_space,
                scan_time: scan_time@,
                apparent_size,
            },
        ) matches XmlEvent::Open { name, attributes } && tag_content(tag) == tag_text(
            name,
            attributes,
        ),
{
    let ghost name = TAG_SCAN_INFO@;
    let ghost a0 = Seq::<(Seq<char>, Seq<char>)>::empty();
    let ghost a1 = a0.push(("volumePath"@, volume_path@));
    let ghost a2 = a1.push(("volumeSize"@, decimal(volume_size as nat)));
    let ghost a3 = a2.push(("freeSpace"@, decimal(free_space as nat)));
    let ghost a4 = a3.push(("scanTime"@, scan_time@));
    let size = decimal_string(volume_size);
    let free = decimal_string(free_space);
    let mut tag = new_tag(TAG_SCAN_INFO);
    add_attribute(&mut tag, "volumePath", volume_path, Ghost(name), Ghost(a0));
    add_attribute(&mut tag, "volumeSize", size.as_str(), Ghost(name), Ghost(a1));
    add_attribute(&mut tag, "freeSpace", free.as_str(), Ghost(name), Ghost(a2));
    add_attribute(&mut tag, "scanTime", scan_time, Ghost(name), Ghost(a3));
    add_attribute(
        &mut tag,
        "fileSizeMeasure",
        size_measure_label(apparent_size),
        Ghost(name),
        Ghost(a4),
    );
    proof {
        assert(a4.push(("fileSizeMeasure"@, size_measure(apparent_size)))
            == scan_info_open_event(
            ScanInfoTag {
                volume_path: volume_path@,
                volume_size,
                free_space,
                scan_time: scan_time@,
                apparent_size,
            },
        )->Open_attributes);
    }
    tag
}

/// The root element's start tag, ready to be written.
fn root_tag() -> (tag: BytesStart<'static>)
    ensures
        root_open_event() matches XmlEvent::Open { name, attributes } && tag_content(tag)
            == tag_text(name, attributes),
{
    let ghost name = TAG_GRANDPERSPECTIVE_SCAN_DUMP@;
    let ghost a0 = Seq::<(Seq<char>, Seq<char>)>::empty();
    let ghost a1 = a0.push(("appVersion"@, GRANDPERSPECTIVE_APP_VERSION@));
    let mut tag = new_tag(TAG_GRANDPERSPECTIVE_SCAN_DUMP);
    add_attribute(&mut tag, "appVersion", GRANDPERSPECTIVE_APP_VERSION, Ghost(name), Ghost(a0));
    add_attribute(
        &mut tag,
        "formatVersion",
        GRANDPERSPECTIVE_FORMAT_VERSION,
        Ghost(name),
        Ghost(a1),
    );
    proof {
        assert(a1.push(("formatVersion"@, GRANDPERSPECTIVE_FORMAT_VERSION@))
            == root_open_event()->Open_attributes);
    }
    tag
}

impl XmlEmitter {
    /// The events written so far, in order.
    pub closed spec fn events(&self) -> Seq<XmlEvent> {
        self.events@
    }

    /// The folders whose start tags are held back, outermost first.
    pub closed spec fn deferred(&self) -> Seq<FolderTag> {
        self.deferred@.map_values(|r: DirectoryRecord| r@)
    }

    /// The bytes that have been handed out.
    pub closed spec fn taken(&self) -> Seq<u8> {
        self.taken@
    }

    /// The bytes that are written and not yet handed out.
    pub closed spec fn pending(&self) -> Seq<u8> {
        buffered(self.writer)
    }

    /// The number of folders and other elements that are open, those held
    /// back included.
    pub open spec fn nesting(&self) -> nat {
        level_after(self.events()) + self.deferred().len()
    }

    spec fn consistent(&self) -> bool {
        &&& indent_level(self.writer) == Some(level_after(self.events@))
        &&& breaks_line(self.writer) == (self.events@.len() > 0)
        &&& self.taken@ + buffered(self.writer) == encode_utf8(render(self.events@))
        &&& self.level as nat == level_after(self.events@)
    }

    /// The emitter's invariant: the bytes handed out and the bytes pending
    /// are, together, the rendering of the events written.
    pub closed spec fn wf(&self) -> bool {
        &&& self.consistent()
        &&& self.level + self.deferred.len() <= usize::MAX
    }

    /// All bytes produced so far are the UTF-8 encoding of the rendered events.
    pub proof fn lemma_output(&self)
        requires
            self.wf(),
        ensures
            self.taken() + self.pending() == encode_utf8(render(self.events())),
            self.nesting() <= usize::MAX,
    {
    }

    /// An emitter that has written nothing.
    pub fn new() -> (emitter: XmlEmitter)
        ensures
            emitter.wf(),
            emitter.events() == Seq::<XmlEvent>::empty(),
            emitter.deferred() == Seq::<FolderTag>::empty(),
            emitter.taken() == Seq::<u8>::empty(),
            emitter.pending() == Seq::<u8>::empty(),
    {
        let emitter = XmlEmitter {
            writer: new_writer(),
            deferred: Vec::new(),
            level: 0,
            events: Ghost(Seq::empty()),
            taken: Ghost(Seq::empty()),
        };
        proof {
            assert(emitter.deferred() =~= Seq::<FolderTag>::empty());
            assert(encode_utf8(Seq::<char>::empty()) =~= Seq::<u8>::empty());
            assert(Seq::<u8>::empty() + Seq::<u8>::empty() =~= Seq::<u8>::empty());
        }
        emitter
    }

    proof fn lemma_written(self, bytes: Seq<u8>, event: XmlEvent, text: Seq<char>)
        requires
            self.taken@ + bytes == encode_utf8(render(self.events@)),
            text == line_start(self.events@.len() > 0, level_of(level_after(self.events@), event))
                + event_text(event),
        ensures
            self.taken@ + (bytes + encode_utf8(text)) == encode_utf8(
                render(self.events@.push(event)),
            ),
            level_after(self.events@.push(event)) == level_past(level_after(self.events@), event),
    {
        let after = self.events@.push(event);
        assert(after.drop_last() =~= self.events@);
        assert(render(after) == render(self.events@) + text);
        lemma_encode_concat(render(self.events@), text);
        assert(self.taken@ + (bytes + encode_utf8(text)) == (self.taken@ + bytes) + encode_utf8(
            text,
        ));
    }

    fn emit_start(
        &mut self,
        tag: BytesStart<'static>,
        Ghost(name): Ghost<Seq<char>>,
        Ghost(attributes): Ghost<Seq<(Seq<char>, Seq<char>)>>,
    )
        requires
            old(self).consistent(),
            old(self).level < usize::MAX,
            tag_content(tag) == tag_text(name, attributes),
        ensures
            final(self).consistent(),
            final(self).events@ == old(self).events@.push(XmlEvent::Open { name, attributes }),
            final(self).deferred == old(self).deferred,
            final(self).taken == old(self).taken,
            final(self).level == old(self).level + 1,
    {
        let ghost event = XmlEvent::Open { name, attributes };
        let ghost text = line_start(self.events@.len() > 0, level_after(self.events@)) + seq!['<']
            + tag_content(tag) + seq!['>'];
        proof {
            assert(text == line_start(
                self.events@.len() > 0,
                level_of(level_after(self.events@), event),
            ) + event_text(event));
            self.lemma_written(buffered(self.writer), event, text);
        }
        write_start(&mut self.writer, tag);
        self.level = self.level + 1;
        self.events = Ghost(self.events@.push(event));
    }

    fn emit_empty(
        &mut self,
        tag: BytesStart<'static>,
        Ghost(name): Ghost<Seq<char>>,
        Ghost(attributes): Ghost<Seq<(Seq<char>, Seq<char>)>>,
    )
        requires
            old(self).consistent(),
            tag_content(tag) == tag_text(name, attributes),
        ensures
            final(self).consistent(),
            final(self).events@ == old(self).events@.push(XmlEvent::Empty { name, attributes }),
            final(self).deferred == old(self).deferred,
            final(self).taken == old(self).taken,
            final(self).level == old(self).level,
    {
        let ghost event = XmlEvent::Empty { name, attributes };
        let ghost text = line_start(self.events@.len() > 0, level_after(self.events@)) + seq!['<']
            + tag_content(tag) + seq!['/', '>'];
        proof {
            assert(text == line_start(
                self.events@.len() > 0,
                level_of(level_after(self.events@), event),
            ) + event_text(event));
            self.lemma_written(buffered(self.writer), event, text);
        }
        write_empty(&mut self.writer, tag);
        self.events = Ghost(self.events@.push(event));
    }

    fn emit_end(&mut self, name: &str)
        requires
            old(self).consistent(),
        ensures
            final(self).consistent(),
            final(self).events@ == old(self).events@.push(XmlEvent::Close { name: name@ }),
            final(self).deferred == old(self).deferred,
            final(self).taken == old(self).taken,
            final(self).level as nat == level_after_end(old(self).level as nat),
    {
        let ghost event = XmlEvent::Close { name: name@ };
        let ghost text = line_start(
            self.events@.len() > 0,
            level_after_end(level_after(self.events@)),
        ) + seq!['<', '/'] + name@ + seq!['>'];
        proof {
            assert(text == line_start(
                self.events@.len() > 0,
                level_of(level_after(self.events@), event),
            ) + event_text(event));
            self.lemma_written(buffered(self.writer), event, text);
        }
        write_end(&mut self.writer, name);
        if self.level > 0 {
            self.level = self.level - 1;
        }
        self.events = Ghost(self.events@.push(event));
    }

    fn emit_declaration(&mut self)
        requires
            old(self).consistent(),
        ensures
            final(self).consistent(),
            final(self).events@ == old(self).events@.push(XmlEvent::Declaration),
            final(self).deferred == old(self).deferred,
            final(self).taken == old(self).taken,
            final(self).level == old(self).level,
    {
        let ghost event = XmlEvent::Declaration;
        let ghost text = line_start(self.events@.len() > 0, level_after(self.events@))
            + "<?xml version=\""@ + XML_VERSION@ + "\" encoding=\""@ + XML_ENCODING@ + "\"?>"@;
        proof {
            assert(text == line_start(
                self.events@.len() > 0,
                level_of(level_after(self.events@), event),
            ) + event_text(event));
            self.lemma_written(buffered(self.writer), event, text);
        }
        write_declaration(&mut self.writer, XML_VERSION, XML_ENCODING);
        self.events = Ghost(self.events@.push(event));
    }

    fn emit_document_end(&mut self, name: &str)
        requires
            old(self).consistent(),
        ensures
            final(self).consistent(),
            final(self).events@ == old(self).events@.push(XmlEvent::End { name: name@ }),
            final(self).deferred == old(self).deferred,
            final(self).taken == old(self).taken,
            final(self).level as nat == level_after_end(old(self).level as nat),
    {
        let ghost event = XmlEvent::End { name: name@ };
        let ghost close = line_start(
            self.events@.len() > 0,
            level_after_end(level_after(self.events@)),
        ) + seq!['<', '/'] + name@ + seq!['>'];
        let ghost text = close + seq!['\n'];
        proof {
            assert(text == line_start(
                self.events@.len() > 0,
                level_of(level_after(self.events@), event),
            ) + event_text(event));
            self.lemma_written(buffered(self.writer), event, text);
            lemma_encode_concat(close, seq!['\n']);
            assert(encode_utf8(seq!['\n']) =~= seq![10u8]) by {
                assert(seq!['\n'].drop_first() =~= Seq::<char>::empty());
                assert(encode_utf8(seq!['\n'].drop_first()) =~= Seq::<u8>::empty());
                vstd::utf8::is_ascii_chars_encode_utf8(seq!['\n']);
            }
            assert((buffered(self.writer) + encode_utf8(close)).push(10u8) =~= buffered(
                self.writer,
            ) + encode_utf8(text));
        }
        write_end(&mut self.writer, name);
        write_line_feed(&mut self.writer);
        if self.level > 0 {
            self.level = self.level - 1;
        }
        self.events = Ghost(self.events@.push(event));
    }

    /// Writes the start tags that are held back, outermost first.
    fn flush(&mut self)
        requires
            old(self).wf(),
        ensures
            final(self).wf(),
            final(self).events() == old(self).events() + folder_opens(old(self).deferred()),
            final(self).deferred() == Seq::<FolderTag>::empty(),
            final(self).taken() == old(self).taken(),
            final(self).nesting() == old(self).nesting(),
    {
        let n = self.deferred.len();
        let ghost tags = self.deferred();
        let mut i: usize = 0;
        while i < n
            invariant
                self.consistent(),
                self.deferred == old(self).deferred,
                tags == old(self).deferred(),
                n == self.deferred.len(),
                i <= n,
                self.level + (n - i) <= usize::MAX,
                self.level == old(self).level + i,
                self.events@ == old(self).events@ + folder_opens(tags.take(i as int)),
                self.taken == old(self).taken,
            decreases n - i,
        {
            let tag = folder_start_tag(&self.deferred[i]);
            let ghost event = folder_open_event(tags[i as int]);
            proof {
                assert(tags[i as int] == self.deferred[i as int]@);
                assert(folder_opens(tags.take(i + 1)) =~= folder_opens(tags.take(i as int)).push(
                    event,
                ));
            }
            self.emit_start(tag, Ghost(event->Open_name), Ghost(event->Open_attributes));
            i += 1;
        }
        self.deferred.clear();
        proof {
            assert(tags.take(n as int) =~= tags);
            assert(self.deferred() =~= Seq::<FolderTag>::empty());
            lemma_level_after_opens(old(self).events@, tags);
        }
    }

    /// The number of elements that are open, folders held back included.
    pub fn depth(&self) -> (depth: usize)
        requires
            self.wf(),
        ensures
            depth == self.nesting(),
    {
        self.level + self.deferred.len()
    }

    /// Hands out the bytes written since the last call.
    pub fn take_output(&mut self) -> (bytes: Vec<u8>)
        requires
            old(self).wf(),
        ensures
            final(self).wf(),
            bytes@ == old(self).pending(),
            final(self).pending() == Seq::<u8>::empty(),
            final(self).taken() == old(self).taken() + bytes@,
            final(self).events() == old(self).events(),
            final(self).deferred() == old(self).deferred(),
            final(self).nesting() == old(self).nesting(),
    {
        let bytes = take_buffer(&mut self.writer);
        self.taken = Ghost(self.taken@ + bytes@);
        proof {
            assert(self.taken@ + buffered(self.writer) =~= old(self).taken@ + buffered(
                old(self).writer,
            ));
        }
        bytes
    }

    /// Writes the start tag of the `ScanInfo` element.
    pub fn open_scan_info(
        &mut self,
        volume_path: &str,
        volume_size: u64,
        free_space: u64,
        scan_time: &str,
        apparent_size: bool,
    )
        requires
            old(self).wf(),
            old(self).nesting() < usize::MAX,
        ensures
            final(self).wf(),
            final(self).events() == old(self).events() + with_deferred(
                old(self).deferred(),
                seq![
                    scan_info_open_event(
                        ScanInfoTag {
                            volume_path: volume_path@,
                            volume_size,
                            free_space,
                            scan_time: scan_time@,
                            apparent_size,
                        },
                    ),
                ],
            ),
            final(self).deferred() == Seq::<FolderTag>::empty(),
            final(self).taken() == old(self).taken(),
            final(self).nesting() == old(self).nesting() + 1,
    {
        self.flush();
        let tag = scan_info_tag(volume_path, volume_size, free_space, scan_time, apparent_size);
        let ghost event = scan_info_open_event(
            ScanInfoTag {
                volume_path: volume_path@,
                volume_size,
                free_space,
                scan_time: scan_time@,
                apparent_size,
            },
        );
        self.emit_start(tag, Ghost(event->Open_name), Ghost(event->Open_attributes));
        proof {
            assert(self.events@ =~= old(self).events() + with_deferred(
                old(self).deferred(),
                seq![event],
            ));
        }
    }

    /// Announces a folder. Its start tag is written with the first element
    /// inside it, or when it is closed and kept although empty.
    pub fn open_folder(&mut self, folder: DirectoryRecord)
        requires
            old(self).wf(),
            old(self).nesting() < usize::MAX,
        ensures
            final(self).wf(),
            final(self).events() == old(self).events(),
            final(self).deferred() == old(self).deferred().push(folder@),
            final(self).taken() == old(self).taken(),
            final(self).pending() == old(self).pending(),
            final(self).nesting() == old(self).nesting() + 1,
    {
        self.deferred.push(folder);
        proof {
            assert(self.deferred() =~= old(self).deferred().push(folder@));
        }
    }

    /// Writes a `File` element, after the start tags that were held back.
    pub fn write_file(&mut self, file: &FileRecord)
        requires
            old(self).wf(),
        ensures
            final(self).wf(),
            final(self).events() == old(self).events() + with_deferred(
                old(self).deferred(),
                seq![file_event(file@)],
            ),
            final(self).deferred() == Seq::<FolderTag>::empty(),
            final(self).taken() == old(self).taken(),
            final(self).nesting() == old(self).nesting(),
    {
        self.flush();
        let tag = file_tag(file);
        let ghost event = file_event(file@);
        self.emit_empty(tag, Ghost(event->Empty_name), Ghost(event->Empty_attributes));
        proof {
            assert(self.events@ =~= old(self).events() + with_deferred(
                old(self).deferred(),
                seq![event],
            ));
        }
    }

    /// Closes the innermost folder. If its start tag is still held back, the
    /// folder has no content: it is then written as an empty element pair
    /// when `keep_empty` is set, and dropped otherwise.
    pub fn close_folder(&mut self, keep_empty: bool)
        requires
            old(self).wf(),
        ensures
            final(self).wf(),
            final(self).taken() == old(self).taken(),
            final(self).nesting() == level_after_end(old(self).nesting()),
            old(self).deferred().len() > 0 && !keep_empty ==> {
                &&& final(self).events() == old(self).events()
                &&& final(self).deferred() == old(self).deferred().drop_last()
                &&& final(self).pending() == old(self).pending()
            },
            old(self).deferred().len() == 0 || keep_empty ==> {
                &&& final(self).events() == old(self).events() + with_deferred(
                    old(self).deferred(),
                    seq![folder_close_event()],
                )
                &&& final(self).deferred() == Seq::<FolderTag>::empty()
            },
    {
        if self.deferred.len() > 0 && !keep_empty {
            self.deferred.pop();
            proof {
                assert(self.deferred() =~= old(self).deferred().drop_last());
            }
        } else {
            self.flush();
            self.emit_end(TAG_FOLDER);
            proof {
                assert(self.events@ =~= old(self).events() + with_deferred(
                    old(self).deferred(),
                    seq![folder_close_event()],
                ));
            }
        }
    }

    /// Writes the end tag of the `ScanInfo` element.
    pub fn close_scan_info(&mut self)
        requires
            old(self).wf(),
        ensures
            final(self).wf(),
            final(self).events() == old(self).events() + with_deferred(
                old(self).deferred(),
                seq![scan_info_close_event()],
            ),
            final(self).deferred() == Seq::<FolderTag>::empty(),
            final(self).taken() == old(self).taken(),
            final(self).nesting() == level_after_end(old(self).nesting()),
    {
        self.flush();
        self.emit_end(TAG_SCAN_INFO);
        proof {
            assert(self.events@ =~= old(self).events() + with_deferred(
                old(self).deferred(),
                seq![scan_info_close_event()],
            ));
        }
    }

    /// Writes the end tag of the root element and the final line feed.
    pub fn close_root(&mut self)
        requires
            old(self).wf(),
        ensures
            final(self).wf(),
            final(self).events() == old(self).events() + with_deferred(
                old(self).deferred(),
                seq![root_close_event()],
            ),
            final(self).deferred() == Seq::<FolderTag>::empty(),
            final(self).taken() == old(self).taken(),
            final(self).nesting() == level_after_end(old(self).nesting()),
    {
        self.flush();
        self.emit_document_end(TAG_GRANDPERSPECTIVE_SCAN_DUMP);
        proof {
            assert(self.events@ =~= old(self).events() + with_deferred(
                old(self).deferred(),
                seq![root_close_event()],
            ));
        }
    }
}

/// Writes the XML declaration and the start tag of the root element.
pub fn output_xml_header(writer: &mut XmlEmitter)
    requires
        old(writer).wf(),
        old(writer).nesting() < usize::MAX,
    ensures
        final(writer).wf(),
        final(writer).events() == old(writer).events() + with_deferred(
            old(writer).deferred(),
            seq![XmlEvent::Declaration, root_open_event()],
        ),
        final(writer).deferred() == Seq::<FolderTag>::empty(),
        final(writer).taken() == old(writer).taken(),
        final(writer).nesting() == old(writer).nesting() + 1,
{
    writer.flush();
    writer.emit_declaration();
    let tag = root_tag();
    let ghost event = root_open_event();
    writer.emit_start(tag, Ghost(event->Open_name), Ghost(event->Open_attributes));
    proof {
        assert(writer.events@ =~= old(writer).events() + with_deferred(
            old(writer).deferred(),
            seq![XmlEvent::Declaration, root_open_event()],
        ));
    }
}

/// A formatted time, or the epoch where there is none.
pub open spec fn text_or_epoch(formatted: Option<Seq<char>>) -> Seq<char> {
    match formatted {
        Some(text) => text,
        None => DEFAULT_DATETIME@,
    }
}

/// The text of a timestamp: its date and time in UTC, or the epoch where the
/// filesystem supplied no time or one that the calendar cannot represent.
pub open spec fn time_text(time: Option<i64>) -> Seq<char> {
    match time {
        Some(seconds) => text_or_epoch(utc_date_time(seconds)),
        None => DEFAULT_DATETIME@,
    }
}

/// The formatted time if there is one, else the epoch.
pub fn formatted_or_epoch(formatted: Option<String>) -> (text: String)
    ensures
        text@ == text_or_epoch(
            match formatted {
                Some(t) => Some(t@),
                None => None,
            },
        ),
{
    match formatted {
        Some(text) => text,
        None => DEFAULT_DATETIME.to_owned(),
    }
}

/// Formats a timestamp, in seconds since the Unix epoch, as
/// `YYYY-MM-DDTHH:MM:SSZ`; a missing timestamp gives the epoch.
pub fn format_system_time(sys_time: Option<i64>) -> (text: String)
    ensures
        text@ == time_text(sys_time),
{
    match sys_time {
        Some(seconds) => formatted_or_epoch(format_utc(seconds)),
        None => DEFAULT_DATETIME.to_owned(),
    }
}

/// Retrieves creation, modification, and access times from metadata.
pub fn get_file_times(metadata: &EntryMetadata) -> (times: (String, String, String))
    ensures
        times.0@ == time_text(metadata.created()),
        times.1@ == time_text(metadata.modified()),
        times.2@ == time_text(metadata.accessed()),
{
    let (created, modified, accessed) = metadata.times();
    (format_system_time(created), format_system_time(modified), format_system_time(accessed))
}

} // verus!
