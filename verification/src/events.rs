//! The document as a sequence of events, and the text that the events are
//! written as.

use vstd::prelude::*;
use crate::text::decimal;
use crate::writer::{level_after_end, line_start};
use crate::xml::escape_text;
use crate::xml_output::{
    GRANDPERSPECTIVE_APP_VERSION, GRANDPERSPECTIVE_FORMAT_VERSION, TAG_FILE, TAG_FOLDER,
    TAG_GRANDPERSPECTIVE_SCAN_DUMP, TAG_SCAN_INFO, XML_ENCODING, XML_VERSION,
};

verus! {

/// One step of the document, as the emitter writes it. Attribute values are
/// held as given; they are escaped when the event is rendered.
pub enum XmlEvent {
    /// The XML declaration.
    Declaration,
    /// A start tag.
    Open { name: Seq<char>, attributes: Seq<(Seq<char>, Seq<char>)> },
    /// An element without content.
    Empty { name: Seq<char>, attributes: Seq<(Seq<char>, Seq<char>)> },
    /// An end tag.
    Close { name: Seq<char> },
    /// The end tag of the document, followed by the final line feed.
    End { name: Seq<char> },
}

/// One attribute as written: a space, the key, and the escaped value in
/// double quotes.
pub open spec fn attribute_text(attribute: (Seq<char>, Seq<char>)) -> Seq<char> {
    seq![' '] + attribute.0 + seq!['=', '"'] + escape_text(attribute.1) + seq!['"']
}

/// The inside of a tag: the element's name, then its attributes in order.
pub open spec fn tag_text(name: Seq<char>, attributes: Seq<(Seq<char>, Seq<char>)>) -> Seq<char>
    decreases attributes.len(),
{
    if attributes.len() == 0 {
        name
    } else {
        tag_text(name, attributes.drop_last()) + attribute_text(attributes.last())
    }
}

/// The text of one event, without what precedes it on its line.
pub open spec fn event_text(event: XmlEvent) -> Seq<char> {
    match event {
        XmlEvent::Declaration => "<?xml version=\""@ + XML_VERSION@ + "\" encoding=\""@
            + XML_ENCODING@ + "\"?>"@,
        XmlEvent::Open { name, attributes } => seq!['<'] + tag_text(name, attributes) + seq!['>'],
        XmlEvent::Empty { name, attributes } => seq!['<'] + tag_text(name, attributes) + seq![
            '/',
            '>',
        ],
        XmlEvent::Close { name } => seq!['<', '/'] + name + seq!['>'],
        XmlEvent::End { name } => seq!['<', '/'] + name + seq!['>', '\n'],
    }
}

/// The nesting level that an event leaves behind, given the level before it.
pub open spec fn level_past(level: nat, event: XmlEvent) -> nat {
    match event {
        XmlEvent::Open { .. } => level + 1,
        XmlEvent::Close { .. } | XmlEvent::End { .. } => level_after_end(level),
        _ => level,
    }
}

/// The nesting level at which an event is written, given the level before
/// it: an end tag stands at the level of its start tag.
pub open spec fn level_of(level: nat, event: XmlEvent) -> nat {
    match event {
        XmlEvent::Close { .. } | XmlEvent::End { .. } => level_after_end(level),
        _ => level,
    }
}

/// The nesting level after `events`, from the level before them.
pub open spec fn level_from(level: nat, events: Seq<XmlEvent>) -> nat
    decreases events.len(),
{
    if events.len() == 0 {
        level
    } else {
        level_past(level_from(level, events.drop_last()), events.last())
    }
}

/// The text of `events`, written at nesting level `level`, after other
/// events if `started` is set: each event starts a new line, indented by
/// one space per nesting level; only the first event of a document stands
/// on the line that is there.
pub open spec fn render_from(level: nat, started: bool, events: Seq<XmlEvent>) -> Seq<char>
    decreases events.len(),
{
    if events.len() == 0 {
        Seq::empty()
    } else {
        let before = events.drop_last();
        render_from(level, started, before) + line_start(
            started || before.len() > 0,
            level_of(level_from(level, before), events.last()),
        ) + event_text(events.last())
    }
}

/// The nesting level after the events of a document.
pub open spec fn level_after(events: Seq<XmlEvent>) -> nat {
    level_from(0, events)
}

/// The document text of a sequence of events.
pub open spec fn render(events: Seq<XmlEvent>) -> Seq<char> {
    render_from(0, false, events)
}

/// The level and the text of a single event.
pub proof fn lemma_render_one(level: nat, started: bool, event: XmlEvent)
    ensures
        level_from(level, seq![event]) == level_past(level, event),
        render_from(level, started, seq![event]) == line_start(started, level_of(level, event))
            + event_text(event),
{
    let one = seq![event];
    assert(one.drop_last() =~= Seq::<XmlEvent>::empty());
    assert(level_from(level, one.drop_last()) == level);
    assert(render_from(level, started, one.drop_last()) =~= Seq::<char>::empty());
    assert(render_from(level, started, one) =~= line_start(started, level_of(level, event))
        + event_text(event));
}

/// The inside of a tag with one more attribute.
pub proof fn lemma_tag_text_push(
    name: Seq<char>,
    attributes: Seq<(Seq<char>, Seq<char>)>,
    attribute: (Seq<char>, Seq<char>),
)
    ensures
        tag_text(name, attributes.push(attribute)) == tag_text(name, attributes) + attribute_text(
            attribute,
        ),
{
    assert(attributes.push(attribute).drop_last() =~= attributes);
}

/// The text of two runs of events is the text of the first and the text of
/// the second, written at the level that the first leaves behind.
pub proof fn lemma_render_concat(level: nat, started: bool, a: Seq<XmlEvent>, b: Seq<XmlEvent>)
    ensures
        level_from(level, a + b) == level_from(level_from(level, a), b),
        render_from(level, started, a + b) == render_from(level, started, a) + render_from(
            level_from(level, a),
            started || a.len() > 0,
            b,
        ),
    decreases b.len(),
{
    if b.len() == 0 {
        assert(a + b =~= a);
        assert(render_from(level, started, a) + Seq::<char>::empty() =~= render_from(
            level,
            started,
            a,
        ));
    } else {
        assert((a + b).drop_last() =~= a + b.drop_last());
        lemma_render_concat(level, started, a, b.drop_last());
        let first = render_from(level, started, a);
        let second = render_from(level_from(level, a), started || a.len() > 0, b.drop_last());
        let last = line_start(
            started || (a + b).drop_last().len() > 0,
            level_of(level_from(level, (a + b).drop_last()), b.last()),
        ) + event_text(b.last());
        assert(first + second + last =~= first + (second + last));
        assert(render_from(level, started, a + b) =~= first + second + last);
        assert(render_from(level_from(level, a), started || a.len() > 0, b) =~= second + last);
    }
}

/// What a `Folder` start tag shows.
pub struct FolderTag {
    pub name: Seq<char>,
    pub created: Seq<char>,
    pub modified: Seq<char>,
    pub accessed: Seq<char>,
}

/// What is known of an emitted file: what its `File` element shows, and
/// the inode identity under which it was recorded, which is not shown.
pub struct FileTag {
    pub name: Seq<char>,
    pub size: u64,
    pub created: Seq<char>,
    pub modified: Seq<char>,
    pub accessed: Seq<char>,
    pub inode: u64,
}

/// What the `ScanInfo` start tag shows.
pub struct ScanInfoTag {
    pub volume_path: Seq<char>,
    pub volume_size: u64,
    pub free_space: u64,
    pub scan_time: Seq<char>,
    pub apparent_size: bool,
}

/// The label of the size mode: `logical` for apparent sizes, `physical` for
/// sizes on disk.
pub open spec fn size_measure(apparent_size: bool) -> Seq<char> {
    if apparent_size {
        "logical"@
    } else {
        "physical"@
    }
}

/// The start tag of the document's root element, with the format identifiers.
pub open spec fn root_open_event() -> XmlEvent {
    XmlEvent::Open {
        name: TAG_GRANDPERSPECTIVE_SCAN_DUMP@,
        attributes: seq![
            ("appVersion"@, GRANDPERSPECTIVE_APP_VERSION@),
            ("formatVersion"@, GRANDPERSPECTIVE_FORMAT_VERSION@),
        ],
    }
}

/// The start tag of the `ScanInfo` element.
pub open spec fn scan_info_open_event(info: ScanInfoTag) -> XmlEvent {
    XmlEvent::Open {
        name: TAG_SCAN_INFO@,
        attributes: seq![
            ("volumePath"@, info.volume_path),
            ("volumeSize"@, decimal(info.volume_size as nat)),
            ("freeSpace"@, decimal(info.free_space as nat)),
            ("scanTime"@, info.scan_time),
            ("fileSizeMeasure"@, size_measure(info.apparent_size)),
        ],
    }
}

/// The start tag of a `Folder` element.
pub open spec fn folder_open_event(folder: FolderTag) -> XmlEvent {
    XmlEvent::Open {
        name: TAG_FOLDER@,
        attributes: seq![
            ("name"@, folder.name),
            ("created"@, folder.created),
            ("modified"@, folder.modified),
            ("accessed"@, folder.accessed),
        ],
    }
}

/// A `File` element.
pub open spec fn file_event(file: FileTag) -> XmlEvent {
    XmlEvent::Empty {
        name: TAG_FILE@,
        attributes: seq![
            ("name"@, file.name),
            ("size"@, decimal(file.size as nat)),
            ("created"@, file.created),
            ("modified"@, file.modified),
            ("accessed"@, file.accessed),
        ],
    }
}

/// The end tag of a `Folder` element.
pub open spec fn folder_close_event() -> XmlEvent {
    XmlEvent::Close { name: TAG_FOLDER@ }
}

/// The end tag of the `ScanInfo` element.
pub open spec fn scan_info_close_event() -> XmlEvent {
    XmlEvent::Close { name: TAG_SCAN_INFO@ }
}

/// The end of the document.
pub open spec fn root_close_event() -> XmlEvent {
    XmlEvent::End { name: TAG_GRANDPERSPECTIVE_SCAN_DUMP@ }
}

/// The start tags of the given folders, outermost first.
pub open spec fn folder_opens(folders: Seq<FolderTag>) -> Seq<XmlEvent> {
    Seq::new(folders.len(), |i: int| folder_open_event(folders[i]))
}

/// The events after writing `events` through an emitter that holds back the
/// start tags of `deferred`: the start tags come first.
pub open spec fn with_deferred(deferred: Seq<FolderTag>, events: Seq<XmlEvent>) -> Seq<XmlEvent> {
    folder_opens(deferred) + events
}

/// The events written after `new` has passed through an emitter that had
/// written `events` and held back `deferred`: nothing changes where `new` is
/// empty, else the start tags that were held back precede `new`.
pub open spec fn events_after(
    events: Seq<XmlEvent>,
    deferred: Seq<FolderTag>,
    new: Seq<XmlEvent>,
) -> Seq<XmlEvent> {
    if new.len() == 0 {
        events
    } else {
        events + with_deferred(deferred, new)
    }
}

/// The folders still held back after `new` has passed through an emitter
/// that held back `deferred`.
pub open spec fn deferred_after(deferred: Seq<FolderTag>, new: Seq<XmlEvent>) -> Seq<FolderTag> {
    if new.len() == 0 {
        deferred
    } else {
        Seq::empty()
    }
}

/// Passing `a` and then `b` through an emitter is passing `a + b` through it.
pub proof fn lemma_events_after_concat(
    events: Seq<XmlEvent>,
    deferred: Seq<FolderTag>,
    a: Seq<XmlEvent>,
    b: Seq<XmlEvent>,
)
    ensures
        events_after(events_after(events, deferred, a), deferred_after(deferred, a), b)
            == events_after(events, deferred, a + b),
        deferred_after(deferred_after(deferred, a), b) == deferred_after(deferred, a + b),
{
    if a.len() == 0 {
        assert(a + b =~= b);
    } else if b.len() == 0 {
        assert(a + b =~= a);
    } else {
        assert(folder_opens(Seq::<FolderTag>::empty()) =~= Seq::<XmlEvent>::empty());
        assert(events + with_deferred(deferred, a) + with_deferred(Seq::<FolderTag>::empty(), b)
            =~= events + with_deferred(deferred, a + b));
    }
}

/// The nesting level after a run of folder start tags.
pub proof fn lemma_level_after_opens(events: Seq<XmlEvent>, folders: Seq<FolderTag>)
    ensures
        level_after(events + folder_opens(folders)) == level_after(events) + folders.len(),
    decreases folders.len(),
{
    if folders.len() == 0 {
        assert(events + folder_opens(folders) =~= events);
    } else {
        let all = events + folder_opens(folders);
        assert(all.drop_last() =~= events + folder_opens(folders.drop_last()));
        assert(all.last() == folder_open_event(folders.last()));
        lemma_level_after_opens(events, folders.drop_last());
    }
}

} // verus!
