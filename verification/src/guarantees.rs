//! What holds of every scan, whatever the tree.

use vstd::prelude::*;
use crate::events::{
    attribute_text, event_text, folder_close_event, folder_open_event, lemma_render_concat,
    lemma_render_one, lemma_tag_text_push, level_from, render, render_from, root_close_event,
    root_open_event, scan_info_close_event, scan_info_open_event, size_measure, tag_text,
    ScanInfoTag, XmlEvent,
};
use crate::filesystem::{document_events, document_head, document_tail};
use crate::options::ScanOptions;
use crate::order::{
    lemma_lex_irreflexive, lemma_lex_transitive, lemma_name_order, lex_lt, name_order, ordered,
    precedes,
};
use crate::platform::{EntryMetadata, MetadataExtOps};
use crate::scan::{
    enters, file_positions, file_scan, files_scan, folder_positions, folder_scan, folder_tag,
    item_event, item_events, lemma_item_events_concat, positions_of, subfolders_scan, ScanItem,
};
use crate::text::decimal;
use crate::tree::{listing, name_keys, Directory, DirectoryEntry, Node};
use crate::writer::line_start;
use crate::xml::{escape_text, is_attribute_safe, lemma_escape_text_is_safe};
use crate::xml_output::TAG_SCAN_INFO;

verus! {

/// The inode identity under which an item was recorded: that of an emitted
/// file, and zero, which is no identity, for any other item.
pub open spec fn identity(item: ScanItem) -> u64 {
    match item {
        ScanItem::File(file) => file.inode,
        _ => 0,
    }
}

/// Whether an item is an emitted file of size zero.
pub open spec fn is_zero_file(item: ScanItem) -> bool {
    item matches ScanItem::File(file) && file.size == 0
}

/// What holds of the files among scanned items, given the identities seen
/// before and after: nothing seen is forgotten; no file of size zero is
/// emitted unless such files are included; and every emitted file that has
/// an identity was not seen before, is seen after, and shares its identity
/// with no other emitted file.
pub open spec fn files_are_sound(
    items: Seq<ScanItem>,
    options: ScanOptions,
    before: Set<u64>,
    after: Set<u64>,
) -> bool {
    &&& before.subset_of(after)
    &&& forall|i: int|
        0 <= i < items.len() && is_zero_file(#[trigger] items[i]) ==> options.include_zero_files
    &&& forall|i: int|
        0 <= i < items.len() && identity(#[trigger] items[i]) != 0 ==> !before.contains(
            identity(items[i]),
        ) && after.contains(identity(items[i]))
    &&& forall|i: int, j: int|
        0 <= i < j < items.len() && identity(#[trigger] items[i]) != 0 ==> identity(items[i])
            != identity(#[trigger] items[j])
}

/// Soundness carries over a concatenation of scans.
pub proof fn lemma_sound_concat(
    a: Seq<ScanItem>,
    b: Seq<ScanItem>,
    options: ScanOptions,
    start: Set<u64>,
    middle: Set<u64>,
    end: Set<u64>,
)
    requires
        files_are_sound(a, options, start, middle),
        files_are_sound(b, options, middle, end),
    ensures
        files_are_sound(a + b, options, start, end),
{
    let all = a + b;
    assert forall|i: int| 0 <= i < all.len() implies (is_zero_file(#[trigger] all[i])
        ==> options.include_zero_files) && (identity(all[i]) != 0 ==> !start.contains(
        identity(all[i]),
    ) && end.contains(identity(all[i]))) by {
        if i < a.len() {
            assert(all[i] == a[i]);
        } else {
            assert(all[i] == b[i - a.len()]);
        }
    }
    assert forall|i: int, j: int|
        0 <= i < j < all.len() && identity(#[trigger] all[i]) != 0 implies identity(all[i])
        != identity(#[trigger] all[j]) by {
        if j < a.len() {
            assert(all[i] == a[i] && all[j] == a[j]);
        } else if i >= a.len() {
            assert(all[i] == b[i - a.len()] && all[j] == b[j - a.len()]);
        } else {
            assert(all[i] == a[i] && all[j] == b[j - a.len()]);
            if identity(all[j]) != 0 {
                assert(!middle.contains(identity(all[j])));
            }
        }
    }
}

/// The scan of one file is sound.
pub proof fn lemma_file_scan_sound(
    name: Seq<char>,
    metadata: EntryMetadata,
    options: ScanOptions,
    seen: Set<u64>,
)
    ensures
        files_are_sound(
            file_scan(name, metadata, options, seen).items,
            options,
            seen,
            file_scan(name, metadata, options, seen).seen,
        ),
{
}

/// The scan of a run of files is sound.
pub proof fn lemma_files_scan_sound(
    entries: Seq<DirectoryEntry>,
    positions: Seq<usize>,
    count: nat,
    options: ScanOptions,
    seen: Set<u64>,
)
    ensures
        files_are_sound(
            files_scan(entries, positions, count, options, seen).items,
            options,
            seen,
            files_scan(entries, positions, count, options, seen).seen,
        ),
    decreases count,
{
    if count == 0 || count > positions.len() {
    } else {
        let before = files_scan(entries, positions, (count - 1) as nat, options, seen);
        lemma_files_scan_sound(entries, positions, (count - 1) as nat, options, seen);
        let position = positions[count - 1] as int;
        if 0 <= position < entries.len() {
            match entries[position].node {
                Node::File(metadata) => {
                    let file = file_scan(entries[position].name@, metadata, options, before.seen);
                    lemma_file_scan_sound(entries[position].name@, metadata, options, before.seen);
                    lemma_sound_concat(
                        before.items,
                        file.items,
                        options,
                        seen,
                        before.seen,
                        file.seen,
                    );
                },
                _ => {},
            }
        }
    }
}

/// In the scan of a directory and all below it, no file of size zero is
/// emitted unless such files are included, and no two emitted files share
/// an inode identity other than the sentinel zero: of the hard links to one
/// content, at most one is emitted. The identities seen before the scan are
/// kept, and those of the emitted files are new.
pub proof fn lemma_folder_scan_sound(
    dir: Directory,
    is_root: bool,
    root_dev: u64,
    options: ScanOptions,
    seen: Set<u64>,
)
    ensures
        files_are_sound(
            folder_scan(dir, is_root, root_dev, options, seen).items,
            options,
            seen,
            folder_scan(dir, is_root, root_dev, options, seen).seen,
        ),
    decreases dir, 1nat, 0nat,
{
    if enters(dir, root_dev, options) {
        let entries = listing(dir);
        let files = file_positions(entries);
        let folders = folder_positions(entries);
        let first = files_scan(entries, files, files.len(), options, seen);
        let second = subfolders_scan(dir, folders, folders.len(), root_dev, options, first.seen);
        lemma_files_scan_sound(entries, files, files.len(), options, seen);
        lemma_subfolders_scan_sound(dir, folders, folders.len(), root_dev, options, first.seen);
        lemma_sound_concat(first.items, second.items, options, seen, first.seen, second.seen);
        let body = first.items + second.items;
        let open = seq![ScanItem::FolderOpen(folder_tag(dir.path@, dir.metadata->0, is_root))];
        let close = seq![ScanItem::FolderClose];
        assert(files_are_sound(open, options, seen, seen));
        assert(files_are_sound(close, options, second.seen, second.seen));
        lemma_sound_concat(open, body, options, seen, seen, second.seen);
        lemma_sound_concat(open + body, close, options, seen, second.seen, second.seen);
    }
}

/// The scan of a run of subdirectories is sound.
pub proof fn lemma_subfolders_scan_sound(
    dir: Directory,
    positions: Seq<usize>,
    count: nat,
    root_dev: u64,
    options: ScanOptions,
    seen: Set<u64>,
)
    ensures
        files_are_sound(
            subfolders_scan(dir, positions, count, root_dev, options, seen).items,
            options,
            seen,
            subfolders_scan(dir, positions, count, root_dev, options, seen).seen,
        ),
    decreases dir, 0nat, count,
{
    if count == 0 || count > positions.len() {
    } else {
        let before = subfolders_scan(dir, positions, (count - 1) as nat, root_dev, options, seen);
        lemma_subfolders_scan_sound(dir, positions, (count - 1) as nat, root_dev, options, seen);
        let position = positions[count - 1] as int;
        if 0 <= position < listing(dir).len() {
            match listing(dir)[position].node {
                Node::Directory(sub) => {
                    let folder = folder_scan(sub, false, root_dev, options, before.seen);
                    lemma_folder_scan_sound(sub, false, root_dev, options, before.seen);
                    lemma_sound_concat(
                        before.items,
                        folder.items,
                        options,
                        seen,
                        before.seen,
                        folder.seen,
                    );
                },
                _ => {},
            }
        }
    }
}

/// The names of the elements that are open after `events`, innermost last,
/// starting from the elements `open`; `None` if an end tag does not close
/// the innermost open element.
pub open spec fn open_elements(open: Seq<Seq<char>>, events: Seq<XmlEvent>) -> Option<
    Seq<Seq<char>>,
>
    decreases events.len(),
{
    if events.len() == 0 {
        Some(open)
    } else {
        match open_elements(open, events.drop_last()) {
            None => None,
            Some(still) => open_after(still, events.last()),
        }
    }
}

/// The open elements after one event: a start tag opens its element, an end
/// tag closes the innermost open element if that has its name.
pub open spec fn open_after(open: Seq<Seq<char>>, event: XmlEvent) -> Option<Seq<Seq<char>>> {
    match event {
        XmlEvent::Open { name, attributes } => Some(open.push(name)),
        XmlEvent::Close { name } | XmlEvent::End { name } => if open.len() > 0 && open.last()
            == name {
            Some(open.drop_last())
        } else {
            None
        },
        _ => Some(open),
    }
}

/// The open elements after a single event.
pub proof fn lemma_open_elements_one(open: Seq<Seq<char>>, event: XmlEvent)
    ensures
        open_elements(open, seq![event]) == open_after(open, event),
{
    assert(seq![event].drop_last() =~= Seq::<XmlEvent>::empty());
    assert(open_elements(open, seq![event].drop_last()) == Some(open));
}

/// Events are balanced if they close every element that they open, in the
/// reverse order, and no other: whatever is open before them is open after
/// them.
pub open spec fn balanced(events: Seq<XmlEvent>) -> bool {
    forall|open: Seq<Seq<char>>| #[trigger] open_elements(open, events) == Some(open)
}

/// A document is well nested if its events, from no open element, leave no
/// element open.
pub open spec fn well_nested(events: Seq<XmlEvent>) -> bool {
    open_elements(Seq::empty(), events) == Some(Seq::<Seq<char>>::empty())
}

/// The open elements after two runs of events are those after the second,
/// starting from those after the first.
pub proof fn lemma_open_elements_concat(open: Seq<Seq<char>>, a: Seq<XmlEvent>, b: Seq<XmlEvent>)
    ensures
        open_elements(open, a + b) == match open_elements(open, a) {
            Some(still) => open_elements(still, b),
            None => None,
        },
    decreases b.len(),
{
    if b.len() == 0 {
        assert(a + b =~= a);
    } else {
        assert((a + b).drop_last() =~= a + b.drop_last());
        lemma_open_elements_concat(open, a, b.drop_last());
    }
}

/// Two balanced runs make a balanced run.
pub proof fn lemma_balanced_concat(a: Seq<XmlEvent>, b: Seq<XmlEvent>)
    requires
        balanced(a),
        balanced(b),
    ensures
        balanced(a + b),
{
    assert forall|open: Seq<Seq<char>>| #[trigger] open_elements(open, a + b) == Some(open) by {
        lemma_open_elements_concat(open, a, b);
        assert(open_elements(open, a) == Some(open));
        assert(open_elements(open, b) == Some(open));
    }
}

/// A balanced run between the start tag and the end tag of an element is
/// balanced.
pub proof fn lemma_balanced_element(
    name: Seq<char>,
    attributes: Seq<(Seq<char>, Seq<char>)>,
    body: Seq<XmlEvent>,
)
    requires
        balanced(body),
    ensures
        balanced(seq![XmlEvent::Open { name, attributes }] + body + seq![XmlEvent::Close { name }]),
{
    let start = seq![XmlEvent::Open { name, attributes }];
    let end = seq![XmlEvent::Close { name }];
    assert forall|open: Seq<Seq<char>>| #[trigger]
        open_elements(open, start + body + end) == Some(open) by {
        lemma_open_elements_concat(open, start + body, end);
        lemma_open_elements_concat(open, start, body);
        lemma_open_elements_one(open, start[0]);
        assert(open_elements(open.push(name), body) == Some(open.push(name)));
        lemma_open_elements_one(open.push(name), end[0]);
        assert(open.push(name).drop_last() =~= open);
    }
}

/// The events of the files of a directory are balanced.
pub proof fn lemma_files_balanced(
    entries: Seq<DirectoryEntry>,
    positions: Seq<usize>,
    count: nat,
    options: ScanOptions,
    seen: Set<u64>,
)
    ensures
        balanced(item_events(files_scan(entries, positions, count, options, seen).items)),
    decreases count,
{
    let scan = files_scan(entries, positions, count, options, seen);
    if count == 0 || count > positions.len() {
        assert(item_events(scan.items) =~= Seq::<XmlEvent>::empty());
    } else {
        let before = files_scan(entries, positions, (count - 1) as nat, options, seen);
        lemma_files_balanced(entries, positions, (count - 1) as nat, options, seen);
        let position = positions[count - 1] as int;
        if 0 <= position < entries.len() {
            match entries[position].node {
                Node::File(metadata) => {
                    let file = file_scan(entries[position].name@, metadata, options, before.seen);
                    lemma_item_events_concat(before.items, file.items);
                    let events = item_events(file.items);
                    assert(balanced(events)) by {
                        if file.items.len() == 0 {
                            assert(events =~= Seq::<XmlEvent>::empty());
                        } else {
                            assert(events =~= seq![item_event(file.items[0])]);
                            assert forall|open: Seq<Seq<char>>| #[trigger]
                                open_elements(open, events) == Some(open) by {
                                lemma_open_elements_one(open, item_event(file.items[0]));
                            }
                        }
                    }
                    lemma_balanced_concat(item_events(before.items), events);
                },
                _ => {},
            }
        }
    }
}

/// The events of the scan of a directory and all below it are balanced:
/// every folder that is opened is closed, inside the folder that holds it.
pub proof fn lemma_folder_balanced(
    dir: Directory,
    is_root: bool,
    root_dev: u64,
    options: ScanOptions,
    seen: Set<u64>,
)
    ensures
        balanced(item_events(folder_scan(dir, is_root, root_dev, options, seen).items)),
    decreases dir, 1nat, 0nat,
{
    let scan = folder_scan(dir, is_root, root_dev, options, seen);
    if enters(dir, root_dev, options) {
        let entries = listing(dir);
        let files = file_positions(entries);
        let folders = folder_positions(entries);
        let first = files_scan(entries, files, files.len(), options, seen);
        let second = subfolders_scan(dir, folders, folders.len(), root_dev, options, first.seen);
        let body = first.items + second.items;
        lemma_files_balanced(entries, files, files.len(), options, seen);
        lemma_subfolders_balanced(dir, folders, folders.len(), root_dev, options, first.seen);
        lemma_item_events_concat(first.items, second.items);
        lemma_balanced_concat(item_events(first.items), item_events(second.items));
        if body.len() == 0 && !options.include_empty_folders {
            assert(item_events(scan.items) =~= Seq::<XmlEvent>::empty());
        } else {
            let tag = folder_tag(dir.path@, dir.metadata->0, is_root);
            let open = folder_open_event(tag);
            lemma_balanced_element(open->Open_name, open->Open_attributes, item_events(body));
            assert(item_events(scan.items) =~= seq![open] + item_events(body) + seq![
                folder_close_event(),
            ]);
        }
    } else {
        assert(item_events(scan.items) =~= Seq::<XmlEvent>::empty());
    }
}

/// The events of the subdirectories of a directory are balanced.
pub proof fn lemma_subfolders_balanced(
    dir: Directory,
    positions: Seq<usize>,
    count: nat,
    root_dev: u64,
    options: ScanOptions,
    seen: Set<u64>,
)
    ensures
        balanced(
            item_events(subfolders_scan(dir, positions, count, root_dev, options, seen).items),
        ),
    decreases dir, 0nat, count,
{
    let scan = subfolders_scan(dir, positions, count, root_dev, options, seen);
    if count == 0 || count > positions.len() {
        assert(item_events(scan.items) =~= Seq::<XmlEvent>::empty());
    } else {
        let before = subfolders_scan(dir, positions, (count - 1) as nat, root_dev, options, seen);
        lemma_subfolders_balanced(dir, positions, (count - 1) as nat, root_dev, options, seen);
        let position = positions[count - 1] as int;
        if 0 <= position < listing(dir).len() {
            match listing(dir)[position].node {
                Node::Directory(sub) => {
                    let folder = folder_scan(sub, false, root_dev, options, before.seen);
                    lemma_folder_balanced(sub, false, root_dev, options, before.seen);
                    lemma_item_events_concat(before.items, folder.items);
                    lemma_balanced_concat(item_events(before.items), item_events(folder.items));
                },
                _ => {},
            }
        }
    }
}

/// The document of any tree is well nested: it begins with the
/// declaration, and every element that it opens, it closes, innermost
/// first; the last event closes the root element.
pub proof fn lemma_document_well_nested(
    root: Directory,
    root_dev: u64,
    options: ScanOptions,
    info: ScanInfoTag,
)
    ensures
        well_nested(document_events(root, root_dev, options, info)),
        document_events(root, root_dev, options, info).first() == XmlEvent::Declaration,
        document_events(root, root_dev, options, info).last() == root_close_event(),
{
    let head = document_head(info);
    let body = item_events(folder_scan(root, true, root_dev, options, Set::empty()).items);
    let tail = document_tail();
    let none = Seq::<Seq<char>>::empty();
    let root_name = root_open_event()->Open_name;
    let info_name = scan_info_open_event(info)->Open_name;
    lemma_folder_balanced(root, true, root_dev, options, Set::empty());
    lemma_open_elements_concat(none, head + body, tail);
    lemma_open_elements_concat(none, head, body);
    let inside = none.push(root_name).push(info_name);
    assert(open_elements(none, head) == Some(inside)) by {
        let declaration = seq![XmlEvent::Declaration];
        let root_open = seq![root_open_event()];
        let info_open = seq![scan_info_open_event(info)];
        assert(head =~= declaration + root_open + info_open);
        lemma_open_elements_concat(none, declaration + root_open, info_open);
        lemma_open_elements_concat(none, declaration, root_open);
        lemma_open_elements_one(none, XmlEvent::Declaration);
        lemma_open_elements_one(none, root_open_event());
        lemma_open_elements_one(none.push(root_name), scan_info_open_event(info));
    }
    assert(open_elements(inside, body) == Some(inside));
    assert(open_elements(inside, tail) == Some(none)) by {
        let info_close = seq![scan_info_close_event()];
        let root_close = seq![root_close_event()];
        assert(tail =~= info_close + root_close);
        lemma_open_elements_concat(inside, info_close, root_close);
        lemma_open_elements_one(inside, scan_info_close_event());
        assert(inside.drop_last() =~= none.push(root_name));
        lemma_open_elements_one(none.push(root_name), root_close_event());
        assert(none.push(root_name).drop_last() =~= none);
    }
}

/// Of the positions of a listing, the scan visits as files only entries
/// that are files, and as subdirectories only entries that are directories:
/// a symbolic link, an entry of another type or an unreadable entry is
/// visited as neither, so it is not emitted and not descended into. The
/// positions keep the order in which they are given.
pub proof fn lemma_positions_of(entries: Seq<DirectoryEntry>, order: Seq<usize>, files: bool)
    ensures
        forall|k: int|
            0 <= k < positions_of(entries, order, files).len() ==> {
                let position = #[trigger] positions_of(entries, order, files)[k];
                &&& (position as nat) < entries.len()
                &&& order.contains(position)
                &&& files ==> entries[position as int].node is File
                &&& !files ==> entries[position as int].node is Directory
            },
        ordered(name_keys(entries), order) ==> ordered(
            name_keys(entries),
            positions_of(entries, order, files),
        ),
    decreases order.len(),
{
    if order.len() > 0 {
        let selected = positions_of(entries, order, files);
        let rest = positions_of(entries, order.drop_last(), files);
        lemma_positions_of(entries, order.drop_last(), files);
        assert forall|k: int| 0 <= k < selected.len() implies order.contains(
            #[trigger] selected[k],
        ) by {
            if k < rest.len() {
                assert(order.drop_last().contains(rest[k]));
                let i = choose|i: int|
                    0 <= i < order.drop_last().len() && order.drop_last()[i] == rest[k];
                assert(order[i] == rest[k]);
            } else {
                assert(order[order.len() - 1] == selected[k]);
            }
        }
        if ordered(name_keys(entries), order) {
            let keys = name_keys(entries);
            assert(ordered(keys, order.drop_last())) by {
                assert forall|a: int, b: int| 0 <= a < b < order.drop_last().len() implies precedes(
                    keys,
                    #[trigger] order.drop_last()[a] as int,
                    #[trigger] order.drop_last()[b] as int,
                ) by {
                    assert(precedes(keys, order[a] as int, order[b] as int));
                }
            }
            assert forall|a: int, b: int| 0 <= a < b < selected.len() implies precedes(
                keys,
                #[trigger] selected[a] as int,
                #[trigger] selected[b] as int,
            ) by {
                if b < rest.len() {
                    assert(selected[a] == rest[a] && selected[b] == rest[b]);
                } else {
                    assert(selected[a] == rest[a]);
                    assert(order.drop_last().contains(rest[a]));
                    let i = choose|i: int|
                        0 <= i < order.drop_last().len() && order.drop_last()[i] == rest[a];
                    assert(precedes(keys, order[i] as int, order[order.len() - 1] as int));
                }
            }
        }
    }
}

/// In every directory, the files and the subdirectories are each visited
/// in the order of their names: a name never comes before the name of an
/// entry visited earlier, and entries of one name are visited in the order
/// of the listing. No symbolic link is among them.
pub proof fn lemma_siblings_in_name_order(entries: Seq<DirectoryEntry>)
    requires
        entries.len() <= usize::MAX,
    ensures
        ordered(name_keys(entries), file_positions(entries)),
        ordered(name_keys(entries), folder_positions(entries)),
        forall|k: int|
            0 <= k < file_positions(entries).len() ==> entries[#[trigger] file_positions(
                entries,
            )[k] as int].node is File,
        forall|k: int|
            0 <= k < folder_positions(entries).len() ==> entries[#[trigger] folder_positions(
                entries,
            )[k] as int].node is Directory,
{
    lemma_name_order(entries);
    lemma_positions_of(entries, name_order(entries), true);
    lemma_positions_of(entries, name_order(entries), false);
}

/// Whether an item is an emitted file whose name is that of the entry at
/// one of the first `count` of `positions`.
pub open spec fn is_file_among(
    item: ScanItem,
    entries: Seq<DirectoryEntry>,
    positions: Seq<usize>,
    count: nat,
) -> bool {
    item matches ScanItem::File(file) && exists|m: int|
        0 <= m < count && m < positions.len() && 0 <= #[trigger] positions[m] < entries.len()
            && entries[positions[m] as int].node is File && file.name
            == entries[positions[m] as int].name@
}

/// The key by which an emitted file is ordered: the bytes of its name.
pub open spec fn item_key(item: ScanItem) -> Seq<u8> {
    match item {
        ScanItem::File(file) => vstd::utf8::encode_utf8(file.name),
        _ => Seq::empty(),
    }
}

/// The items of the files of a directory are files of the listing, by
/// name, and where the positions are in the order of the names, so are the
/// emitted files: no emitted name comes before an earlier one.
pub proof fn lemma_files_scan_in_order(
    entries: Seq<DirectoryEntry>,
    positions: Seq<usize>,
    count: nat,
    options: ScanOptions,
    seen: Set<u64>,
)
    requires
        count <= positions.len(),
    ensures
        forall|i: int|
            0 <= i < files_scan(entries, positions, count, options, seen).items.len()
                ==> is_file_among(
                #[trigger] files_scan(entries, positions, count, options, seen).items[i],
                entries,
                positions,
                count,
            ),
        ordered(name_keys(entries), positions) ==> forall|i: int, j: int|
            0 <= i < j < files_scan(entries, positions, count, options, seen).items.len()
                ==> !lex_lt(
                item_key(#[trigger] files_scan(entries, positions, count, options, seen).items[j]),
                item_key(#[trigger] files_scan(entries, positions, count, options, seen).items[i]),
            ),
    decreases count,
{
    let items = files_scan(entries, positions, count, options, seen).items;
    let keys = name_keys(entries);
    if count > 0 {
        let before = files_scan(entries, positions, (count - 1) as nat, options, seen).items;
        lemma_files_scan_in_order(entries, positions, (count - 1) as nat, options, seen);
        let position = positions[count - 1] as int;
        assert forall|i: int| 0 <= i < items.len() implies is_file_among(
            #[trigger] items[i],
            entries,
            positions,
            count,
        ) by {
            if i < before.len() {
                assert(items[i] == before[i]);
                assert(is_file_among(before[i], entries, positions, (count - 1) as nat));
                let m = choose|m: int|
                    0 <= m < count - 1 && m < positions.len() && 0 <= #[trigger] positions[m]
                        < entries.len() && entries[positions[m] as int].node is File
                        && before[i]->File_0.name == entries[positions[m] as int].name@;
                assert(0 <= positions[m] < entries.len());
            } else {
                assert(0 <= positions[count - 1] < entries.len());
            }
        }
        if ordered(keys, positions) {
            assert forall|i: int, j: int| 0 <= i < j < items.len() implies !lex_lt(
                item_key(#[trigger] items[j]),
                item_key(#[trigger] items[i]),
            ) by {
                if j < before.len() {
                    assert(items[i] == before[i] && items[j] == before[j]);
                } else {
                    assert(items[i] == before[i]);
                    assert(is_file_among(before[i], entries, positions, (count - 1) as nat));
                    let m = choose|m: int|
                        0 <= m < count - 1 && m < positions.len() && 0 <= #[trigger] positions[m]
                            < entries.len() && entries[positions[m] as int].node is File
                            && before[i]->File_0.name == entries[positions[m] as int].name@;
                    let earlier = positions[m] as int;
                    assert(precedes(keys, positions[m] as int, positions[count - 1] as int));
                    assert(item_key(items[i]) == keys[earlier]);
                    assert(item_key(items[j]) == keys[position]);
                    lemma_lex_irreflexive(keys[position]);
                    if lex_lt(keys[position], keys[earlier]) && lex_lt(
                        keys[earlier],
                        keys[position],
                    ) {
                        lemma_lex_transitive(keys[position], keys[earlier], keys[position]);
                    }
                }
            }
        }
    }
}

/// What the items of a scan begin and end with: a scan that emits anything
/// begins with the opening of a folder and ends with a closing.
pub open spec fn is_folder_run(items: Seq<ScanItem>) -> bool {
    items.len() > 0 ==> items.first() is FolderOpen && items.last() is FolderClose
}

/// No folder is closed right after it was opened.
pub open spec fn no_folder_is_empty(items: Seq<ScanItem>) -> bool {
    forall|i: int|
        0 <= i < items.len() && #[trigger] items[i] is FolderOpen ==> i + 1 < items.len()
            && !(items[i + 1] is FolderClose)
}

/// All items are files.
pub open spec fn all_files(items: Seq<ScanItem>) -> bool {
    forall|i: int| 0 <= i < items.len() ==> #[trigger] items[i] is File
}

/// The items of the files of a directory are files.
pub proof fn lemma_files_scan_all_files(
    entries: Seq<DirectoryEntry>,
    positions: Seq<usize>,
    count: nat,
    options: ScanOptions,
    seen: Set<u64>,
)
    ensures
        all_files(files_scan(entries, positions, count, options, seen).items),
    decreases count,
{
    if count > 0 && count <= positions.len() {
        lemma_files_scan_all_files(entries, positions, (count - 1) as nat, options, seen);
    }
}

proof fn lemma_no_empty_concat(a: Seq<ScanItem>, b: Seq<ScanItem>)
    requires
        no_folder_is_empty(a),
        no_folder_is_empty(b),
    ensures
        no_folder_is_empty(a + b),
{
    let all = a + b;
    assert forall|i: int| 0 <= i < all.len() && #[trigger] all[i] is FolderOpen implies i + 1
        < all.len() && !(all[i + 1] is FolderClose) by {
        if i < a.len() {
            assert(all[i] == a[i]);
            assert(all[i + 1] == a[i + 1]);
        } else {
            assert(all[i] == b[i - a.len()]);
            assert(all[i + 1] == b[i + 1 - a.len()]);
        }
    }
}

/// The layout of the scan of a directory. An emitted directory is its
/// opening, the items of its files, the items of its subdirectories and
/// its closing, in this order, so the file elements of a directory all
/// precede its folder elements. Unless empty folders are included, no
/// folder is emitted without an element in it, at any depth.
pub proof fn lemma_folder_layout(
    dir: Directory,
    is_root: bool,
    root_dev: u64,
    options: ScanOptions,
    seen: Set<u64>,
)
    ensures
        is_folder_run(folder_scan(dir, is_root, root_dev, options, seen).items),
        !options.include_empty_folders ==> no_folder_is_empty(
            folder_scan(dir, is_root, root_dev, options, seen).items,
        ),
        folder_scan(dir, is_root, root_dev, options, seen).items.len() > 0 ==> {
            let entries = listing(dir);
            let first = files_scan(
                entries,
                file_positions(entries),
                file_positions(entries).len(),
                options,
                seen,
            );
            let second = subfolders_scan(
                dir,
                folder_positions(entries),
                folder_positions(entries).len(),
                root_dev,
                options,
                first.seen,
            );
            &&& folder_scan(dir, is_root, root_dev, options, seen).items == seq![
                ScanItem::FolderOpen(folder_tag(dir.path@, dir.metadata->0, is_root)),
            ] + first.items + second.items + seq![ScanItem::FolderClose]
            &&& all_files(first.items)
            &&& is_folder_run(second.items)
        },
    decreases dir, 1nat, 0nat,
{
    let items = folder_scan(dir, is_root, root_dev, options, seen).items;
    if enters(dir, root_dev, options) {
        let entries = listing(dir);
        let files = file_positions(entries);
        let folders = folder_positions(entries);
        let first = files_scan(entries, files, files.len(), options, seen);
        let second = subfolders_scan(dir, folders, folders.len(), root_dev, options, first.seen);
        let body = first.items + second.items;
        lemma_files_scan_all_files(entries, files, files.len(), options, seen);
        lemma_subfolders_layout(dir, folders, folders.len(), root_dev, options, first.seen);
        if items.len() > 0 {
            let open = seq![ScanItem::FolderOpen(folder_tag(dir.path@, dir.metadata->0, is_root))];
            let close = seq![ScanItem::FolderClose];
            assert(items =~= open + first.items + second.items + close);
            if !options.include_empty_folders {
                assert(no_folder_is_empty(first.items));
                lemma_no_empty_concat(first.items, second.items);
                assert(body.len() > 0);
                assert(!(body.first() is FolderClose)) by {
                    if first.items.len() > 0 {
                        assert(body[0] == first.items[0]);
                    } else {
                        assert(body[0] == second.items[0]);
                    }
                }
                assert forall|i: int| 0 <= i < items.len() && #[trigger] items[i] is FolderOpen implies i
                    + 1 < items.len() && !(items[i + 1] is FolderClose) by {
                    if i == 0 {
                        assert(items[1] == body[0]);
                    } else {
                        assert(items[i] == body[i - 1]);
                        assert(i - 1 + 1 < body.len());
                        assert(items[i + 1] == body[i]);
                    }
                }
            }
        }
    }
}

/// The layout of the scan of a run of subdirectories.
pub proof fn lemma_subfolders_layout(
    dir: Directory,
    positions: Seq<usize>,
    count: nat,
    root_dev: u64,
    options: ScanOptions,
    seen: Set<u64>,
)
    ensures
        is_folder_run(subfolders_scan(dir, positions, count, root_dev, options, seen).items),
        !options.include_empty_folders ==> no_folder_is_empty(
            subfolders_scan(dir, positions, count, root_dev, options, seen).items,
        ),
    decreases dir, 0nat, count,
{
    if count == 0 || count > positions.len() {
    } else {
        let before = subfolders_scan(dir, positions, (count - 1) as nat, root_dev, options, seen);
        lemma_subfolders_layout(dir, positions, (count - 1) as nat, root_dev, options, seen);
        let position = positions[count - 1] as int;
        if 0 <= position < listing(dir).len() {
            match listing(dir)[position].node {
                Node::Directory(sub) => {
                    let folder = folder_scan(sub, false, root_dev, options, before.seen);
                    lemma_folder_layout(sub, false, root_dev, options, before.seen);
                    if !options.include_empty_folders {
                        lemma_no_empty_concat(before.items, folder.items);
                    }
                },
                _ => {},
            }
        }
    }
}

/// A directory without entries is left out, unless empty folders are
/// included: then it is emitted as an opening and a closing with nothing
/// between them. Either way the tracker is left as it was.
pub proof fn lemma_empty_directory(
    dir: Directory,
    is_root: bool,
    root_dev: u64,
    options: ScanOptions,
    seen: Set<u64>,
)
    requires
        listing(dir).len() == 0,
    ensures
        folder_scan(dir, is_root, root_dev, options, seen).seen == seen,
        folder_scan(dir, is_root, root_dev, options, seen).items == if enters(
            dir,
            root_dev,
            options,
        ) && options.include_empty_folders {
            seq![
                ScanItem::FolderOpen(folder_tag(dir.path@, dir.metadata->0, is_root)),
                ScanItem::FolderClose,
            ]
        } else {
            Seq::<ScanItem>::empty()
        },
{
    let entries = listing(dir);
    assert(name_order(entries).len() == 0) by {
        lemma_name_order(entries);
    }
    let items = folder_scan(dir, is_root, root_dev, options, seen).items;
    if enters(dir, root_dev, options) && options.include_empty_folders {
        assert(items =~= seq![
            ScanItem::FolderOpen(folder_tag(dir.path@, dir.metadata->0, is_root)),
            ScanItem::FolderClose,
        ]);
    }
}

/// The `ScanInfo` element is the third event of every document, and its
/// `fileSizeMeasure` attribute is `logical` if apparent sizes are reported
/// and `physical` if not.
pub proof fn lemma_size_measure(
    root: Directory,
    root_dev: u64,
    options: ScanOptions,
    info: ScanInfoTag,
)
    ensures
        document_events(root, root_dev, options, info)[2] == scan_info_open_event(info),
        scan_info_open_event(info)->Open_attributes[4] == ("fileSizeMeasure"@, size_measure(
            info.apparent_size,
        )),
        size_measure(info.apparent_size) == "logical"@ <==> info.apparent_size,
        size_measure(info.apparent_size) == "physical"@ <==> !info.apparent_size,
{
    reveal_strlit("logical");
    reveal_strlit("physical");
    assert("logical"@.len() != "physical"@.len());
}

/// Two documents of one tree that were made at different times are equal
/// event by event, but for the `ScanInfo` element; and the two `ScanInfo`
/// elements are equal attribute by attribute, but for `scanTime`.
pub proof fn lemma_only_scan_time_differs(
    root: Directory,
    root_dev: u64,
    options: ScanOptions,
    info: ScanInfoTag,
    other_time: Seq<char>,
)
    ensures
        ({
            let other = ScanInfoTag { scan_time: other_time, ..info };
            let first = document_events(root, root_dev, options, info);
            let second = document_events(root, root_dev, options, other);
            &&& first.len() == second.len()
            &&& forall|i: int| 0 <= i < first.len() && i != 2 ==> first[i] == second[i]
            &&& first[2] == scan_info_open_event(info)
            &&& second[2] == scan_info_open_event(other)
            &&& scan_info_open_event(info)->Open_name == scan_info_open_event(other)->Open_name
            &&& scan_info_open_event(info)->Open_attributes.len() == scan_info_open_event(
                other,
            )->Open_attributes.len()
            &&& forall|k: int|
                0 <= k < 5 && k != 3 ==> scan_info_open_event(info)->Open_attributes[k]
                    == scan_info_open_event(other)->Open_attributes[k]
            &&& scan_info_open_event(info)->Open_attributes[3] == ("scanTime"@, info.scan_time)
            &&& scan_info_open_event(other)->Open_attributes[3] == ("scanTime"@, other_time)
        }),
{
}

/// The text of every document up to the value of the `scanTime`
/// attribute, given what the `ScanInfo` element shows of the volume.
pub open spec fn text_before_scan_time(
    volume_path: Seq<char>,
    volume_size: u64,
    free_space: u64,
) -> Seq<char> {
    render(seq![XmlEvent::Declaration, root_open_event()]) + line_start(true, 1) + seq!['<']
        + tag_text(
        TAG_SCAN_INFO@,
        seq![
            ("volumePath"@, volume_path),
            ("volumeSize"@, decimal(volume_size as nat)),
            ("freeSpace"@, decimal(free_space as nat)),
        ],
    ) + seq![' '] + "scanTime"@ + seq!['=', '"']
}

/// The text of the document of a tree from the end of the value of the
/// `scanTime` attribute on.
pub open spec fn text_after_scan_time(
    root: Directory,
    root_dev: u64,
    options: ScanOptions,
    apparent_size: bool,
) -> Seq<char> {
    seq!['"'] + attribute_text(("fileSizeMeasure"@, size_measure(apparent_size))) + seq!['>']
        + render_from(
        2,
        true,
        item_events(folder_scan(root, true, root_dev, options, Set::empty()).items)
            + document_tail(),
    )
}

/// The text of a document is a function of the tree, the options, the
/// volume and the time of the scan, and the time shows in one place only:
/// the text is what precedes the value of `scanTime`, the escaped time, and
/// what follows it, and neither of the two depends on the time. So two
/// scans of an unmodified tree give the same text, but for that value.
pub proof fn lemma_text_around_scan_time(
    root: Directory,
    root_dev: u64,
    options: ScanOptions,
    info: ScanInfoTag,
)
    ensures
        render(document_events(root, root_dev, options, info)) == text_before_scan_time(
            info.volume_path,
            info.volume_size,
            info.free_space,
        ) + escape_text(info.scan_time) + text_after_scan_time(
            root,
            root_dev,
            options,
            info.apparent_size,
        ),
{
    let first = seq![XmlEvent::Declaration, root_open_event()];
    let open = scan_info_open_event(info);
    let rest = item_events(folder_scan(root, true, root_dev, options, Set::empty()).items)
        + document_tail();
    let events = document_events(root, root_dev, options, info);
    assert(events =~= (first + seq![open]) + rest);
    lemma_render_concat(0, false, first + seq![open], rest);
    lemma_render_concat(0, false, first, seq![open]);
    lemma_head_level();
    lemma_render_one(1, true, open);
    lemma_scan_info_text(info);
    let before = text_before_scan_time(info.volume_path, info.volume_size, info.free_space);
    let after = text_after_scan_time(root, root_dev, options, info.apparent_size);
    let tail = render_from(2, true, rest);
    let time = escape_text(info.scan_time);
    let intro = render(first) + line_start(true, 1);
    let measure = attribute_text(("fileSizeMeasure"@, size_measure(info.apparent_size)));
    let opening = seq!['<'] + tag_text(
        TAG_SCAN_INFO@,
        seq![
            ("volumePath"@, info.volume_path),
            ("volumeSize"@, decimal(info.volume_size as nat)),
            ("freeSpace"@, decimal(info.free_space as nat)),
        ],
    ) + seq![' '] + "scanTime"@ + seq!['=', '"'];
    let closing = seq!['"'] + measure + seq!['>'];
    assert(event_text(open) == opening + time + closing);
    assert(render(events) == intro + event_text(open) + tail);
    assert(before =~= intro + opening);
    assert(after =~= closing + tail);
    assert(intro + (opening + time + closing) + tail =~= (intro + opening) + time + (closing
        + tail));
}

/// The declaration and the start tag of the root element leave one element
/// open.
proof fn lemma_head_level()
    ensures
        level_from(0, seq![XmlEvent::Declaration, root_open_event()]) == 1,
{
    let first = seq![XmlEvent::Declaration, root_open_event()];
    assert(first =~= seq![XmlEvent::Declaration] + seq![root_open_event()]);
    lemma_render_concat(0, false, seq![XmlEvent::Declaration], seq![root_open_event()]);
    lemma_render_one(0, false, XmlEvent::Declaration);
    lemma_render_one(0, true, root_open_event());
}

/// The text of the `ScanInfo` start tag, around the time of the scan.
proof fn lemma_scan_info_text(info: ScanInfoTag)
    ensures
        event_text(scan_info_open_event(info)) == seq!['<'] + tag_text(
            TAG_SCAN_INFO@,
            seq![
                ("volumePath"@, info.volume_path),
                ("volumeSize"@, decimal(info.volume_size as nat)),
                ("freeSpace"@, decimal(info.free_space as nat)),
            ],
        ) + seq![' '] + "scanTime"@ + seq!['=', '"'] + escape_text(info.scan_time) + (seq!['"']
            + attribute_text(("fileSizeMeasure"@, size_measure(info.apparent_size))) + seq!['>']),
{
    let name = TAG_SCAN_INFO@;
    let three = seq![
        ("volumePath"@, info.volume_path),
        ("volumeSize"@, decimal(info.volume_size as nat)),
        ("freeSpace"@, decimal(info.free_space as nat)),
    ];
    let time = ("scanTime"@, info.scan_time);
    let measure = ("fileSizeMeasure"@, size_measure(info.apparent_size));
    let attributes = scan_info_open_event(info)->Open_attributes;
    assert(attributes =~= three.push(time).push(measure));
    lemma_tag_text_push(name, three, time);
    lemma_tag_text_push(name, three.push(time), measure);
    let inside = tag_text(name, three);
    let left = seq!['<'] + (inside + attribute_text(time) + attribute_text(measure)) + seq!['>'];
    let right = seq!['<'] + inside + seq![' '] + "scanTime"@ + seq!['=', '"'] + escape_text(
        info.scan_time,
    ) + (seq!['"'] + attribute_text(measure) + seq!['>']);
    assert(left =~= right);
}

/// Every attribute is written as a space, its key, and its value escaped
/// between double quotes; the escaped value holds no `<`, `>`, `"` or `'`,
/// and no `&` but at the beginning of a reference.
pub proof fn lemma_attribute_is_safe(attribute: (Seq<char>, Seq<char>))
    ensures
        attribute_text(attribute) == seq![' '] + attribute.0 + seq!['=', '"'] + escape_text(
            attribute.1,
        ) + seq!['"'],
        is_attribute_safe(escape_text(attribute.1)),
{
    lemma_escape_text_is_safe(attribute.1);
}

/// What becomes of one file: a hard link to content that was seen is left
/// out, and so is a file of size zero unless such files are included; any
/// other file is emitted, alone. A file without identity is never taken
/// for a hard link.
pub proof fn lemma_file_scan(
    name: Seq<char>,
    metadata: EntryMetadata,
    options: ScanOptions,
    seen: Set<u64>,
)
    ensures
        ({
            let scan = file_scan(name, metadata, options, seen);
            let link = metadata.inode() != 0 && seen.contains(metadata.inode());
            let zero = metadata.size(options.apparent_size) == 0;
            &&& scan.items.len() <= 1
            &&& scan.items.len() == 1 <==> !link && (!zero || options.include_zero_files)
            &&& scan.items.len() == 1 ==> scan.items[0] is File && identity(scan.items[0])
                == metadata.inode()
            &&& metadata.inode() != 0 && !link ==> scan.seen == seen.insert(metadata.inode())
            &&& metadata.inode() == 0 || link ==> scan.seen == seen
        }),
{
}

/// Two listings show the same at their own level: entry by entry the same
/// name and the same node, where a directory counts as a directory,
/// whatever it holds.
pub open spec fn same_at_this_level(a: Seq<DirectoryEntry>, b: Seq<DirectoryEntry>) -> bool {
    &&& a.len() == b.len()
    &&& forall|i: int|
        0 <= i < a.len() ==> {
            &&& (#[trigger] a[i]).name@ == b[i].name@
            &&& a[i].node is Directory <==> b[i].node is Directory
            &&& !(a[i].node is Directory) ==> a[i].node == b[i].node
        }
}

proof fn lemma_same_positions(
    a: Seq<DirectoryEntry>,
    b: Seq<DirectoryEntry>,
    order: Seq<usize>,
    files: bool,
)
    requires
        same_at_this_level(a, b),
    ensures
        positions_of(a, order, files) == positions_of(b, order, files),
    decreases order.len(),
{
    if order.len() > 0 {
        lemma_same_positions(a, b, order.drop_last(), files);
    }
}

proof fn lemma_same_files(
    a: Seq<DirectoryEntry>,
    b: Seq<DirectoryEntry>,
    positions: Seq<usize>,
    count: nat,
    options: ScanOptions,
    seen: Set<u64>,
)
    requires
        same_at_this_level(a, b),
    ensures
        files_scan(a, positions, count, options, seen) == files_scan(
            b,
            positions,
            count,
            options,
            seen,
        ),
    decreases count,
{
    if count > 0 && count <= positions.len() {
        lemma_same_files(a, b, positions, (count - 1) as nat, options, seen);
    }
}

/// What is decided on entering a directory depends on the directory's own
/// level only: on its metadata, and on the names and kinds of its entries
/// and the metadata of its files. So a directory can be entered before
/// anything below it is read. Two directories that show the same at their
/// own level are entered alike, emit the same files, and have their
/// subdirectories at the same positions, in the same order.
pub proof fn lemma_entering_reads_one_level(
    a: Directory,
    b: Directory,
    root_dev: u64,
    options: ScanOptions,
    seen: Set<u64>,
)
    requires
        a.metadata == b.metadata,
        a.entries is Some <==> b.entries is Some,
        same_at_this_level(listing(a), listing(b)),
    ensures
        enters(a, root_dev, options) == enters(b, root_dev, options),
        file_positions(listing(a)) == file_positions(listing(b)),
        folder_positions(listing(a)) == folder_positions(listing(b)),
        files_scan(
            listing(a),
            file_positions(listing(a)),
            file_positions(listing(a)).len(),
            options,
            seen,
        ) == files_scan(
            listing(b),
            file_positions(listing(b)),
            file_positions(listing(b)).len(),
            options,
            seen,
        ),
{
    let first = listing(a);
    let second = listing(b);
    assert(name_keys(first) =~= name_keys(second));
    lemma_same_positions(first, second, name_order(first), true);
    lemma_same_positions(first, second, name_order(first), false);
    lemma_same_files(
        first,
        second,
        file_positions(first),
        file_positions(first).len(),
        options,
        seen,
    );
}

} // verus!
