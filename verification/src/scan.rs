//! The scan engine: the traversal of a directory tree, the rules by which
//! entries are kept or left out, and the order in which they are emitted.

use vstd::prelude::*;
use crate::events::{
    deferred_after, events_after, file_event, folder_close_event, folder_open_event, folder_opens,
    lemma_events_after_concat, with_deferred, FileTag, FolderTag, XmlEvent,
};
use crate::inodes::{is_seen, with_marked, InodeTracker};
use crate::options::{Options, ScanOptions};
use crate::order::{name_order, sorted_positions, within};
use crate::paths::{base_name, entry_name};
use crate::platform::{EntryMetadata, MetadataExtOps};
use crate::tree::{height, lemma_height_below, listing, Directory, DirectoryEntry, Node};
use crate::writer::level_after_end;
use crate::xml_output::{get_file_times, time_text, FileRecord, DirectoryRecord, XmlEmitter};

verus! {

/// One thing that the scan emits.
pub enum ScanItem {
    /// The opening of a folder.
    FolderOpen(FolderTag),
    /// A file.
    File(FileTag),
    /// The closing of the innermost open folder.
    FolderClose,
}

/// The outcome of scanning part of a tree: what is emitted, in order, and
/// the inode identities that the tracker holds afterwards.
pub struct Scan {
    pub items: Seq<ScanItem>,
    pub seen: Set<u64>,
}

/// The event by which an item is written.
pub open spec fn item_event(item: ScanItem) -> XmlEvent {
    match item {
        ScanItem::FolderOpen(folder) => folder_open_event(folder),
        ScanItem::File(file) => file_event(file),
        ScanItem::FolderClose => folder_close_event(),
    }
}

/// The events by which a sequence of items is written.
pub open spec fn item_events(items: Seq<ScanItem>) -> Seq<XmlEvent> {
    Seq::new(items.len(), |i: int| item_event(items[i]))
}

/// The name under which a directory is emitted: the root by its full path,
/// every other directory by the last segment of its path.
pub open spec fn folder_name(path: Seq<char>, is_root: bool) -> Seq<char> {
    if is_root {
        path
    } else {
        base_name(path)
    }
}

/// What the start tag of a directory shows.
pub open spec fn folder_tag(path: Seq<char>, metadata: EntryMetadata, is_root: bool) -> FolderTag {
    FolderTag {
        name: folder_name(path, is_root),
        created: time_text(metadata.created()),
        modified: time_text(metadata.modified()),
        accessed: time_text(metadata.accessed()),
    }
}

/// What is known of a file that is emitted.
pub open spec fn file_tag(
    name: Seq<char>,
    metadata: EntryMetadata,
    options: ScanOptions,
) -> FileTag {
    FileTag {
        name,
        size: metadata.size(options.apparent_size),
        created: time_text(metadata.created()),
        modified: time_text(metadata.modified()),
        accessed: time_text(metadata.accessed()),
        inode: metadata.inode(),
    }
}

/// The scan of one file. A file whose inode identity was seen before is a
/// hard link to content already counted, and is left out. Any other file is
/// recorded; it is then left out if its size is zero, unless files of size
/// zero are included.
pub open spec fn file_scan(
    name: Seq<char>,
    metadata: EntryMetadata,
    options: ScanOptions,
    seen: Set<u64>,
) -> Scan {
    if is_seen(seen, metadata.inode()) {
        Scan { items: Seq::empty(), seen }
    } else if metadata.size(options.apparent_size) == 0 && !options.include_zero_files {
        Scan { items: Seq::empty(), seen: with_marked(seen, metadata.inode()) }
    } else {
        Scan {
            items: seq![ScanItem::File(file_tag(name, metadata, options))],
            seen: with_marked(seen, metadata.inode()),
        }
    }
}

/// The positions in `order` whose entries are files (`files` set) or
/// directories (`files` not set), in the order of `order`. Symbolic links,
/// entries of other types and unreadable entries are in neither selection.
pub open spec fn positions_of(entries: Seq<DirectoryEntry>, order: Seq<usize>, files: bool) -> Seq<
    usize,
>
    decreases order.len(),
{
    if order.len() == 0 {
        Seq::empty()
    } else {
        let rest = positions_of(entries, order.drop_last(), files);
        let position = order.last();
        if position < entries.len() && (if files {
            entries[position as int].node is File
        } else {
            entries[position as int].node is Directory
        }) {
            rest.push(position)
        } else {
            rest
        }
    }
}

/// The files of a listing, in the order of their names.
pub open spec fn file_positions(entries: Seq<DirectoryEntry>) -> Seq<usize> {
    positions_of(entries, name_order(entries), true)
}

/// The subdirectories of a listing, in the order of their names.
pub open spec fn folder_positions(entries: Seq<DirectoryEntry>) -> Seq<usize> {
    positions_of(entries, name_order(entries), false)
}

/// The scan of the first `count` files at `positions`, one after the other.
pub open spec fn files_scan(
    entries: Seq<DirectoryEntry>,
    positions: Seq<usize>,
    count: nat,
    options: ScanOptions,
    seen: Set<u64>,
) -> Scan
    decreases count,
{
    if count == 0 || count > positions.len() {
        Scan { items: Seq::empty(), seen }
    } else {
        let before = files_scan(entries, positions, (count - 1) as nat, options, seen);
        let position = positions[count - 1] as int;
        if 0 <= position < entries.len() {
            match entries[position].node {
                Node::File(metadata) => {
                    let file = file_scan(entries[position].name@, metadata, options, before.seen);
                    Scan { items: before.items + file.items, seen: file.seen }
                },
                _ => before,
            }
        } else {
            before
        }
    }
}

/// Whether a directory lies where the scan goes: on the device of the root,
/// or anywhere if mount points are crossed.
pub open spec fn is_within_bounds(
    metadata: EntryMetadata,
    root_dev: u64,
    options: ScanOptions,
) -> bool {
    options.cross_mount_points || metadata.device() == root_dev
}

/// Whether the scan enters a directory: its metadata can be read, it lies
/// within the bounds of the scan, and its listing can be read.
pub open spec fn enters(dir: Directory, root_dev: u64, options: ScanOptions) -> bool {
    &&& dir.metadata matches Some(metadata) && is_within_bounds(metadata, root_dev, options)
    &&& dir.entries is Some
}

/// The scan of a directory and all below it.
///
/// A directory that is not entered emits nothing. Of one that is entered,
/// the files come first and the subdirectories after them, each group in
/// the order of the names. A directory in which nothing is emitted is left
/// out itself, unless empty folders are included.
pub open spec fn folder_scan(
    dir: Directory,
    is_root: bool,
    root_dev: u64,
    options: ScanOptions,
    seen: Set<u64>,
) -> Scan
    decreases dir, 1nat, 0nat,
{
    if !enters(dir, root_dev, options) {
        Scan { items: Seq::empty(), seen }
    } else {
        let entries = listing(dir);
        let files = file_positions(entries);
        let folders = folder_positions(entries);
        let first = files_scan(entries, files, files.len(), options, seen);
        let second = subfolders_scan(dir, folders, folders.len(), root_dev, options, first.seen);
        let body = first.items + second.items;
        if body.len() == 0 && !options.include_empty_folders {
            Scan { items: Seq::empty(), seen: second.seen }
        } else {
            Scan {
                items: seq![ScanItem::FolderOpen(folder_tag(dir.path@, dir.metadata->0, is_root))]
                    + body + seq![ScanItem::FolderClose],
                seen: second.seen,
            }
        }
    }
}

/// The scan of the first `count` subdirectories of `dir` at `positions`,
/// one after the other.
pub open spec fn subfolders_scan(
    dir: Directory,
    positions: Seq<usize>,
    count: nat,
    root_dev: u64,
    options: ScanOptions,
    seen: Set<u64>,
) -> Scan
    decreases dir, 0nat, count,
{
    if count == 0 || count > positions.len() {
        Scan { items: Seq::empty(), seen }
    } else {
        let before = subfolders_scan(dir, positions, (count - 1) as nat, root_dev, options, seen);
        let position = positions[count - 1] as int;
        if 0 <= position < listing(dir).len() {
            match listing(dir)[position].node {
                Node::Directory(sub) => {
                    let folder = folder_scan(sub, false, root_dev, options, before.seen);
                    Scan { items: before.items + folder.items, seen: folder.seen }
                },
                _ => before,
            }
        } else {
            before
        }
    }
}

/// The events of a concatenation are the concatenation of the events.
pub proof fn lemma_item_events_concat(a: Seq<ScanItem>, b: Seq<ScanItem>)
    ensures
        item_events(a + b) == item_events(a) + item_events(b),
{
    assert(item_events(a + b) =~= item_events(a) + item_events(b));
}

/// Processes a file entry and outputs XML.
///
/// The file is looked up in the tracker by its inode identity and left out
/// if it was seen; else it is marked, and emitted unless its size is zero
/// and files of size zero are left out.
pub fn process_file_entry(
    name: &str,
    metadata: &EntryMetadata,
    options: &Options,
    visited_inodes: &mut InodeTracker,
    writer: &mut XmlEmitter,
)
    requires
        old(writer).wf(),
    ensures
        final(writer).wf(),
        final(visited_inodes)@ == file_scan(name@, *metadata, options.rules(), old(visited_inodes)@).seen,
        final(writer).events() == events_after(
            old(writer).events(),
            old(writer).deferred(),
            item_events(file_scan(name@, *metadata, options.rules(), old(visited_inodes)@).items),
        ),
        final(writer).deferred() == deferred_after(
            old(writer).deferred(),
            item_events(file_scan(name@, *metadata, options.rules(), old(visited_inodes)@).items),
        ),
        final(writer).taken() == old(writer).taken(),
        final(writer).nesting() == old(writer).nesting(),
{
    // Get inode number
    let inode = metadata.inode_number();

    // Skip if the file is a hard link
    if visited_inodes.seen(inode) {
        return;
    }
    // Add inode number to the set of visited inodes

    visited_inodes.mark(inode);

    // Get file size (logical or physical depending on options.apparent_size)
    let size = metadata.file_size(options.apparent_size);

    // Skip zero-byte files if the `include_zero_files` option is not set
    if size == 0 && !options.include_zero_files {
        return;
    }
    // Get file times

    let (created, modified, accessed) = get_file_times(metadata);

    // Output File tag
    let file = FileRecord { name: name.to_owned(), size, created, modified, accessed, inode };
    proof {
        let scan = file_scan(name@, *metadata, options.rules(), old(visited_inodes)@);
        assert(file@ == file_tag(name@, *metadata, options.rules()));
        assert(item_events(scan.items) =~= seq![file_event(file@)]);
    }
    writer.write_file(&file);
}

/// Whether a directory with this metadata lies within the bounds of the
/// scan. A directory beyond them is not entered, so its listing need not be
/// read.
pub fn within_bounds(metadata: &EntryMetadata, root_dev: u64, options: &Options) -> (within: bool)
    ensures
        within == is_within_bounds(*metadata, root_dev, options.rules()),
{
    options.cross_mount_points || metadata.device_id() == root_dev
}

/// The positions in `order` whose entries are files or directories.
fn select_positions(entries: &Vec<DirectoryEntry>, order: &Vec<usize>, files: bool) -> (selected:
    Vec<usize>)
    requires
        within(order@, entries.len() as nat),
    ensures
        selected@ == positions_of(entries@, order@, files),
        within(selected@, entries.len() as nat),
{
    let mut selected: Vec<usize> = Vec::new();
    let mut k: usize = 0;
    while k < order.len()
        invariant
            k <= order.len(),
            within(order@, entries.len() as nat),
            within(selected@, entries.len() as nat),
            selected@ == positions_of(entries@, order@.take(k as int), files),
        decreases order.len() - k,
    {
        let position = order[k];
        proof {
            assert(order@.take(k + 1).drop_last() =~= order@.take(k as int));
            assert(order@.take(k + 1).last() == position);
        }
        let wanted = match &entries[position].node {
            Node::File(_) => files,
            Node::Directory(_) => !files,
            _ => false,
        };
        if wanted {
            selected.push(position);
        }
        k += 1;
    }
    proof {
        assert(order@.take(order.len() as int) =~= order@);
    }
    selected
}

/// Enters a directory: decides whether it is scanned, announces it to the
/// emitter and emits its files.
///
/// Returns `None` for a directory that is not entered; nothing has changed
/// then. Otherwise returns the positions of the subdirectories in the
/// listing, in the order in which they are to be scanned; after them,
/// [`leave_directory`] closes the directory.
pub fn enter_directory(
    dir: &Directory,
    is_root: bool,
    root_dev: u64,
    options: &Options,
    visited_inodes: &mut InodeTracker,
    writer: &mut XmlEmitter,
) -> (subfolders: Option<Vec<usize>>)
    requires
        old(writer).wf(),
        old(writer).nesting() < usize::MAX,
    ensures
        final(writer).wf(),
        final(writer).taken() == old(writer).taken(),
        subfolders is Some <==> enters(*dir, root_dev, options.rules()),
        subfolders is None ==> {
            &&& final(visited_inodes)@ == old(visited_inodes)@
            &&& final(writer).events() == old(writer).events()
            &&& final(writer).deferred() == old(writer).deferred()
            &&& final(writer).pending() == old(writer).pending()
        },
        subfolders matches Some(positions) ==> {
            let entries = listing(*dir);
            let files = files_scan(
                entries,
                file_positions(entries),
                file_positions(entries).len(),
                options.rules(),
                old(visited_inodes)@,
            );
            let announced = old(writer).deferred().push(
                folder_tag(dir.path@, dir.metadata->0, is_root),
            );
            &&& positions@ == folder_positions(entries)
            &&& within(positions@, entries.len())
            &&& final(visited_inodes)@ == files.seen
            &&& final(writer).events() == events_after(
                old(writer).events(),
                announced,
                item_events(files.items),
            )
            &&& final(writer).deferred() == deferred_after(announced, item_events(files.items))
            &&& final(writer).nesting() == old(writer).nesting() + 1
        },
{
    // Get metadata of the current directory
    let metadata = match &dir.metadata {
        Some(metadata) => metadata,
        None => {
            return None;
        },
    };

    // Check if the current directory is on a different filesystem
    if !within_bounds(metadata, root_dev, options) {
        return None;
    }
    // Get file times

    let (created, modified, accessed) = get_file_times(metadata);

    // Get directory name
    let name = if is_root {
        dir.path.clone()
    } else {
        entry_name(dir.path.as_str())
    };

    // Read directory entries
    let entries = match &dir.entries {
        Some(entries) => entries,
        None => {
            return None;
        },
    };

    // Sort entries by file name
    let order = sorted_positions(entries);

    // Announce the folder; its tag is written with its first element
    let folder = DirectoryRecord { name, created, modified, accessed };
    let ghost announced = old(writer).deferred().push(folder@);
    writer.open_folder(folder);

    // Files before folders
    let files = select_positions(entries, &order, true);
    let folders = select_positions(entries, &order, false);

    // Files first
    let mut k: usize = 0;
    while k < files.len()
        invariant
            k <= files.len(),
            writer.wf(),
            within(files@, entries.len() as nat),
            files@ == file_positions(entries@),
            writer.taken() == old(writer).taken(),
            writer.nesting() == old(writer).nesting() + 1,
            visited_inodes@ == files_scan(
                entries@,
                files@,
                k as nat,
                options.rules(),
                old(visited_inodes)@,
            ).seen,
            writer.events() == events_after(
                old(writer).events(),
                announced,
                item_events(
                    files_scan(entries@, files@, k as nat, options.rules(), old(visited_inodes)@).items,
                ),
            ),
            writer.deferred() == deferred_after(
                announced,
                item_events(
                    files_scan(entries@, files@, k as nat, options.rules(), old(visited_inodes)@).items,
                ),
            ),
        decreases files.len() - k,
    {
        let entry = &entries[files[k]];
        let ghost before = files_scan(entries@, files@, k as nat, options.rules(), old(visited_inodes)@);
        match &entry.node {
            Node::File(metadata) => {
                proof {
                    let file = file_scan(entry.name@, *metadata, options.rules(), before.seen);
                    lemma_item_events_concat(before.items, file.items);
                    lemma_events_after_concat(
                        old(writer).events(),
                        announced,
                        item_events(before.items),
                        item_events(file.items),
                    );
                }
                process_file_entry(entry.name.as_str(), metadata, options, visited_inodes, writer);
            },
            _ => {},
        }
        k += 1;
    }
    Some(folders)
}

/// Leaves the directory that was entered last: closes its element, or
/// drops it where nothing was emitted in it and empty folders are left out.
pub fn leave_directory(options: &Options, writer: &mut XmlEmitter)
    requires
        old(writer).wf(),
    ensures
        final(writer).wf(),
        final(writer).taken() == old(writer).taken(),
        final(writer).nesting() == level_after_end(old(writer).nesting()),
        old(writer).deferred().len() > 0 && !options.include_empty_folders ==> {
            &&& final(writer).events() == old(writer).events()
            &&& final(writer).deferred() == old(writer).deferred().drop_last()
            &&& final(writer).pending() == old(writer).pending()
        },
        old(writer).deferred().len() == 0 || options.include_empty_folders ==> {
            &&& final(writer).events() == events_after(
                old(writer).events(),
                old(writer).deferred(),
                seq![folder_close_event()],
            )
            &&& final(writer).deferred() == Seq::<FolderTag>::empty()
        },
{
    writer.close_folder(options.include_empty_folders);
}

/// A subdirectory is less high than the directory that lists it.
pub proof fn lemma_height_of_entry(dir: Directory, position: int)
    requires
        0 <= position < listing(dir).len(),
        listing(dir)[position].node is Directory,
    ensures
        height(listing(dir)[position].node->Directory_0) < height(dir),
{
    lemma_height_below(dir, listing(dir).len(), position);
}

/// Recursively traverses the directory and outputs XML.
///
/// The emitter and the tracker end as [`folder_scan`] says: the items of
/// the scan have passed through the emitter, and the tracker holds the
/// identities that the scan has recorded.
pub fn traverse_directory_to_xml(
    dir: &Directory,
    is_root: bool,
    root_dev: u64,
    options: &Options,
    visited_inodes: &mut InodeTracker,
    writer: &mut XmlEmitter,
)
    requires
        old(writer).wf(),
        old(writer).nesting() + height(*dir) <= usize::MAX,
    ensures
        final(writer).wf(),
        final(writer).taken() == old(writer).taken(),
        final(writer).nesting() == old(writer).nesting(),
        final(visited_inodes)@ == folder_scan(
            *dir,
            is_root,
            root_dev,
            options.rules(),
            old(visited_inodes)@,
        ).seen,
        final(writer).events() == events_after(
            old(writer).events(),
            old(writer).deferred(),
            item_events(
                folder_scan(*dir, is_root, root_dev, options.rules(), old(visited_inodes)@).items,
            ),
        ),
        final(writer).deferred() == deferred_after(
            old(writer).deferred(),
            item_events(
                folder_scan(*dir, is_root, root_dev, options.rules(), old(visited_inodes)@).items,
            ),
        ),
    decreases dir,
{
    let folders = match enter_directory(dir, is_root, root_dev, options, visited_inodes, writer) {
        Some(folders) => folders,
        None => {
            return;
        },
    };
    let entries = match &dir.entries {
        Some(entries) => entries,
        None => {
            return;
        },
    };
    let ghost tag = folder_tag(dir.path@, dir.metadata->0, is_root);
    let ghost announced = old(writer).deferred().push(tag);
    let ghost first = files_scan(
        entries@,
        file_positions(entries@),
        file_positions(entries@).len(),
        options.rules(),
        old(visited_inodes)@,
    );

    // Then directories, depth first
    let mut k: usize = 0;
    while k < folders.len()
        invariant
            k <= folders.len(),
            writer.wf(),
            dir.entries == Some(*entries),
            within(folders@, entries.len() as nat),
            folders@ == folder_positions(entries@),
            old(writer).nesting() + height(*dir) <= usize::MAX,
            writer.taken() == old(writer).taken(),
            writer.nesting() == old(writer).nesting() + 1,
            visited_inodes@ == subfolders_scan(
                *dir,
                folders@,
                k as nat,
                root_dev,
                options.rules(),
                first.seen,
            ).seen,
            writer.events() == events_after(
                old(writer).events(),
                announced,
                item_events(
                    first.items + subfolders_scan(
                        *dir,
                        folders@,
                        k as nat,
                        root_dev,
                        options.rules(),
                        first.seen,
                    ).items,
                ),
            ),
            writer.deferred() == deferred_after(
                announced,
                item_events(
                    first.items + subfolders_scan(
                        *dir,
                        folders@,
                        k as nat,
                        root_dev,
                        options.rules(),
                        first.seen,
                    ).items,
                ),
            ),
        decreases folders.len() - k,
    {
        let entry = &entries[folders[k]];
        let ghost before = subfolders_scan(*dir, folders@, k as nat, root_dev, options.rules(), first.seen);
        match &entry.node {
            Node::Directory(sub) => {
                proof {
                    lemma_height_of_entry(*dir, folders[k as int] as int);
                    let folder = folder_scan(*sub, false, root_dev, options.rules(), before.seen);
                    assert(first.items + (before.items + folder.items) =~= (first.items
                        + before.items) + folder.items);
                    lemma_item_events_concat(first.items + before.items, folder.items);
                    lemma_events_after_concat(
                        old(writer).events(),
                        announced,
                        item_events(first.items + before.items),
                        item_events(folder.items),
                    );
                }
                traverse_directory_to_xml(sub, false, root_dev, options, visited_inodes, writer);
            },
            _ => {},
        }
        k += 1;
    }

    // Close Folder tag
    let ghost second = subfolders_scan(
        *dir,
        folders@,
        folders.len() as nat,
        root_dev,
        options.rules(),
        first.seen,
    );
    let ghost body = first.items + second.items;
    proof {
        let scan = folder_scan(*dir, is_root, root_dev, options.rules(), old(visited_inodes)@);
        let open = seq![folder_open_event(tag)];
        let close = seq![folder_close_event()];
        assert(folder_opens(announced) =~= folder_opens(
            old(writer).deferred(),
        ) + open);
        assert(announced.drop_last() =~= old(writer).deferred());
        if body.len() == 0 {
            if options.include_empty_folders {
                assert(item_events(scan.items) =~= open + close);
                assert(writer.events() + with_deferred(announced, close)
                    =~= events_after(
                    old(writer).events(),
                    old(writer).deferred(),
                    item_events(scan.items),
                ));
            }
        } else {
            assert(item_events(scan.items) =~= open + item_events(body) + close);
            assert(folder_opens(Seq::<FolderTag>::empty()) =~= Seq::<
                XmlEvent,
            >::empty());
            assert(writer.events() + with_deferred(
                Seq::<FolderTag>::empty(),
                close,
            ) =~= events_after(
                old(writer).events(),
                old(writer).deferred(),
                item_events(scan.items),
            ));
        }
    }
    leave_directory(options, writer);
}

} // verus!
