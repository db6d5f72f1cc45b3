//! A directory tree as the scan sees it: plain values read from the
//! filesystem, one directory at a time.

use vstd::prelude::*;
use vstd::utf8::encode_utf8;
use crate::platform::EntryMetadata;

verus! {

/// What an entry of a directory is, by its own metadata (a symbolic link is
/// not followed).
#[derive(Debug)]
pub enum Node {
    /// A regular file.
    File(EntryMetadata),
    /// A directory.
    Directory(Directory),
    /// A symbolic link, whatever it points to.
    Symlink,
    /// An entry of another type, such as a socket or a device.
    Other,
    /// An entry whose metadata cannot be read.
    Unreadable,
}

/// One entry of a directory: its file name and what it is.
#[derive(Debug)]
pub struct DirectoryEntry {
    pub name: String,
    pub node: Node,
}

/// A directory: its path, its metadata and its entries in the order in
/// which the filesystem lists them. The metadata or the listing is `None`
/// where it cannot be read.
#[derive(Debug)]
pub struct Directory {
    pub path: String,
    pub metadata: Option<EntryMetadata>,
    pub entries: Option<Vec<DirectoryEntry>>,
}

/// The entries of a directory; none where the listing cannot be read.
pub open spec fn listing(dir: Directory) -> Seq<DirectoryEntry> {
    match dir.entries {
        Some(entries) => entries@,
        None => Seq::empty(),
    }
}

/// The number of directories on the longest chain from `dir` downwards,
/// `dir` included.
pub open spec fn height(dir: Directory) -> nat
    decreases dir, 1nat, 0nat,
{
    1 + height_below(dir, listing(dir).len())
}

/// The greatest height among the first `count` entries of `dir`.
pub open spec fn height_below(dir: Directory, count: nat) -> nat
    decreases dir, 0nat, count,
{
    if count == 0 || count > listing(dir).len() {
        0
    } else {
        let rest = height_below(dir, (count - 1) as nat);
        match listing(dir)[count - 1].node {
            Node::Directory(sub) => if height(sub) > rest {
                height(sub)
            } else {
                rest
            },
            _ => rest,
        }
    }
}

/// The key by which an entry is ordered among its siblings: the bytes of its
/// name.
pub open spec fn name_key(entry: DirectoryEntry) -> Seq<u8> {
    encode_utf8(entry.name@)
}

/// The ordering keys of a listing.
pub open spec fn name_keys(entries: Seq<DirectoryEntry>) -> Seq<Seq<u8>> {
    Seq::new(entries.len(), |i: int| name_key(entries[i]))
}

/// Every subdirectory is lower than the directory that lists it.
pub proof fn lemma_height_below(dir: Directory, count: nat, position: int)
    requires
        0 <= position < count <= listing(dir).len(),
        listing(dir)[position].node is Directory,
    ensures
        height(listing(dir)[position].node->Directory_0) <= height_below(dir, count),
    decreases count,
{
    if position < count - 1 {
        lemma_height_below(dir, (count - 1) as nat, position);
    }
}

/// Whether `dir` is at most `limit` directories high.
pub fn height_within(dir: &Directory, limit: usize) -> (fits: bool)
    ensures
        fits == (height(*dir) <= limit),
    decreases dir,
{
    if limit == 0 {
        return false;
    }
    let entries = match &dir.entries {
        Some(entries) => entries,
        None => {
            return true;
        },
    };
    let mut k: usize = 0;
    while k < entries.len()
        invariant
            k <= entries.len(),
            dir.entries == Some(*entries),
            limit > 0,
            height_below(*dir, k as nat) <= limit - 1,
        decreases entries.len() - k,
    {
        match &entries[k].node {
            Node::Directory(sub) => {
                if !height_within(sub, limit - 1) {
                    proof {
                        lemma_height_below(*dir, entries.len() as nat, k as int);
                    }
                    return false;
                }
            },
            _ => {},
        }
        k += 1;
    }
    true
}

} // verus!
