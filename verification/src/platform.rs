//! What the scan reads of a filesystem entry: device and inode identity,
//! sizes and timestamps, behind one interface.

use vstd::prelude::*;

verus! {

/// The size of one storage block, in bytes.
pub const BLOCK_SIZE: u64 = 512;

/// The allocation unit assumed where the platform reports no block count.
pub const CLUSTER_SIZE: u64 = 4096;

/// Device identity, inode identity and size of a filesystem entry.
pub trait MetadataExtOps {
    /// The identifier of the device that holds the entry.
    spec fn device(&self) -> u64;

    /// The identifier of the entry's content on its device; zero where the
    /// platform has none.
    spec fn inode(&self) -> u64;

    /// The size that is reported: the length of the content when `apparent`
    /// is set, else the storage that the entry occupies.
    spec fn size(&self, apparent: bool) -> u64;

    fn device_id(&self) -> (id: u64)
        ensures
            id == self.device(),
    ;

    fn inode_number(&self) -> (id: u64)
        ensures
            id == self.inode(),
    ;

    fn file_size(&self, apparent: bool) -> (size: u64)
        ensures
            size == self.size(apparent),
    ;
}

/// The storage taken by `length` bytes in whole clusters.
pub open spec fn clustered(length: u64) -> nat {
    (((length + CLUSTER_SIZE - 1) / (CLUSTER_SIZE as int)) * CLUSTER_SIZE) as nat
}

/// The storage that an entry occupies: its blocks where the platform counts
/// them, else its length rounded up to whole clusters.
pub open spec fn storage(length: u64, blocks: Option<u64>) -> nat {
    match blocks {
        Some(count) => (count * BLOCK_SIZE) as nat,
        None => clustered(length),
    }
}

/// The metadata of one filesystem entry, as plain values.
///
/// Timestamps are seconds since the Unix epoch, `None` where the filesystem
/// cannot supply them. The storage that the entry occupies fits in 64 bits.
#[derive(Debug, Clone, Copy)]
pub struct EntryMetadata {
    device: u64,
    inode: u64,
    length: u64,
    blocks: Option<u64>,
    created: Option<i64>,
    modified: Option<i64>,
    accessed: Option<i64>,
}

impl EntryMetadata {
    #[verifier::type_invariant]
    spec fn fits(&self) -> bool {
        storage(self.length, self.blocks) <= u64::MAX
    }

    /// The length of the entry's content, in bytes.
    pub closed spec fn length(&self) -> u64 {
        self.length
    }

    /// The number of storage blocks, where the platform counts them.
    pub closed spec fn blocks(&self) -> Option<u64> {
        self.blocks
    }

    /// The time of creation.
    pub closed spec fn created(&self) -> Option<i64> {
        self.created
    }

    /// The time of the last modification.
    pub closed spec fn modified(&self) -> Option<i64> {
        self.modified
    }

    /// The time of the last access.
    pub closed spec fn accessed(&self) -> Option<i64> {
        self.accessed
    }

    /// The metadata with the given values, or `None` if the storage that
    /// they describe exceeds 64 bits.
    pub fn new(
        device: u64,
        inode: u64,
        length: u64,
        blocks: Option<u64>,
        created: Option<i64>,
        modified: Option<i64>,
        accessed: Option<i64>,
    ) -> (metadata: Option<EntryMetadata>)
        ensures
            metadata is Some <==> storage(length, blocks) <= u64::MAX,
            metadata matches Some(m) ==> {
                &&& m.device() == device
                &&& m.inode() == inode
                &&& m.length() == length
                &&& m.blocks() == blocks
                &&& m.created() == created
                &&& m.modified() == modified
                &&& m.accessed() == accessed
            },
    {
        let fits = match blocks {
            Some(count) => count <= u64::MAX / BLOCK_SIZE,
            None => length <= u64::MAX - (CLUSTER_SIZE - 1),
        };
        if fits {
            Some(EntryMetadata { device, inode, length, blocks, created, modified, accessed })
        } else {
            None
        }
    }

    /// The three timestamps: creation, modification, access.
    pub fn times(&self) -> (times: (Option<i64>, Option<i64>, Option<i64>))
        ensures
            times == (self.created(), self.modified(), self.accessed()),
    {
        (self.created, self.modified, self.accessed)
    }
}

impl MetadataExtOps for EntryMetadata {
    closed spec fn device(&self) -> u64 {
        self.device
    }

    closed spec fn inode(&self) -> u64 {
        self.inode
    }

    open spec fn size(&self, apparent: bool) -> u64 {
        if apparent {
            self.length()
        } else {
            storage(self.length(), self.blocks()) as u64
        }
    }

    fn device_id(&self) -> (id: u64) {
        self.device
    }

    fn inode_number(&self) -> (id: u64) {
        self.inode
    }

    fn file_size(&self, apparent: bool) -> (size: u64) {
        proof {
            use_type_invariant(self);
        }
        if apparent {
            self.length
        } else {
            match self.blocks {
                Some(count) => count * BLOCK_SIZE,
                None => {
                    assert(self.length <= u64::MAX - (CLUSTER_SIZE - 1)) by {
                        if self.length > u64::MAX - (CLUSTER_SIZE - 1) {
                            assert((self.length + CLUSTER_SIZE - 1) / (CLUSTER_SIZE as int)
                                >= 0x10_0000_0000_0000);
                        }
                    }
                    if self.length == 0 {
                        0
                    } else {
                        ((self.length + (CLUSTER_SIZE - 1)) / CLUSTER_SIZE) * CLUSTER_SIZE
                    }
                },
            }
        }
    }
}

} // verus!
