//! The inode identities of the files that the scan has met.

use std::collections::HashSet;
use vstd::prelude::*;

verus! {

/// Whether `id` counts as seen: the sentinel zero, which stands for "no
/// identity", never does.
pub open spec fn is_seen(seen: Set<u64>, id: u64) -> bool {
    id != 0 && seen.contains(id)
}

/// The identities seen after marking `id`: the sentinel zero is not recorded.
pub open spec fn with_marked(seen: Set<u64>, id: u64) -> Set<u64> {
    if id == 0 {
        seen
    } else {
        seen.insert(id)
    }
}

/// The set of inode identities met so far in a scan.
pub struct InodeTracker {
    ids: HashSet<u64>,
}

impl View for InodeTracker {
    type V = Set<u64>;

    closed spec fn view(&self) -> Set<u64> {
        self.ids@
    }
}

impl InodeTracker {
    /// A tracker that has met no file.
    pub fn new() -> (tracker: InodeTracker)
        ensures
            tracker@ == Set::<u64>::empty(),
    {
        InodeTracker { ids: HashSet::new() }
    }

    /// Whether a file with this identity was marked before.
    pub fn seen(&self, id: u64) -> (seen: bool)
        ensures
            seen == is_seen(self@, id),
    {
        broadcast use vstd::std_specs::hash::group_hash_axioms;

        id != 0 && self.ids.contains(&id)
    }

    /// Records the identity of a file, unless it is the sentinel zero.
    pub fn mark(&mut self, id: u64)
        ensures
            final(self)@ == with_marked(old(self)@, id),
    {
        broadcast use vstd::std_specs::hash::group_hash_axioms;

        if id != 0 {
            self.ids.insert(id);
        }
    }
}

} // verus!
