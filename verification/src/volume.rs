//! The volume that holds the scanned directory.

use vstd::prelude::*;
use crate::paths::{components, components_start_with, path_components, starts_with, texts};

verus! {

/// A mounted volume: where it is mounted, its size and its free space in bytes.
#[derive(Debug)]
pub struct Volume {
    pub mount_point: String,
    pub total_space: u64,
    pub available_space: u64,
}

/// The number of components of a volume's mount point.
pub open spec fn mount_depth(volume: Volume) -> nat {
    components(volume.mount_point@).len()
}

/// The volume that is chosen among the first `count`, by its position: a
/// volume that holds the path takes the place of the one chosen so far if
/// its mount point is deeper.
pub open spec fn chosen_among(volumes: Seq<Volume>, path: Seq<char>, count: nat) -> Option<int>
    decreases count,
{
    if count == 0 || count > volumes.len() {
        None
    } else {
        let before = chosen_among(volumes, path, (count - 1) as nat);
        let candidate = volumes[count - 1];
        if starts_with(path, candidate.mount_point@) && (before matches Some(best) ==> mount_depth(
            candidate,
        ) > mount_depth(volumes[best])) {
            Some(count - 1)
        } else {
            before
        }
    }
}

/// The volume that holds `path`: of the volumes whose mount point the path
/// lies at or below, the one with the deepest mount point, and the first
/// such in the list.
pub open spec fn chosen_volume(volumes: Seq<Volume>, path: Seq<char>) -> Option<int> {
    chosen_among(volumes, path, volumes.len())
}

/// What is reported of the volume: mount point, size and free space; for a
/// path that no volume holds, the root with no size.
pub open spec fn volume_info(volumes: Seq<Volume>, path: Seq<char>) -> (Seq<char>, u64, u64) {
    match chosen_volume(volumes, path) {
        Some(i) => (volumes[i].mount_point@, volumes[i].total_space, volumes[i].available_space),
        None => (seq!['/'], 0, 0),
    }
}

/// The chosen volume holds the path, no volume that holds the path is
/// mounted deeper, and none before it is mounted as deep; no volume is
/// chosen only if none holds the path.
pub proof fn lemma_chosen_among(volumes: Seq<Volume>, path: Seq<char>, count: nat)
    requires
        count <= volumes.len(),
    ensures
        match chosen_among(volumes, path, count) {
            Some(best) => {
                &&& 0 <= best < count
                &&& starts_with(path, volumes[best].mount_point@)
                &&& forall|j: int|
                    0 <= j < count && starts_with(path, #[trigger] volumes[j].mount_point@)
                        ==> mount_depth(volumes[j]) <= mount_depth(volumes[best])
                &&& forall|j: int|
                    0 <= j < best && starts_with(path, #[trigger] volumes[j].mount_point@)
                        ==> mount_depth(volumes[j]) < mount_depth(volumes[best])
            },
            None => forall|j: int|
                0 <= j < count ==> !starts_with(path, #[trigger] volumes[j].mount_point@),
        },
    decreases count,
{
    if count > 0 {
        lemma_chosen_among(volumes, path, (count - 1) as nat);
    }
}

/// Retrieves volume information for the given path.
pub fn get_volume_info(root_path: &str, disks: &Vec<Volume>) -> (info: (String, u64, u64))
    ensures
        (info.0@, info.1, info.2) == volume_info(disks@, root_path@),
{
    let path = path_components(root_path);
    let mut best: Option<usize> = None;
    let mut depth: usize = 0;
    let mut k: usize = 0;
    while k < disks.len()
        invariant
            k <= disks.len(),
            texts(path@) == components(root_path@),
            match best {
                Some(i) => chosen_among(disks@, root_path@, k as nat) == Some(i as int) && i < k
                    && depth == mount_depth(disks@[i as int]),
                None => chosen_among(disks@, root_path@, k as nat) is None,
            },
        decreases disks.len() - k,
    {
        let mount = path_components(disks[k].mount_point.as_str());
        if components_start_with(&path, &mount) && (best.is_none() || mount.len() > depth) {
            best = Some(k);
            depth = mount.len();
        }
        k += 1;
    }
    match best {
        Some(i) => (disks[i].mount_point.clone(), disks[i].total_space, disks[i].available_space),
        None => {
            let root = "/".to_owned();
            proof {
                reveal_strlit("/");
                assert(root@ =~= seq!['/']);
            }
            (root, 0, 0)
        },
    }
}

} // verus!
