use gpscan::inodes::InodeTracker;
use gpscan::platform::{EntryMetadata, MetadataExtOps};

#[test]
fn sizes_are_the_length_or_the_blocks() {
    let metadata = EntryMetadata::new(7, 42, 1000, Some(8), None, None, None).unwrap();
    assert_eq!(metadata.device_id(), 7);
    assert_eq!(metadata.inode_number(), 42);
    assert_eq!(metadata.file_size(true), 1000);
    assert_eq!(metadata.file_size(false), 4096);
}

#[test]
fn sizes_without_block_count_are_rounded_up_to_clusters() {
    let size = |length| {
        EntryMetadata::new(0, 0, length, None, None, None, None).unwrap().file_size(false)
    };
    assert_eq!(size(0), 0);
    assert_eq!(size(1), 4096);
    assert_eq!(size(4096), 4096);
    assert_eq!(size(4097), 8192);
    assert_eq!(size(u64::MAX - 4095), 18446744073709547520);
}

#[test]
fn storage_beyond_64_bits_is_refused() {
    assert!(EntryMetadata::new(0, 0, 0, Some(u64::MAX / 512), None, None, None).is_some());
    assert!(EntryMetadata::new(0, 0, 0, Some(u64::MAX / 512 + 1), None, None, None).is_none());
    assert!(EntryMetadata::new(0, 0, u64::MAX - 4095, None, None, None, None).is_some());
    assert!(EntryMetadata::new(0, 0, u64::MAX - 4094, None, None, None, None).is_none());
    assert!(EntryMetadata::new(0, 0, u64::MAX, Some(1), None, None, None).is_some());
}

#[test]
fn times_are_handed_out_as_they_were_given() {
    let metadata = EntryMetadata::new(0, 0, 0, None, Some(1), None, Some(-3)).unwrap();
    assert_eq!(metadata.times(), (Some(1), None, Some(-3)));
}

#[test]
fn the_tracker_remembers_what_was_marked() {
    let mut tracker = InodeTracker::new();
    assert!(!tracker.seen(5));
    tracker.mark(5);
    assert!(tracker.seen(5));
    assert!(!tracker.seen(6));
    tracker.mark(5);
    assert!(tracker.seen(5));
}

#[test]
fn the_tracker_never_holds_the_sentinel() {
    let mut tracker = InodeTracker::new();
    tracker.mark(0);
    assert!(!tracker.seen(0));
}
