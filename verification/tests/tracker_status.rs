//! Tracking records and root-address decisions.

use eve_ui_tree::eve_ui_tracker::EveUiTracker;
use eve_ui_tree::eve_ui_tracker::EveUiTrackerStatus;
use eve_ui_tree::eve_ui_tracker::extract_ui_tree_address;
use eve_ui_tree::eve_ui_tracker::get_root_address;
use eve_ui_tree::memory::MemorySnapshot;
use eve_ui_tree::memory::RegionContent;
use eve_ui_tree::ExtractError;

fn empty_snapshot() -> MemorySnapshot {
    MemorySnapshot::from_regions(vec![RegionContent { base_address: 0x1000, bytes: vec![0u8; 64] }])
        .unwrap()
}

#[test]
fn tracker_record_lifecycle() {
    let mut tracker = EveUiTracker::new();
    tracker.start_tracker(17);
    {
        let status = tracker.get_status(17).unwrap();
        assert_eq!(status.process_id, 17);
        assert_eq!(status.status, EveUiTrackerStatus::Running);
        assert!(status.error.is_none());
        assert!(status.general_window.is_none());
        assert_eq!(status.ms_processing, 0);
    }
    tracker.modify_eve_duration_processing(17, 250);
    assert_eq!(tracker.get_status(17).unwrap().ms_processing, 250);
    tracker.send_error(17, String::from("no root found"));
    assert_eq!(tracker.get_status(17).unwrap().error.as_ref().unwrap().as_str(), "no root found");
    // Updates keep the rest of the record.
    assert_eq!(tracker.get_status(17).unwrap().ms_processing, 250);
    tracker.stop_tracker(17);
    let stopped = tracker.get_status(17).unwrap();
    assert_eq!(stopped.status, EveUiTrackerStatus::Stopped);
    assert_eq!(stopped.error.as_ref().unwrap().as_str(), "no root found");
    assert_eq!(stopped.ms_processing, 250);
    assert!(tracker.get_status(99).is_none());
}

#[test]
fn no_root_in_empty_snapshot() {
    let snapshot = empty_snapshot();
    assert!(get_root_address(&snapshot).is_none());
    assert!(matches!(
        extract_ui_tree_address(&snapshot, None),
        Err(ExtractError::NotFound)
    ));
    // A stored address whose tree does not decode falls back to the scan,
    // which also finds nothing here.
    assert!(matches!(
        extract_ui_tree_address(&snapshot, Some(0x1000)),
        Err(ExtractError::NotFound)
    ));
}

#[test]
fn invalid_region_lists_are_rejected() {
    // Overlapping ranges cannot form a snapshot.
    let overlapping = MemorySnapshot::from_regions(vec![
        RegionContent { base_address: 0x1000, bytes: vec![0u8; 64] },
        RegionContent { base_address: 0x1020, bytes: vec![0u8; 64] },
    ]);
    assert!(overlapping.is_none());
    // Unsorted ranges cannot either.
    let unsorted = MemorySnapshot::from_regions(vec![
        RegionContent { base_address: 0x2000, bytes: vec![0u8; 8] },
        RegionContent { base_address: 0x1000, bytes: vec![0u8; 8] },
    ]);
    assert!(unsorted.is_none());
    // A range that would wrap the address space cannot either.
    let wrapping = MemorySnapshot::from_regions(vec![RegionContent {
        base_address: u64::MAX - 4,
        bytes: vec![0u8; 64],
    }]);
    assert!(wrapping.is_none());
}
