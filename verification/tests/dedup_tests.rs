use passiveradar::dedup::{DupTrack, DuplicateScan, Merge};
use passiveradar::track::TrackState;

fn t(state: TrackState, id: u32, hits: usize) -> DupTrack {
    DupTrack { state, id, hits }
}

/// Runs a scan, answering with `dup(i, j)`; returns the pairs asked, the
/// merges and the ids removed.
fn run(ts: &[DupTrack], dup: impl Fn(usize, usize) -> bool) -> (Vec<(usize, usize)>, Vec<Merge>, Vec<u32>) {
    let mut scan = DuplicateScan::new();
    let mut asked = Vec::new();
    let mut merges = Vec::new();
    while let Some((i, j)) = scan.next_pair(ts) {
        asked.push((i, j));
        if let Some(m) = scan.resolve(ts, dup(i, j)) {
            merges.push(m);
        }
    }
    let removed = ts.iter().map(|t| t.id).filter(|&id| scan.is_removed(id)).collect();
    (asked, merges, removed)
}

#[test]
fn every_live_pair_is_asked_once_in_order() {
    let ts = [
        t(TrackState::Active, 1, 10),
        t(TrackState::Terminated, 2, 50),
        t(TrackState::Suspect, 3, 1),
        t(TrackState::Coasting, 4, 7),
    ];
    let (asked, merges, removed) = run(&ts, |_, _| false);
    assert_eq!(asked, vec![(0, 2), (0, 3), (2, 3)]);
    assert!(merges.is_empty());
    assert!(removed.is_empty());
}

#[test]
fn more_hits_then_lower_id_wins() {
    let ts = [t(TrackState::Active, 5, 3), t(TrackState::Active, 2, 9)];
    let (_, merges, removed) = run(&ts, |_, _| true);
    assert_eq!(merges, vec![Merge { superior: 1, inferior: 0 }]);
    assert_eq!(removed, vec![5]);

    let ts = [t(TrackState::Active, 5, 4), t(TrackState::Active, 2, 4)];
    let (_, merges, removed) = run(&ts, |_, _| true);
    assert_eq!(merges, vec![Merge { superior: 1, inferior: 0 }]);
    assert_eq!(removed, vec![5]);
}

#[test]
fn removed_tracks_are_skipped_as_partners() {
    // Track 1 absorbs track 2; track 2 is then no partner of anyone.
    let ts = [
        t(TrackState::Active, 1, 20),
        t(TrackState::Active, 2, 5),
        t(TrackState::Active, 3, 5),
    ];
    let (asked, merges, removed) = run(&ts, |i, j| (i, j) == (0, 1));
    assert_eq!(asked, vec![(0, 1), (0, 2)]);
    assert_eq!(merges, vec![Merge { superior: 0, inferior: 1 }]);
    assert_eq!(removed, vec![2]);
}

#[test]
fn an_absorbed_track_still_finishes_its_own_row() {
    // Track 1 is absorbed by track 2 but is still compared with track 3 in
    // the same row, and can absorb it.
    let ts = [
        t(TrackState::Active, 1, 5),
        t(TrackState::Active, 2, 20),
        t(TrackState::Active, 3, 1),
    ];
    let (asked, merges, removed) = run(&ts, |_, _| true);
    assert_eq!(asked, vec![(0, 1), (0, 2)]);
    assert_eq!(
        merges,
        vec![Merge { superior: 1, inferior: 0 }, Merge { superior: 0, inferior: 2 }]
    );
    assert_eq!(removed, vec![1, 3]);
}

#[test]
fn short_lists() {
    let (asked, _, _) = run(&[], |_, _| true);
    assert!(asked.is_empty());
    let (asked, _, _) = run(&[t(TrackState::Active, 1, 1)], |_, _| true);
    assert!(asked.is_empty());
}

#[test]
fn duplicate_airliner_scenario() {
    // Target 1 (10 hits, generic label) and target 2 (8 hits, flight label)
    // are found to be duplicates: target 1 is kept and takes over the flight label.
    let ts = [t(TrackState::Active, 1, 10), t(TrackState::Active, 2, 8)];
    let (asked, merges, removed) = run(&ts, |_, _| true);
    assert_eq!(asked, vec![(0, 1)]);
    assert_eq!(merges, vec![Merge { superior: 0, inferior: 1 }]);
    assert_eq!(removed, vec![2]);
    assert!(passiveradar::labels::inherits_label("Commercial Airliner", "AAL191 (B788)"));
    // Targets 50 km apart are no duplicates: both stay.
    let (_, merges, removed) = run(&ts, |_, _| false);
    assert!(merges.is_empty());
    assert!(removed.is_empty());
}

#[test]
fn survivors_keep_order_and_drop_marked_ids() {
    let ts = vec![
        DupTrack { state: TrackState::Active, id: 4, hits: 10 },
        DupTrack { state: TrackState::Terminated, id: 5, hits: 1 },
        DupTrack { state: TrackState::Active, id: 6, hits: 3 },
        DupTrack { state: TrackState::Suspect, id: 7, hits: 3 },
    ];
    let mut scan = DuplicateScan::new();
    // First pair: (0, 2) (the terminated track is skipped); call it a duplicate.
    assert_eq!(scan.next_pair(&ts), Some((0, 2)));
    let m = scan.resolve(&ts, true).unwrap();
    assert_eq!((m.superior, m.inferior), (0, 2));
    assert_eq!(scan.next_pair(&ts), Some((0, 3)));
    assert!(scan.resolve(&ts, false).is_none());
    assert_eq!(scan.next_pair(&ts), None);
    assert_eq!(scan.survivors(&ts), vec![0, 1, 3]);
}
