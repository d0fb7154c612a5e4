use passiveradar::track::{
    allocate_id, cycle_selection, keep_target, push_bounded, push_front_bounded,
    should_save_fingerprint, slow_down, speed_up, CandidateCounters, CandidateFate, FrameLimits,
    LifecycleEvent, ListEntry, TrackLifecycle, TrackState, display_rank, is_listed,
};

fn limits() -> FrameLimits {
    // dt = 0.1 s
    FrameLimits {
        miss_airliner_active: 32,
        miss_suspect: 23,
        miss_other: 18,
        coast_long: 400,
        coast_medium: 200,
        coast_short: 70,
    }
}

#[test]
fn suspect_confirmed_after_three_hits() {
    let mut t = TrackLifecycle::new_suspect();
    assert_eq!(t.step(true, false, limits()), LifecycleEvent::Quiet);
    assert_eq!(t.state, TrackState::Suspect);
    assert_eq!(t.step(true, false, limits()), LifecycleEvent::Confirmed);
    assert_eq!(t.state, TrackState::Active);
    assert_eq!(t.hits, 3);
}

#[test]
fn drone_coasts_then_terminates() {
    let mut t = TrackLifecycle { state: TrackState::Active, hits: 10, misses: 0, coasting_frames: 0 };
    for _ in 0..17 {
        assert_eq!(t.step(false, false, limits()), LifecycleEvent::Quiet);
    }
    assert_eq!(t.step(false, false, limits()), LifecycleEvent::CoastStarted);
    assert_eq!(t.state, TrackState::Coasting);
    for _ in 0..69 {
        assert_eq!(t.step(false, false, limits()), LifecycleEvent::Quiet);
    }
    assert_eq!(t.step(false, false, limits()), LifecycleEvent::LostAfterCoast);
    assert_eq!(t.state, TrackState::Terminated);
    let frozen = t;
    assert_eq!(t.step(true, true, limits()), LifecycleEvent::Quiet);
    assert_eq!(t, frozen);
}

#[test]
fn airliner_tolerates_more_misses() {
    let mut t = TrackLifecycle { state: TrackState::Active, hits: 100, misses: 0, coasting_frames: 0 };
    for _ in 0..31 {
        t.step(false, true, limits());
    }
    assert_eq!(t.state, TrackState::Active);
    assert_eq!(t.step(false, true, limits()), LifecycleEvent::CoastStarted);
}

#[test]
fn coasting_track_recovers_on_hit() {
    let mut t = TrackLifecycle { state: TrackState::Coasting, hits: 30, misses: 18, coasting_frames: 5 };
    assert_eq!(t.step(true, false, limits()), LifecycleEvent::Recovered);
    assert_eq!(t, TrackLifecycle { state: TrackState::Active, hits: 31, misses: 0, coasting_frames: 0 });
}

#[test]
fn suspect_times_out() {
    let mut t = TrackLifecycle::new_suspect();
    for _ in 0..22 {
        t.step(false, true, limits());
    }
    assert_eq!(t.step(false, true, limits()), LifecycleEvent::TimedOut);
    assert_eq!(t.state, TrackState::Terminated);
}

#[test]
fn candidate_m_of_n() {
    let mut c = CandidateCounters::first_detection();
    assert_eq!(c.fate(), CandidateFate::Keep(c));
    c.record_hit();
    c.record_hit();
    assert_eq!(c.hits, 3);
    assert_eq!(c.fate(), CandidateFate::Promote);
    let stale = CandidateCounters { hits: 1, misses: 2, updated_this_frame: false };
    assert_eq!(stale.fate(), CandidateFate::Discard);
    let once = CandidateCounters { hits: 1, misses: 0, updated_this_frame: false };
    assert_eq!(once.fate(), CandidateFate::Keep(CandidateCounters { hits: 1, misses: 1, updated_this_frame: false }));
}

#[test]
fn ids_are_recycled() {
    assert_eq!(allocate_id(&[]), 1);
    assert_eq!(allocate_id(&[1, 2, 3]), 4);
    assert_eq!(allocate_id(&[3, 1, 4]), 2);
    assert_eq!(allocate_id(&[2, 5]), 1);
    assert_eq!(allocate_id(&[42]), 1);
    // Duplicates and zero stop the walk as the sorted scan does.
    assert_eq!(allocate_id(&[1, 1, 2]), 2);
    assert_eq!(allocate_id(&[0, 1]), 1);
}

#[test]
fn selection_cycles_through_display_order() {
    let ts = vec![
        ListEntry { state: TrackState::Suspect, id: 1, terminated_for: None },
        ListEntry { state: TrackState::Active, id: 7, terminated_for: None },
        ListEntry { state: TrackState::Coasting, id: 3, terminated_for: None },
        ListEntry { state: TrackState::Active, id: 2, terminated_for: None },
        ListEntry { state: TrackState::Terminated, id: 9, terminated_for: Some(40_000_000_000) },
        ListEntry { state: TrackState::Terminated, id: 8, terminated_for: Some(1_000_000_000) },
    ];
    // Display order with unconfirmed shown: 2, 7 (active), 3 (coasting), 1 (suspect), 8 (offline).
    assert_eq!(cycle_selection(&ts, true, None, false, false), Some(2));
    assert_eq!(cycle_selection(&ts, true, Some(2), false, false), Some(7));
    assert_eq!(cycle_selection(&ts, true, Some(7), false, false), Some(3));
    assert_eq!(cycle_selection(&ts, true, Some(8), false, false), Some(2));
    assert_eq!(cycle_selection(&ts, true, None, true, false), Some(8));
    assert_eq!(cycle_selection(&ts, true, Some(2), true, false), Some(8));
    // Hiding unconfirmed skips the suspect target.
    assert_eq!(cycle_selection(&ts, false, Some(3), false, false), Some(8));
    // A selection that is not listed restarts from the ends.
    assert_eq!(cycle_selection(&ts, true, Some(9), false, false), Some(2));
    assert_eq!(cycle_selection(&[], true, Some(5), false, false), Some(5));
    assert_eq!(cycle_selection(&[], true, None, false, true), Some(999999));
}

#[test]
fn listing_rules() {
    assert_eq!(display_rank(TrackState::Active), 0);
    assert_eq!(display_rank(TrackState::Terminated), 3);
    let sus = ListEntry { state: TrackState::Suspect, id: 1, terminated_for: None };
    assert!(!is_listed(sus, false));
    assert!(is_listed(sus, true));
    let off = ListEntry { state: TrackState::Terminated, id: 1, terminated_for: Some(30_000_000_000) };
    assert!(is_listed(off, false));
    let gone = ListEntry { state: TrackState::Terminated, id: 1, terminated_for: Some(30_000_000_001) };
    assert!(!is_listed(gone, false));
}

#[test]
fn speed_keys() {
    assert_eq!(speed_up(100), 125);
    assert_eq!(speed_up(990), 1000);
    assert_eq!(slow_down(100), 75);
    assert_eq!(slow_down(30), 25);
    assert_eq!(slow_down(0), 25);
}

#[test]
fn retention_rules() {
    assert!(keep_target(TrackState::Active, None, false));
    assert!(!keep_target(TrackState::Terminated, None, false));
    assert!(keep_target(TrackState::Terminated, Some(9_999_999_999), false));
    assert!(!keep_target(TrackState::Terminated, Some(10_000_000_000), false));
    assert!(keep_target(TrackState::Terminated, Some(89_000_000_000), true));
    assert!(should_save_fingerprint(TrackState::Terminated, Some(10_000_000_000), false, 5));
    assert!(!should_save_fingerprint(TrackState::Terminated, Some(10_000_000_000), false, 4));
    assert!(!should_save_fingerprint(TrackState::Terminated, Some(50_000_000_000), true, 9));
    assert!(!should_save_fingerprint(TrackState::Active, Some(50_000_000_000), false, 9));
}

#[test]
fn bounded_histories() {
    let mut v = vec![1, 2, 3];
    push_bounded(&mut v, 4, 3);
    assert_eq!(v, vec![2, 3, 4]);
    push_bounded(&mut v, 5, 10);
    assert_eq!(v, vec![2, 3, 4, 5]);
    let mut f = vec![1, 2];
    push_front_bounded(&mut f, 0, 2);
    assert_eq!(f, vec![0, 1]);
    push_front_bounded(&mut f, 9, 5);
    assert_eq!(f, vec![9, 0, 1]);
}

#[test]
fn up_then_down_restores_selection() {
    let ts = [
        ListEntry { state: TrackState::Active, id: 4, terminated_for: None },
        ListEntry { state: TrackState::Coasting, id: 9, terminated_for: None },
        ListEntry { state: TrackState::Active, id: 1, terminated_for: None },
    ];
    for id in [4u32, 9, 1] {
        let up = cycle_selection(&ts, false, Some(id), true, false);
        assert_eq!(cycle_selection(&ts, false, up, false, false), Some(id));
        let down = cycle_selection(&ts, false, Some(id), false, false);
        assert_eq!(cycle_selection(&ts, false, down, true, false), Some(id));
    }
}
