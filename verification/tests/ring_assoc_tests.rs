use passiveradar::assoc::greedy_associate;
use passiveradar::ring::{DelayLine, TapHistory};

#[test]
fn delay_line_returns_sample_from_delay_steps_ago() {
    let mut d = DelayLine::new(3, 0i32);
    let out: Vec<i32> = (1..=8).map(|x| d.push(x)).collect();
    assert_eq!(out, vec![0, 0, 0, 1, 2, 3, 4, 5]);
}

#[test]
fn delay_line_zero_delay_lags_one_step() {
    let mut d = DelayLine::new(0, -1i32);
    let out: Vec<i32> = (1..=4).map(|x| d.push(x)).collect();
    assert_eq!(out, vec![-1, 1, 2, 3]);
}

#[test]
fn tap_history_newest_first() {
    let mut h = TapHistory::new(3, 0i32);
    assert_eq!(h.push(1), vec![1, 0, 0]);
    assert_eq!(h.push(2), vec![2, 1, 0]);
    assert_eq!(h.push(3), vec![3, 2, 1]);
    assert_eq!(h.push(4), vec![4, 3, 2]);
    assert_eq!(h.push(5), vec![5, 4, 3]);
}

#[test]
fn greedy_association_takes_closest_first() {
    // Pairs sorted by distance: (track 0, det 1), (track 1, det 1), (track 0, det 0), (track 1, det 0).
    let a = greedy_associate(&[(0, 1), (1, 1), (0, 0), (1, 0)], 3, 2);
    assert_eq!(a.assigned, vec![(0, 1), (1, 0)]);
    assert_eq!(a.track_used, vec![true, true, false]);
    assert_eq!(a.detection_used, vec![true, true]);
    let empty = greedy_associate(&[], 2, 1);
    assert!(empty.assigned.is_empty());
    assert_eq!(empty.track_used, vec![false, false]);
    assert_eq!(empty.detection_used, vec![false]);
}
