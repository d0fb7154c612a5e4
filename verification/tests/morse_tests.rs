use passiveradar::morse::morse_pairs;
use passiveradar::unionfind::{DeadPeak, Dsu};

#[test]
fn morse_rejects_bad_shapes() {
    assert!(morse_pairs(&vec![]).is_none());
    assert!(morse_pairs(&vec![vec![]]).is_none());
    assert!(morse_pairs(&vec![vec![1, 2], vec![3]]).is_none());
    assert!(morse_pairs(&vec![vec![0u64; 257]]).is_none());
    assert!(morse_pairs(&vec![vec![0u64; 1]; 257]).is_none());
}

#[test]
fn morse_two_peaks_one_saddle() {
    // Row with peaks 9 and 5 separated by a valley of 1.
    let grid = vec![vec![9, 4, 1, 3, 5]];
    let (g, dead) = morse_pairs(&grid).unwrap();
    assert_eq!(g, (0, 0));
    // The lower peak (5 at column 4) dies at the saddle (1 at column 2);
    // every other cell dies on arrival with zero persistence.
    let lower = dead.iter().find(|d| (d.delay, d.doppler) == (0, 4)).unwrap();
    assert_eq!(lower.key, 5);
    assert_eq!((lower.saddle_delay, lower.saddle_doppler, lower.saddle_key), (0, 2, 1));
    assert_eq!(dead.len(), 4);
    for d in &dead {
        assert!(d.key >= d.saddle_key);
        assert_ne!((d.delay, d.doppler), g);
    }
}

#[test]
fn morse_single_cell() {
    let (g, dead) = morse_pairs(&vec![vec![42]]).unwrap();
    assert_eq!(g, (0, 0));
    assert!(dead.is_empty());
}

#[test]
fn morse_global_peak_is_maximum_2d() {
    let grid = vec![vec![1, 2, 3], vec![8, 0, 4], vec![7, 6, 5]];
    let (g, dead) = morse_pairs(&grid).unwrap();
    assert_eq!(g, (1, 0));
    // A connected grid of 9 cells ends as one component.
    assert_eq!(dead.len(), 8);
    let mut cells: Vec<(usize, usize)> = dead.iter().map(|d| (d.delay, d.doppler)).collect();
    cells.sort();
    cells.dedup();
    assert_eq!(cells.len(), 8);
}

#[test]
fn union_find_merges_and_reports_lower_peak() {
    let mut dsu = Dsu::new(4);
    dsu.set_peak(0, 10, (0, 0));
    dsu.set_peak(1, 7, (0, 1));
    dsu.set_peak(2, 3, (0, 2));
    let mut dead: Vec<DeadPeak> = Vec::new();
    assert!(dsu.union(1, 2, 3, (0, 2), &mut dead));
    assert_eq!(dead.len(), 1);
    assert_eq!(dead[0].key, 3);
    assert!(dsu.union(0, 2, 2, (0, 3), &mut dead));
    assert_eq!(dead[1].key, 7);
    assert_eq!((dead[1].delay, dead[1].doppler), (0, 1));
    assert!(!dsu.union(1, 0, 1, (0, 3), &mut dead));
    assert_eq!(dead.len(), 2);
    let r = dsu.find(2);
    assert_eq!(r, dsu.find(1));
    assert_eq!(r, dsu.find(0));
    assert_ne!(dsu.find(3), r);
}

#[test]
fn union_find_tie_keeps_first_component() {
    let mut dsu = Dsu::new(2);
    dsu.set_peak(0, 5, (0, 0));
    dsu.set_peak(1, 5, (0, 1));
    let mut dead = Vec::new();
    assert!(dsu.union(1, 0, 5, (0, 1), &mut dead));
    assert_eq!((dead[0].delay, dead[0].doppler), (0, 0));
}

#[test]
fn morse_pairs_exact_list_on_three_cells() {
    // Keys 2, 1, 3: the cell of key 1 is swept last and meets (0, 0) first,
    // dying on arrival; the joined component (peak 2) then meets the
    // component of peak 3 and dies at the same saddle.
    let (g, dead) = morse_pairs(&vec![vec![2, 1, 3]]).unwrap();
    assert_eq!(g, (0, 2));
    let expected = vec![
        DeadPeak { delay: 0, doppler: 1, key: 1, saddle_delay: 0, saddle_doppler: 1, saddle_key: 1 },
        DeadPeak { delay: 0, doppler: 0, key: 2, saddle_delay: 0, saddle_doppler: 1, saddle_key: 1 },
    ];
    assert_eq!(dead, expected);
}

#[test]
fn morse_pairs_exact_list_on_two_by_two() {
    // Sweep order: 9 at (0,0), 7 at (1,1), 5 at (0,1), 3 at (1,0).
    // Each later cell first meets the component of 9 and dies on arrival at
    // its own cell; afterwards every other neighbour is already joined.
    let (g, dead) = morse_pairs(&vec![vec![9, 5], vec![3, 7]]).unwrap();
    assert_eq!(g, (0, 0));
    let expected = vec![
        DeadPeak { delay: 1, doppler: 1, key: 7, saddle_delay: 1, saddle_doppler: 1, saddle_key: 7 },
        DeadPeak { delay: 0, doppler: 1, key: 5, saddle_delay: 0, saddle_doppler: 1, saddle_key: 5 },
        DeadPeak { delay: 1, doppler: 0, key: 3, saddle_delay: 1, saddle_doppler: 0, saddle_key: 3 },
    ];
    assert_eq!(dead, expected);
}
