use passiveradar::decimate::WindowSchedule;
use passiveradar::declip::repairable_runs;
use passiveradar::padic::{p_adic_valuation, padic_digits};
use passiveradar::spectrum::{fft_shift, near_any, upsample_hold, wavelet_levels, FrameBuffer};
use passiveradar::tbd::{backtrack, transition_window};
use passiveradar::wsjson::space_json_colons;

#[test]
fn p_adic_valuations() {
    // v_2(10 - 2) = v_2(8) = 3, v_2(5 - 4) = 0.
    assert_eq!(p_adic_valuation(10, 2, 2), 3);
    assert_eq!(p_adic_valuation(5, 4, 2), 0);
    assert_eq!(p_adic_valuation(2, 10, 2), 3);
    assert_eq!(p_adic_valuation(0, 54, 3), 3);
    assert_eq!(p_adic_valuation(u64::MAX, 0, 5), 1);
}

#[test]
fn monna_digits() {
    // 12 in base 3 is 110, least significant digit first: 0, 1, 1.
    assert_eq!(padic_digits(12, 3), vec![0, 1, 1]);
    assert_eq!(padic_digits(0, 3), Vec::<u64>::new());
    assert_eq!(padic_digits(12, 1), Vec::<u64>::new());
    let ds = padic_digits(987654321, 7);
    let mut v = 0u64;
    for d in ds.iter().rev() {
        v = v * 7 + d;
    }
    assert_eq!(v, 987654321);
}

#[test]
fn declip_runs() {
    let m = |s: &str| s.chars().map(|c| c == 'x').collect::<Vec<bool>>();
    assert_eq!(repairable_runs(&m("..xx..x..xxxx.."), 3), vec![(2, 4), (6, 7)]);
    // Runs touching the edges or too long are left alone.
    assert_eq!(repairable_runs(&m("x....xxx..x"), 2), vec![]);
    assert_eq!(repairable_runs(&m("..x.."), 3), vec![]);
    assert_eq!(repairable_runs(&m("..x..."), 3), vec![(2, 3)]);
}

#[test]
fn decimator_window_plan() {
    let mut s = WindowSchedule::new(8, 31);
    let p = s.plan(100);
    // Windows at 0, 8, ..., 64 fit (64 + 31 <= 100); the next starts at 72.
    assert_eq!((p.first, p.count, p.dropped), (0, 9, 72));
    let q = s.plan(10);
    assert_eq!((q.first, q.count, q.dropped), (0, 1, 8));
    let r = s.plan(0);
    assert_eq!((r.first, r.count, r.dropped), (0, 0, 0));
}

#[test]
fn decimator_chunking_keeps_window_grid() {
    let mut whole = WindowSchedule::new(4, 7);
    let pw = whole.plan(101);
    let mut split = WindowSchedule::new(4, 7);
    let mut total = 0;
    for chunk in [13usize, 1, 40, 47] {
        total += split.plan(chunk).count;
    }
    assert_eq!(total, pw.count);
}

#[test]
fn spectrum_shift_and_frames() {
    assert_eq!(fft_shift(&[0, 1, 2, 3]), vec![2, 3, 0, 1]);
    assert_eq!(fft_shift(&[0, 1, 2, 3, 4]), vec![3, 4, 0, 1, 2]);
    assert_eq!(fft_shift::<u8>(&[]), Vec::<u8>::new());
    let mut fb = FrameBuffer::new(4);
    fb.feed(&[1, 2, 3]);
    assert!(!fb.has_frame());
    assert_eq!(fb.next_frame(2), None);
    fb.feed(&[4, 5]);
    assert_eq!(fb.next_frame(2), Some(vec![1, 2, 3, 4]));
    assert_eq!(fb.len(), 3);
    fb.clear();
    assert_eq!(fb.len(), 0);
}

#[test]
fn wavelet_structure() {
    assert_eq!(wavelet_levels(256), (3, 32));
    assert_eq!(wavelet_levels(5), (2, 1));
    assert_eq!(wavelet_levels(1), (0, 1));
    assert_eq!(wavelet_levels(0), (0, 0));
    assert_eq!(upsample_hold(&[1, 2], 1, 5), vec![1, 1, 2, 2, 2]);
    assert_eq!(upsample_hold(&[7, 8, 9], 2, 10), vec![7, 7, 7, 7, 8, 8, 8, 8, 9, 9]);
    assert!(near_any(50, &[47, 120], 3));
    assert!(!near_any(50, &[46, 120], 3));
    assert!(!near_any(50, &[], 3));
}

#[test]
fn viterbi_backtrack_and_windows() {
    let bp = vec![vec![0, 0, 0, 0], vec![1, 0, 3, 2], vec![2, 2, 0, 1]];
    // States: frame 2 = 3, frame 1 = bp[2][3] = 1, frame 0 = bp[1][1] = 0.
    assert_eq!(backtrack(&bp, 3, 2, 4), vec![(0, 0), (0, 1), (1, 1)]);
    let w = transition_window(0, 10, 10);
    assert_eq!((w.min_delay, w.max_delay, w.min_doppler, w.max_doppler), (0, 2, 0, 3));
    let w = transition_window(55, 10, 10);
    assert_eq!((w.min_delay, w.max_delay, w.min_doppler, w.max_doppler), (3, 7, 2, 8));
    let w = transition_window(99, 10, 10);
    assert_eq!((w.min_delay, w.max_delay, w.min_doppler, w.max_doppler), (7, 9, 6, 9));
}

#[test]
fn ws_json_spacing() {
    let raw: Vec<char> = r#"{"a":1,"b":"x:y","c":{"d":"\":"}}"#.chars().collect();
    let out: String = space_json_colons(&raw).into_iter().collect();
    assert_eq!(out, r#"{"a": 1,"b": "x:y","c": {"d": "\":"}}"#);
    let stripped: String = out.chars().filter(|c| *c != ' ').collect();
    assert_eq!(stripped, raw.iter().filter(|c| **c != ' ').collect::<String>());
}
