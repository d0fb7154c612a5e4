use passiveradar::cic::CicDecimator;
use passiveradar::jem::{cic_decimation_factor, decimator_for_mode, fft_size_change, is_supported_fft_size, CicMode};

fn constant_input(len: usize, re: i64, im: i64) -> Vec<(i64, i64)> {
    vec![(re, im); len]
}

#[test]
fn cic_decimation_counts_per_mode() {
    // 1600 samples: R = 8 gives 200 outputs, R = 80 gives 20.
    let input = constant_input(1600, 1 << 30, 2 << 30);
    let mut rotary = CicDecimator::new(8, 3);
    let mut out = Vec::new();
    rotary.process_fixed(&input, &mut out);
    assert_eq!(out.len(), 200);
    let mut seismic = CicDecimator::new(80, 3);
    let mut out2 = Vec::new();
    seismic.process_fixed(&input, &mut out2);
    assert_eq!(out2.len(), 20);
}

#[test]
fn cic_settles_to_dc_gain() {
    // A constant input settles to R^N times the input.
    let input = constant_input(1600, 1 << 30, 2 << 30);
    let mut d = CicDecimator::new(8, 3);
    let mut out = Vec::new();
    d.process_fixed(&input, &mut out);
    let last = *out.last().unwrap();
    assert_eq!(last, ((1i64 << 30) * 512, (2i64 << 30) * 512));
}

#[test]
fn cic_first_outputs_exact() {
    // Impulse response of a 1-stage CIC with R = 2 is a moving sum of 2.
    let mut d = CicDecimator::new(2, 1);
    let mut out = Vec::new();
    d.process_fixed(&[(1, 10), (2, 20), (3, 30), (4, 40)], &mut out);
    assert_eq!(out, vec![(3, 30), (7, 70)]);
}

#[test]
fn cic_streaming_matches_single_block() {
    let input: Vec<(i64, i64)> = (0..97).map(|k| (k * 37 - 500, 1000 - k * 11)).collect();
    let mut whole = CicDecimator::new(5, 3);
    let mut out_whole = Vec::new();
    whole.process_fixed(&input, &mut out_whole);
    let mut split = CicDecimator::new(5, 3);
    let mut out_split = Vec::new();
    split.process_fixed(&input[..31], &mut out_split);
    split.process_fixed(&input[31..], &mut out_split);
    assert_eq!(out_whole, out_split);
    assert_eq!(out_whole.len(), 97 / 5);
}

#[test]
fn cic_wraps_instead_of_overflowing() {
    let mut d = CicDecimator::new(2, 2);
    let mut out = Vec::new();
    d.process_fixed(&[(i64::MAX, i64::MIN), (i64::MAX, i64::MIN)], &mut out);
    assert_eq!(out.len(), 1);
    // Wrapping integrators followed by wrapping combs recover the exact
    // 2-stage moving sum modulo 2^64.
    let expected_re = i64::MAX.wrapping_mul(3);
    let expected_im = i64::MIN.wrapping_mul(3);
    assert_eq!(out[0], (expected_re, expected_im));
}

#[test]
fn cic_mode_factors() {
    assert_eq!(cic_decimation_factor(CicMode::Seismic), 80);
    assert_eq!(cic_decimation_factor(CicMode::Rotary), 8);
    assert_eq!(cic_decimation_factor(CicMode::Acoustic), 1);
    let d = decimator_for_mode(CicMode::Seismic);
    assert_eq!(d.decimation_factor(), 80);
    assert_eq!(d.stages(), 3);
}

#[test]
fn fft_size_rules() {
    for s in [256usize, 512, 1024, 2048, 4096, 8192] {
        assert!(is_supported_fft_size(s));
    }
    for s in [0usize, 128, 300, 16384] {
        assert!(!is_supported_fft_size(s));
    }
    assert!(fft_size_change(256, 2048));
    assert!(!fft_size_change(2048, 2048));
    assert!(!fft_size_change(256, 1000));
}

#[test]
fn test_cic_decimation_bounds() {
    // Samples 1 + 2i in fixed point (scale 2^30).
    let one: i64 = 1 << 30;
    let input = constant_input(1600, one, 2 * one);

    // Acoustic mode (R = 1): every sample comes out unchanged.
    let mut dec_acoustic = CicDecimator::new(1, 3);
    let mut output = Vec::new();
    dec_acoustic.process_fixed(&input, &mut output);
    assert_eq!(output.len(), 1600);
    for i in 0..1600 {
        assert_eq!(output[i], input[i]);
    }

    // Rotary mode (R = 8): 1600 / 8 = 200 outputs, settled at gain 8^3.
    let mut dec_rotary = CicDecimator::new(8, 3);
    let mut output_rotary = Vec::new();
    dec_rotary.process_fixed(&input, &mut output_rotary);
    assert_eq!(output_rotary.len(), 200);
    assert_eq!(*output_rotary.last().unwrap(), (one * 512, 2 * one * 512));

    // Seismic mode (R = 80): 1600 / 80 = 20 outputs, settled at gain 80^3.
    let mut dec_seismic = CicDecimator::new(80, 3);
    let mut output_seismic = Vec::new();
    dec_seismic.process_fixed(&input, &mut output_seismic);
    assert_eq!(output_seismic.len(), 20);
    assert_eq!(*output_seismic.last().unwrap(), (one * 512_000, 2 * one * 512_000));
}

#[test]
fn cic_factor_one_bypasses_and_keeps_state() {
    let mut d = CicDecimator::new(1, 2);
    let mut out = vec![(7, 7)];
    d.process_fixed(&[(1, -1), (5, 9)], &mut out);
    assert_eq!(out, vec![(7, 7), (1, -1), (5, 9)]);
    assert_eq!(d.phase(), 0);
    assert_eq!(d.decimation_factor(), 1);
    assert_eq!(d.stages(), 2);
}

#[test]
fn cic_factor_zero_never_outputs() {
    let mut d = CicDecimator::new(0, 3);
    let mut out = Vec::new();
    d.process_fixed(&[(1, 1), (2, 2), (3, 3)], &mut out);
    assert!(out.is_empty());
    assert_eq!(d.phase(), 3);
    d.process_fixed(&[(4, 4)], &mut out);
    assert!(out.is_empty());
    assert_eq!(d.phase(), 4);
}

#[test]
fn cic_phase_counts_samples_modulo_factor() {
    let mut d = CicDecimator::new(4, 1);
    let mut out = Vec::new();
    d.process_fixed(&[(1, 0); 10], &mut out);
    assert_eq!(out.len(), 2);
    assert_eq!(d.phase(), 2);
}
