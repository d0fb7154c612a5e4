use passiveradar::controls::{
    handle_key, DisplayModes, EllipseMode, Key, KeyEffect, TrackingMode, ViewState, WaterfallMode,
};
use passiveradar::track::{ListEntry, TrackState};

fn view() -> ViewState {
    ViewState {
        show_logs: true,
        show_towers: true,
        show_waterfall: true,
        data_version: 0,
        show_constellation: false,
        show_aligner: false,
        show_hacker: false,
        show_records: false,
        show_multipath: false,
        show_unconfirmed: false,
        crt_mode: false,
        screen_shake: false,
        show_jem_spectrogram: false,
        doppler_scale_pm: false,
        dc_block: false,
        one_bit_mode: false,
        selected_target_id: None,
        is_test: false,
        software_agc: true,
        sdr_hardware: true,
    }
}

fn modes() -> DisplayModes {
    DisplayModes {
        waterfall_mode: WaterfallMode::DopplerTime,
        ellipse_mode: EllipseMode::Off,
        tracking_mode: TrackingMode::Airspace,
    }
}

#[test]
fn quit_pause_and_step_keys() {
    let (mut v, mut m) = (view(), modes());
    assert_eq!(handle_key(&mut v, &mut m, Key::Char('q'), false, 100, &[]), KeyEffect::Exit);
    assert_eq!(handle_key(&mut v, &mut m, Key::Char('Q'), false, 100, &[]), KeyEffect::Exit);
    assert_eq!(handle_key(&mut v, &mut m, Key::Char(' '), false, 100, &[]), KeyEffect::SetPaused(true));
    assert_eq!(handle_key(&mut v, &mut m, Key::Char(' '), true, 100, &[]), KeyEffect::SetPaused(false));
    assert_eq!(handle_key(&mut v, &mut m, Key::Char('s'), true, 100, &[]), KeyEffect::RequestStep);
    assert_eq!(handle_key(&mut v, &mut m, Key::Char('s'), false, 100, &[]), KeyEffect::Nothing);
    assert_eq!(v, view());
    assert_eq!(m, modes());
}

#[test]
fn speed_keys_clamp() {
    let (mut v, mut m) = (view(), modes());
    assert_eq!(handle_key(&mut v, &mut m, Key::Char('+'), false, 100, &[]), KeyEffect::SetSpeed(125));
    assert_eq!(handle_key(&mut v, &mut m, Key::Char('='), false, 990, &[]), KeyEffect::SetSpeed(1000));
    assert_eq!(handle_key(&mut v, &mut m, Key::Char('-'), false, 100, &[]), KeyEffect::SetSpeed(75));
    assert_eq!(handle_key(&mut v, &mut m, Key::Char('-'), false, 30, &[]), KeyEffect::SetSpeed(25));
    assert_eq!(handle_key(&mut v, &mut m, Key::Char('-'), false, 10, &[]), KeyEffect::SetSpeed(25));
}

#[test]
fn toggle_keys_flip_one_flag_and_pressing_twice_restores() {
    let (mut v, mut m) = (view(), modes());
    handle_key(&mut v, &mut m, Key::Char('L'), false, 100, &[]);
    assert!(!v.show_logs);
    assert_eq!(ViewState { show_logs: true, ..v }, view());
    handle_key(&mut v, &mut m, Key::Char('l'), false, 100, &[]);
    assert_eq!(v, view());
    for c in ['t', 'w', 'c', 'a', 'h', 'r', 'p', 'u', 'x', 'm', 'j', 'v', 'd', '1'] {
        handle_key(&mut v, &mut m, Key::Char(c), false, 100, &[]);
        assert_ne!(v, view());
        handle_key(&mut v, &mut m, Key::Char(c), false, 100, &[]);
        assert_eq!(v, view());
    }
    assert_eq!(m, modes());
}

#[test]
fn meteor_and_one_bit_notes() {
    let (mut v, mut m) = (view(), modes());
    assert_eq!(handle_key(&mut v, &mut m, Key::Char('m'), false, 100, &[]), KeyEffect::LogMeteorEvent);
    assert!(v.screen_shake);
    assert_eq!(handle_key(&mut v, &mut m, Key::Char('M'), false, 100, &[]), KeyEffect::Nothing);
    assert_eq!(handle_key(&mut v, &mut m, Key::Char('1'), false, 100, &[]), KeyEffect::LogOneBitMode(true));
    assert_eq!(handle_key(&mut v, &mut m, Key::Char('1'), false, 100, &[]), KeyEffect::LogOneBitMode(false));
}

#[test]
fn waterfall_mode_switch_bumps_data_version() {
    let (mut v, mut m) = (view(), modes());
    handle_key(&mut v, &mut m, Key::Char('f'), false, 100, &[]);
    assert_eq!(m.waterfall_mode, WaterfallMode::RangeDoppler);
    assert_eq!(v.data_version, 1);
    handle_key(&mut v, &mut m, Key::Char('F'), false, 100, &[]);
    assert_eq!(m.waterfall_mode, WaterfallMode::DopplerTime);
    assert_eq!(v.data_version, 2);
    v.data_version = u64::MAX;
    handle_key(&mut v, &mut m, Key::Char('f'), false, 100, &[]);
    assert_eq!(v.data_version, 0);
}

#[test]
fn mode_keys_cycle_with_period_three() {
    let (mut v, mut m) = (view(), modes());
    handle_key(&mut v, &mut m, Key::Char('e'), false, 100, &[]);
    assert_eq!(m.ellipse_mode, EllipseMode::Selected);
    handle_key(&mut v, &mut m, Key::Char('E'), false, 100, &[]);
    assert_eq!(m.ellipse_mode, EllipseMode::All);
    handle_key(&mut v, &mut m, Key::Char('e'), false, 100, &[]);
    assert_eq!(m.ellipse_mode, EllipseMode::Off);
    let e = handle_key(&mut v, &mut m, Key::Char('k'), false, 100, &[]);
    assert_eq!(e, KeyEffect::LogTrackingMode(TrackingMode::GroundCar));
    let e = handle_key(&mut v, &mut m, Key::Char('K'), false, 100, &[]);
    assert_eq!(e, KeyEffect::LogTrackingMode(TrackingMode::GroundTrain));
    let e = handle_key(&mut v, &mut m, Key::Char('k'), false, 100, &[]);
    assert_eq!(e, KeyEffect::LogTrackingMode(TrackingMode::Airspace));
    assert_eq!(m, modes());
    assert_eq!(v, view());
}

#[test]
fn gain_keys_switch_agc_off() {
    let (mut v, mut m) = (view(), modes());
    assert_eq!(handle_key(&mut v, &mut m, Key::Char('['), false, 100, &[]), KeyEffect::GainDown);
    assert!(!v.software_agc);
    assert_eq!(handle_key(&mut v, &mut m, Key::Char('g'), false, 100, &[]), KeyEffect::RestartAgcClock);
    assert!(v.software_agc);
    assert_eq!(handle_key(&mut v, &mut m, Key::Char(']'), false, 100, &[]), KeyEffect::GainUp);
    assert!(!v.software_agc);
    // AGC only applies to a hardware receiver.
    v.sdr_hardware = false;
    assert_eq!(handle_key(&mut v, &mut m, Key::Char('G'), false, 100, &[]), KeyEffect::Nothing);
    assert!(!v.software_agc);
}

#[test]
fn arrow_keys_walk_the_target_list() {
    let (mut v, mut m) = (view(), modes());
    let ts = [
        ListEntry { state: TrackState::Suspect, id: 1, terminated_for: None },
        ListEntry { state: TrackState::Active, id: 7, terminated_for: None },
        ListEntry { state: TrackState::Coasting, id: 3, terminated_for: None },
        ListEntry { state: TrackState::Active, id: 2, terminated_for: None },
    ];
    // Unconfirmed targets hidden: order 2, 7, 3.
    handle_key(&mut v, &mut m, Key::Down, false, 100, &ts);
    assert_eq!(v.selected_target_id, Some(2));
    handle_key(&mut v, &mut m, Key::Down, false, 100, &ts);
    assert_eq!(v.selected_target_id, Some(7));
    handle_key(&mut v, &mut m, Key::Up, false, 100, &ts);
    assert_eq!(v.selected_target_id, Some(2));
    handle_key(&mut v, &mut m, Key::Up, false, 100, &ts);
    assert_eq!(v.selected_target_id, Some(3));
    // Showing unconfirmed targets puts the suspect one last.
    handle_key(&mut v, &mut m, Key::Char('u'), false, 100, &ts);
    handle_key(&mut v, &mut m, Key::Down, false, 100, &ts);
    assert_eq!(v.selected_target_id, Some(1));
    handle_key(&mut v, &mut m, Key::Esc, false, 100, &ts);
    assert_eq!(v.selected_target_id, None);
    // Other keys do nothing.
    let before = v;
    assert_eq!(handle_key(&mut v, &mut m, Key::Other, false, 100, &ts), KeyEffect::Nothing);
    assert_eq!(handle_key(&mut v, &mut m, Key::Char('z'), false, 100, &ts), KeyEffect::Nothing);
    assert_eq!(v, before);
}

#[test]
fn arrow_keys_in_test_mode_without_targets() {
    let (mut v, mut m) = (ViewState { is_test: true, ..view() }, modes());
    handle_key(&mut v, &mut m, Key::Up, false, 100, &[]);
    assert_eq!(v.selected_target_id, Some(999999));
}
