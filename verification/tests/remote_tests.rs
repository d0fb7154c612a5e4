use passiveradar::controls::ViewState;
use passiveradar::jem::{parse_cic_mode, vibrometer_decimation, CicMode};
use passiveradar::remote::{apply_remote, decode_remote, RemoteArgs, RemoteCommand, RemoteReply, RemoteRequest, RemoteSettings};

fn view() -> ViewState {
    ViewState {
        show_logs: true,
        show_towers: true,
        show_waterfall: true,
        data_version: 0,
        show_constellation: false,
        show_aligner: false,
        show_hacker: false,
        show_records: false,
        show_multipath: false,
        show_unconfirmed: false,
        crt_mode: false,
        screen_shake: false,
        show_jem_spectrogram: false,
        doppler_scale_pm: false,
        dc_block: false,
        one_bit_mode: false,
        selected_target_id: None,
        is_test: false,
        software_agc: true,
        sdr_hardware: true,
    }
}

fn settings() -> RemoteSettings {
    RemoteSettings { waterfall_min: -90, waterfall_max: 0, doppler_fft_size: 1024 }
}

#[test]
fn flag_commands_set_one_flag() {
    let (mut v, mut s) = (view(), settings());
    assert_eq!(apply_remote(&mut v, &mut s, RemoteCommand::SetAgc(false)), RemoteReply::SoftwareAgc(false));
    assert_eq!(v, ViewState { software_agc: false, ..view() });
    assert_eq!(apply_remote(&mut v, &mut s, RemoteCommand::SetDcBlock(true)), RemoteReply::DcBlock(true));
    assert!(v.dc_block);
    assert_eq!(apply_remote(&mut v, &mut s, RemoteCommand::SetOneBitMode(true)), RemoteReply::OneBitMode(true));
    assert!(v.one_bit_mode);
    assert_eq!(
        apply_remote(&mut v, &mut s, RemoteCommand::SetShowUnconfirmed(true)),
        RemoteReply::ShowUnconfirmed(true)
    );
    assert!(v.show_unconfirmed);
    assert_eq!(apply_remote(&mut v, &mut s, RemoteCommand::SetScreenShake(true)), RemoteReply::ScreenShake(true));
    assert!(v.screen_shake);
    assert_eq!(s, settings());
}

#[test]
fn waterfall_power_bounds() {
    let (mut v, mut s) = (view(), settings());
    let r = apply_remote(&mut v, &mut s, RemoteCommand::SetWaterfallPower { min: -120, max: 20 });
    assert_eq!(r, RemoteReply::WaterfallPower { min: -120, max: 20 });
    assert_eq!((s.waterfall_min, s.waterfall_max), (-120, 20));
    for (min, max) in [(-121, 0), (-50, 21), (5, 5), (10, -10)] {
        let r = apply_remote(&mut v, &mut s, RemoteCommand::SetWaterfallPower { min, max });
        assert_eq!(r, RemoteReply::InvalidBounds);
    }
    assert_eq!((s.waterfall_min, s.waterfall_max), (-120, 20));
    assert_eq!(v, view());
}

#[test]
fn doppler_fft_sizes() {
    let (mut v, mut s) = (view(), settings());
    assert_eq!(apply_remote(&mut v, &mut s, RemoteCommand::SetDopplerFft(8192)), RemoteReply::FftSize(8192));
    assert_eq!(s.doppler_fft_size, 8192);
    for bad in [0, 128, 1000, 16384, -256, 4294967552] {
        assert_eq!(apply_remote(&mut v, &mut s, RemoteCommand::SetDopplerFft(bad)), RemoteReply::InvalidFftSize);
    }
    assert_eq!(s.doppler_fft_size, 8192);
}

#[test]
fn select_target_keeps_low_bits() {
    let (mut v, mut s) = (view(), settings());
    assert_eq!(apply_remote(&mut v, &mut s, RemoteCommand::SelectTarget(42)), RemoteReply::SelectedTarget(42));
    assert_eq!(v.selected_target_id, Some(42));
    apply_remote(&mut v, &mut s, RemoteCommand::SelectTarget(-1));
    assert_eq!(v.selected_target_id, Some(u32::MAX));
    apply_remote(&mut v, &mut s, RemoteCommand::SelectTarget(4294967296 + 7));
    assert_eq!(v.selected_target_id, Some(7));
}

#[test]
fn cic_mode_names() {
    assert_eq!(parse_cic_mode("Seismic"), Some(CicMode::Seismic));
    assert_eq!(parse_cic_mode("Rotary"), Some(CicMode::Rotary));
    assert_eq!(parse_cic_mode("Acoustic"), Some(CicMode::Acoustic));
    assert_eq!(parse_cic_mode("acoustic"), None);
    assert_eq!(parse_cic_mode("Bypass"), None);
    assert_eq!(vibrometer_decimation("Seismic"), 80);
    assert_eq!(vibrometer_decimation("Rotary"), 8);
    assert_eq!(vibrometer_decimation("Acoustic"), 1);
    assert_eq!(vibrometer_decimation("Bypass"), 1);
    assert_eq!(vibrometer_decimation(""), 1);
}

#[test]
fn settings_commands_are_idempotent() {
    let commands = [
        RemoteCommand::SetAgc(false),
        RemoteCommand::SetDcBlock(true),
        RemoteCommand::SetWaterfallPower { min: -100, max: 10 },
        RemoteCommand::SetWaterfallPower { min: 10, max: -100 },
        RemoteCommand::SelectTarget(-7),
        RemoteCommand::SetDopplerFft(2048),
    ];
    for cmd in commands {
        let (mut v1, mut s1) = (view(), settings());
        let r1 = apply_remote(&mut v1, &mut s1, cmd);
        let (mut v2, mut s2) = (v1, s1);
        let r2 = apply_remote(&mut v2, &mut s2, cmd);
        assert_eq!((v1, s1, r1), (v2, s2, r2));
    }
}

fn no_args() -> RemoteArgs {
    RemoteArgs { has_value: false, value_bool: None, enabled_bool: None, min: None, max: None, id: None, size: None }
}

#[test]
fn decode_agc_reads_value_then_enabled() {
    let a = RemoteArgs { enabled_bool: Some(true), ..no_args() };
    assert!(matches!(decode_remote("set_agc", a), RemoteRequest::Command(RemoteCommand::SetAgc(true))));
    // A `value` that is present but not a boolean hides `enabled`.
    let b = RemoteArgs { has_value: true, enabled_bool: Some(true), ..no_args() };
    assert!(matches!(decode_remote("set_agc", b), RemoteRequest::InvalidArguments));
    let c = RemoteArgs { has_value: true, value_bool: Some(false), enabled_bool: Some(true), ..no_args() };
    assert!(matches!(decode_remote("set_agc", c), RemoteRequest::Command(RemoteCommand::SetAgc(false))));
}

#[test]
fn decode_settings_need_their_arguments() {
    assert!(matches!(decode_remote("set_dc_block", no_args()), RemoteRequest::InvalidArguments));
    assert!(matches!(decode_remote("SelectTarget", no_args()), RemoteRequest::InvalidArguments));
    let half = RemoteArgs { min: Some(-100), ..no_args() };
    assert!(matches!(decode_remote("SetWaterfallPower", half), RemoteRequest::InvalidArguments));
    let both = RemoteArgs { min: Some(-100), max: Some(0), ..no_args() };
    assert!(matches!(
        decode_remote("SetWaterfallPower", both),
        RemoteRequest::Command(RemoteCommand::SetWaterfallPower { min: -100, max: 0 })
    ));
    let size = RemoteArgs { size: Some(1024), ..no_args() };
    assert!(matches!(decode_remote("SetDopplerFFT", size), RemoteRequest::Command(RemoteCommand::SetDopplerFft(1024))));
    let id = RemoteArgs { id: Some(7), ..no_args() };
    assert!(matches!(decode_remote("SelectTarget", id), RemoteRequest::Command(RemoteCommand::SelectTarget(7))));
}

#[test]
fn decode_other_actions_are_not_settings() {
    let v = RemoteArgs { has_value: true, value_bool: Some(true), ..no_args() };
    assert!(matches!(decode_remote("SetThreshold", v), RemoteRequest::NotSettings));
    assert!(matches!(decode_remote("set_AGC", v), RemoteRequest::NotSettings));
    assert!(matches!(decode_remote("set_screen_shake", v), RemoteRequest::Command(RemoteCommand::SetScreenShake(true))));
}
