use passiveradar::console::{ConsoleReply, ConsoleState, SpeedVerdict};
use passiveradar::controls::ViewState;
use passiveradar::jem::CicMode;
use passiveradar::remote::{RemoteArgs, RemoteReply, RemoteSettings};
use passiveradar::wscmd::{
    answer_command, process_command, read_command, CommandFields, CommandReply, CommandState, FixedReply,
    SignalCommand,
};

fn state() -> CommandState {
    CommandState {
        view: ViewState {
            show_logs: true,
            show_towers: true,
            show_waterfall: true,
            data_version: 0,
            show_constellation: false,
            show_aligner: false,
            show_hacker: false,
            show_records: false,
            show_multipath: false,
            show_unconfirmed: false,
            crt_mode: false,
            screen_shake: false,
            show_jem_spectrogram: false,
            doppler_scale_pm: false,
            dc_block: false,
            one_bit_mode: false,
            selected_target_id: None,
            is_test: false,
            software_agc: true,
            sdr_hardware: true,
        },
        settings: RemoteSettings { waterfall_min: -90, waterfall_max: 0, doppler_fft_size: 1024 },
        constellation_rate: 30,
        iq_density: 100,
        unwrap_enabled: false,
        cepstrum_enabled: false,
        master_ekf_enabled: false,
        audio_streaming: false,
    }
}

fn console() -> ConsoleState {
    ConsoleState { jamming_active: false, active_spoof_count: 0, spoofed_ids: Vec::new() }
}

fn run(text: &str, st: &mut CommandState) -> CommandReply {
    let mut c = console();
    process_command(text, st, &mut c, &[], &[7, 9])
}

#[test]
fn malformed_commands_are_invalid_arguments() {
    let mut st = state();
    assert_eq!(run("not json", &mut st), CommandReply::InvalidArguments);
    assert_eq!(run("{\"value\": true}", &mut st), CommandReply::InvalidArguments);
    // An `action` that is no string hides `command`.
    assert_eq!(run("{\"action\": 3, \"command\": \"GetUnwrapStatus\"}", &mut st), CommandReply::InvalidArguments);
    assert_eq!(st, state());
}

#[test]
fn unknown_actions_are_unknown_commands() {
    let mut st = state();
    assert_eq!(run("{\"action\": \"Teleport\"}", &mut st), CommandReply::UnknownCommand);
    assert_eq!(run("{\"command\": \"setgain\"}", &mut st), CommandReply::UnknownCommand);
}

#[test]
fn settings_commands_through_the_text() {
    let mut st = state();
    assert_eq!(
        run("{\"command\": \"set_dc_block\", \"value\": true}", &mut st),
        CommandReply::Remote(RemoteReply::DcBlock(true))
    );
    assert!(st.view.dc_block);
    assert_eq!(run("{\"action\": \"SetWaterfallPower\", \"min\": -100, \"max\": 10}", &mut st),
        CommandReply::Remote(RemoteReply::WaterfallPower { min: -100, max: 10 }));
    assert_eq!((st.settings.waterfall_min, st.settings.waterfall_max), (-100, 10));
    assert_eq!(run("{\"action\": \"SetDopplerFFT\", \"size\": 1000}", &mut st), CommandReply::Remote(RemoteReply::InvalidFftSize));
    assert_eq!(run("{\"action\": \"set_agc\", \"value\": 1}", &mut st), CommandReply::InvalidArguments);
}

#[test]
fn dashboard_flags_and_counts() {
    let mut st = state();
    assert_eq!(run("{\"action\": \"SetConstellationRate\", \"fps\": 12}", &mut st), CommandReply::Fps(12));
    assert_eq!(st.constellation_rate, 12);
    assert_eq!(run("{\"action\": \"SetConstellationRate\", \"fps\": 1.5}", &mut st), CommandReply::InvalidArguments);
    assert_eq!(run("{\"action\": \"SetIQDensity\", \"points\": 64}", &mut st), CommandReply::Points(64));
    assert_eq!(st.iq_density, 64);
    assert_eq!(run("{\"action\": \"SetUnwrapMode\", \"enabled\": true}", &mut st), CommandReply::Unwrapping(true));
    assert_eq!(run("{\"action\": \"GetUnwrapStatus\"}", &mut st), CommandReply::UnwrapStatus(true));
    assert_eq!(run("{\"action\": \"SetCepstrumMode\"}", &mut st), CommandReply::CepstrumEnabled(false));
    assert_eq!(run("{\"action\": \"SetMasterEkf\", \"enabled\": true}", &mut st), CommandReply::MasterEkf(true));
    assert!(st.master_ekf_enabled);
    assert_eq!(run("{\"action\": \"StartAudioStreaming\"}", &mut st), CommandReply::AudioStreaming);
    assert!(st.audio_streaming);
    assert_eq!(run("{\"action\": \"SayText\", \"text\": \"hi\"}", &mut st), CommandReply::Sanitized);
    assert_eq!(run("{\"action\": \"SayText\"}", &mut st), CommandReply::InvalidArguments);
}

#[test]
fn vibrometer_bound_is_ten_thousand() {
    let mut st = state();
    assert_eq!(
        run("{\"action\": \"SetVibrometerMode\", \"mode\": \"Rotary\", \"decimation_factor\": 10001}", &mut st),
        CommandReply::OutOfBounds
    );
    assert_eq!(
        run("{\"action\": \"SetVibrometerMode\", \"mode\": \"Rotary\", \"decimation_factor\": 10000}", &mut st),
        CommandReply::VibrometerMode
    );
    let f = read_command("{\"action\": \"SetVibrometerMode\", \"mode\": \"Rotary\"}");
    assert_eq!(f.mode.as_deref(), Some("Rotary"));
}

#[test]
fn cic_mode_and_ghost_mic_need_a_tracked_target() {
    let mut st = state();
    assert_eq!(
        run("{\"action\": \"set_cic_mode\", \"target_id\": 7, \"mode\": \"Seismic\"}", &mut st),
        CommandReply::CicModeSet { target: 7, mode: CicMode::Seismic }
    );
    assert_eq!(run("{\"action\": \"set_cic_mode\", \"target_id\": 8, \"mode\": \"Seismic\"}", &mut st), CommandReply::TargetNotFound);
    assert_eq!(run("{\"action\": \"set_cic_mode\", \"target_id\": 8, \"mode\": \"Loud\"}", &mut st), CommandReply::InvalidCicMode);
    assert_eq!(run("{\"action\": \"set_cic_mode\", \"mode\": \"Seismic\"}", &mut st), CommandReply::InvalidArguments);
    assert_eq!(
        run("{\"action\": \"toggle_ghost_mic\", \"target_id\": 9, \"enabled\": true}", &mut st),
        CommandReply::GhostMic { target: 9, enabled: true }
    );
    assert_eq!(run("{\"action\": \"toggle_ghost_mic\", \"target_id\": 9}", &mut st), CommandReply::InvalidArguments);
}

#[test]
fn fixed_and_signal_commands_are_named() {
    let mut st = state();
    assert_eq!(run("{\"action\": \"GetMasterEkfState\"}", &mut st), CommandReply::Fixed(FixedReply::StateDim));
    assert_eq!(run("{\"action\": \"set_gain\", \"value\": 20.0}", &mut st), CommandReply::Signal(SignalCommand::SetGain));
    assert_eq!(run("{\"action\": \"InjectRawIq\"}", &mut st), CommandReply::Signal(SignalCommand::InjectRawIq));
    assert_eq!(
        run("{\"action\": \"InjectWifiPacketBurst\", \"packet_count\": 0}", &mut st),
        CommandReply::WifiBurst { suspended: true }
    );
    assert_eq!(
        run("{\"action\": \"InjectWifiPacketBurst\", \"packet_count\": 4}", &mut st),
        CommandReply::WifiBurst { suspended: false }
    );
    assert_eq!(run("{\"action\": \"SetOmniMode\", \"mode\": \"Wifi\"}", &mut st), CommandReply::OmniMode { enabled: false });
}

#[test]
fn console_payloads_reach_the_console() {
    let mut st = state();
    let mut c = console();
    let r = process_command("{\"action\": \"hacker_cmd\", \"payload\": \"ping\"}", &mut st, &mut c, &[SpeedVerdict::Malformed], &[]);
    assert_eq!(r, CommandReply::Console(ConsoleReply::Pong));
    let r = process_command("{\"action\": \"hacker_cmd\", \"payload\": \"jam\"}", &mut st, &mut c, &[SpeedVerdict::Malformed], &[]);
    assert_eq!(r, CommandReply::Console(ConsoleReply::Jamming(true)));
    assert!(c.jamming_active);
    let r = process_command("{\"action\": \"hacker_cmd\"}", &mut st, &mut c, &[], &[]);
    assert_eq!(r, CommandReply::InvalidArguments);
}

#[test]
fn answers_from_fields() {
    let mut st = state();
    let mut c = console();
    let f = CommandFields {
        parses: true,
        action: Some("SetIQDensity".to_string()),
        args: RemoteArgs { has_value: false, value_bool: None, enabled_bool: None, min: None, max: None, id: None, size: None },
        payload: None,
        fps: None,
        points: Some(5),
        has_text: false,
        decimation: None,
        packet_count: None,
        target_id: None,
        mode: None,
    };
    assert_eq!(answer_command(&f, &mut st, &mut c, &[], &[]), CommandReply::Points(5));
    let g = CommandFields { parses: false, ..f };
    assert_eq!(answer_command(&g, &mut st, &mut c, &[], &[]), CommandReply::InvalidArguments);
}
