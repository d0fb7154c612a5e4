use passiveradar::console::{run_console_command, ConsoleReply, ConsoleState};
use passiveradar::console::SpeedVerdict::{Malformed, Negative, Superluminal, Valid};

fn fresh() -> ConsoleState {
    ConsoleState { jamming_active: false, active_spoof_count: 0, spoofed_ids: Vec::new() }
}

fn run(payload: &str) -> ConsoleReply {
    let mut st = fresh();
    run_console_command(payload, &mut st, &[])
}

#[test]
fn simple_commands() {
    assert_eq!(run("ping"), ConsoleReply::Pong);
    assert_eq!(run("  ping  extra words "), ConsoleReply::Pong);
    assert_eq!(run("sysinfo"), ConsoleReply::SystemNominal);
    assert_eq!(run("scan"), ConsoleReply::ScanFrequencies);
    assert_eq!(run("logs"), ConsoleReply::Logs);
    assert_eq!(run(""), ConsoleReply::UnknownCommand);
    assert_eq!(run(" \t\n"), ConsoleReply::UnknownCommand);
    assert_eq!(run("PING"), ConsoleReply::UnknownCommand);
    assert_eq!(run("reboot now"), ConsoleReply::UnknownCommand);
}

#[test]
fn jam_toggles() {
    let mut st = fresh();
    assert_eq!(run_console_command("jam", &mut st, &[]), ConsoleReply::Jamming(true));
    assert!(st.jamming_active);
    assert_eq!(run_console_command("jam", &mut st, &[]), ConsoleReply::Jamming(false));
    assert!(!st.jamming_active);
    assert_eq!(st.active_spoof_count, 0);
}

#[test]
fn mitigate_needs_spoof_flag() {
    assert_eq!(run("mitigate --spoof"), ConsoleReply::SpoofMitigated);
    assert_eq!(run("mitigate"), ConsoleReply::UnknownCommand);
    assert_eq!(run("mitigate --jam"), ConsoleReply::UnknownCommand);
}

#[test]
fn payload_length_counts_bytes() {
    let ok = format!("ping{}", " ".repeat(4092));
    assert_eq!(ok.len(), 4096);
    assert_eq!(run(&ok), ConsoleReply::Pong);
    let long = format!("ping{}", " ".repeat(4093));
    assert_eq!(run(&long), ConsoleReply::BufferOverflow);
    assert_eq!(run(&"é".repeat(2048)), ConsoleReply::UnknownCommand);
    assert_eq!(run(&"é".repeat(2049)), ConsoleReply::BufferOverflow);
}

#[test]
fn spoof_defaults_and_queue() {
    let mut st = fresh();
    let r = run_console_command("spoof", &mut st, &[]);
    assert_eq!(r, ConsoleReply::Spoofing { id: 9999, speed_word: None });
    assert_eq!(st.active_spoof_count, 1);
    assert_eq!(st.spoofed_ids, vec![9999]);
    let r = run_console_command("spoof 42 7", &mut st, &[]);
    assert_eq!(r, ConsoleReply::Spoofing { id: 42, speed_word: None });
    assert_eq!(st.spoofed_ids, vec![9999, 42]);

    let mut full = ConsoleState { jamming_active: false, active_spoof_count: 20, spoofed_ids: Vec::new() };
    assert_eq!(run_console_command("spoof 5", &mut full, &[]), ConsoleReply::SpoofQueueFull);
    assert_eq!(run_console_command("spoof -5", &mut full, &[]), ConsoleReply::InvalidTargetId);
    assert_eq!(full.active_spoof_count, 20);
    assert!(full.spoofed_ids.is_empty());
}

#[test]
fn spoof_ids() {
    assert_eq!(run("spoof --id 4294967295"), ConsoleReply::Spoofing { id: 4294967295, speed_word: None });
    assert_eq!(run("spoof --id 4294967296"), ConsoleReply::InvalidTargetId);
    assert_eq!(run("spoof --id 99999999999999999999999"), ConsoleReply::InvalidTargetId);
    assert_eq!(run("spoof --id -1"), ConsoleReply::InvalidTargetId);
    assert_eq!(run("spoof -0"), ConsoleReply::Spoofing { id: 0, speed_word: None });
    assert_eq!(run("spoof +12"), ConsoleReply::Spoofing { id: 12, speed_word: None });
    assert_eq!(run("spoof 007"), ConsoleReply::Spoofing { id: 7, speed_word: None });
    assert_eq!(run("spoof 1_000"), ConsoleReply::InvalidTargetId);
    assert_eq!(run("spoof abc"), ConsoleReply::InvalidTargetId);
    assert_eq!(run("spoof +"), ConsoleReply::InvalidTargetId);
    assert_eq!(run("spoof --id"), ConsoleReply::InvalidArguments);
    assert_eq!(run("spoof --id 7 3 --id 7"), ConsoleReply::DuplicateSpoofId);
    assert_eq!(run("spoof 3 +3"), ConsoleReply::DuplicateSpoofId);
}

#[test]
fn spoof_speeds() {
    let mut st = fresh();
    let r = run_console_command("spoof 42 --speed 300", &mut st, &[Malformed, Valid, Malformed, Valid]);
    assert_eq!(r, ConsoleReply::Spoofing { id: 42, speed_word: Some(3) });
    let mut st = fresh();
    let r = run_console_command("spoof --speed 1 --speed 2", &mut st, &[Malformed, Malformed, Valid, Malformed, Valid]);
    assert_eq!(r, ConsoleReply::Spoofing { id: 9999, speed_word: Some(4) });
    let mut st = fresh();
    assert_eq!(
        run_console_command("spoof --speed NaN", &mut st, &[Malformed, Malformed, Superluminal]),
        ConsoleReply::SuperluminalSpeed
    );
    assert_eq!(
        run_console_command("spoof --speed -4", &mut st, &[Malformed, Malformed, Negative]),
        ConsoleReply::InvalidSpeedBounds
    );
    assert_eq!(
        run_console_command("spoof --speed fast", &mut st, &[Malformed, Malformed, Malformed]),
        ConsoleReply::InvalidArguments
    );
    // A word without a verdict reads as malformed.
    assert_eq!(run_console_command("spoof --speed 3", &mut st, &[]), ConsoleReply::InvalidArguments);
    assert_eq!(run_console_command("spoof --speed", &mut st, &[]), ConsoleReply::InvalidArguments);
    assert_eq!(st.active_spoof_count, 0);
}
