use passiveradar::callsign::{callsign, fingerprint_file_name};

#[test]
fn drones_and_ground_vehicles_get_class_tags() {
    assert_eq!(callsign("Low-Alt UAV / Drone", 3), "DRN-03");
    assert_eq!(callsign("quadcopter drone", 120), "DRN-120");
    assert_eq!(callsign("Ground Vehicle", 12), "VEH-12");
    assert_eq!(callsign("Armored VEHICLE", 0), "VEH-00");
}

#[test]
fn identified_targets_use_their_first_word() {
    assert_eq!(callsign("AAL191 (B788)", 5), "AAL191");
    assert_eq!(callsign("N420SP(C172)", 2), "N420SP");
    assert_eq!(callsign("ual22 heavy", 2), "UAL22");
    assert_eq!(callsign("Commercial Airliner", 7), "COMMERCIAL");
    assert_eq!(callsign("Light Jet / Utility", 10), "LIGHT");
}

#[test]
fn utf8_byte_length_counts() {
    // Two characters, four bytes: long enough.
    assert_eq!(callsign("éé", 1), "ÉÉ");
    // Two ASCII characters: too short.
    assert_eq!(callsign("ab", 8), "FLT-08");
}

#[test]
fn generic_classes_and_odd_labels() {
    assert_eq!(callsign("High-Altitude Jet / Recon", 4), "JETA-04");
    assert_eq!(callsign("X-1", 8), "FLT-08");
    assert_eq!(callsign("  (abc", 5), "FLT-05");
}

#[test]
fn unidentified_targets_get_track_tags() {
    assert_eq!(callsign("Target", 1), "TRK-01");
    assert_eq!(callsign("Unknown", 9), "TRK-09");
    assert_eq!(callsign("", 123), "TRK-123");
    assert_eq!(callsign("Target 7", 4_000_000_000), "TRK-4000000000");
}

#[test]
fn fingerprint_file_names() {
    assert_eq!(fingerprint_file_name("AAL191 (B788)", 88), "fingerprint_AAL191__B788__88.json");
    assert_eq!(fingerprint_file_name("Helicopter", 77), "fingerprint_Helicopter_77.json");
    assert_eq!(fingerprint_file_name("Low-Alt UAV / Drone", 0), "fingerprint_Low_Alt_UAV___Drone_0.json");
    assert_eq!(fingerprint_file_name("", 4294967295), "fingerprint__4294967295.json");
    assert_eq!(fingerprint_file_name("Ünï", 3), "fingerprint_Ünï_3.json");
}
