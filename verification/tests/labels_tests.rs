use passiveradar::labels::{
    inherits_label, is_generic_classification, is_identified_airliner, label_names_airliner,
};

#[test]
fn airliner_names() {
    assert!(label_names_airliner("Commercial Airliner"));
    assert!(label_names_airliner("AAL191"));
    assert!(label_names_airliner("UAL22 (B789)"));
    assert!(!label_names_airliner("Helicopter"));
    assert!(!label_names_airliner("aal191"));
    assert!(!label_names_airliner(""));
}

#[test]
fn flight_identifications_count_as_airliners() {
    assert!(is_identified_airliner("DAL9 (A321)"));
    assert!(is_identified_airliner("AAL191"));
    assert!(!is_identified_airliner("Propeller Aircraft"));
}

#[test]
fn generic_labels() {
    for l in [
        "Ground Vehicle",
        "Helicopter",
        "Propeller Aircraft",
        "Light Jet / Utility",
        "Turboprop Airliner",
        "Commercial Airliner",
        "Supersonic Fighter Jet",
        "High-Altitude Jet / Recon",
        "Low-Alt UAV / Drone",
        "Target",
        "Suspect",
        "Active",
        "Unknown",
        "",
    ] {
        assert!(is_generic_classification(l), "{}", l);
    }
    assert!(!is_generic_classification("AAL191 (B788)"));
    assert!(!is_generic_classification("helicopter"));
    assert!(!is_generic_classification("Target "));
}

#[test]
fn merged_track_takes_the_specific_label() {
    assert!(inherits_label("Target", "AAL191 (B788)"));
    assert!(!inherits_label("AAL191 (B788)", "Target"));
    assert!(!inherits_label("Target", "Helicopter"));
    assert!(!inherits_label("UAL1", "DAL2"));
}
