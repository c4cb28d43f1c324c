use control_ga_pid::opts::GainMode;

#[test]
fn the_shipped_reading_is_the_poles_one() {
    assert_eq!(GainMode::default(), GainMode::Poles);
}

#[test]
fn the_poles_and_joint_readings_derive_their_gains_from_the_design() {
    assert!(GainMode::Poles.derives_from_design());
    assert!(GainMode::Joint.derives_from_design());
    assert!(!GainMode::Physical.derives_from_design());
}

#[test]
fn only_the_poles_reading_or_a_guarded_physical_one_reads_the_metric() {
    assert!(GainMode::Poles.needs_metric(false));
    assert!(GainMode::Poles.needs_metric(true));
    assert!(GainMode::Physical.needs_metric(true));
    assert!(!GainMode::Physical.needs_metric(false));
    assert!(!GainMode::Joint.needs_metric(true));
    assert!(!GainMode::Joint.needs_metric(false));
    assert!(GainMode::Physical.passivity_applies(true));
    assert!(!GainMode::Poles.passivity_applies(true));
    assert!(!GainMode::Physical.passivity_applies(false));
}
