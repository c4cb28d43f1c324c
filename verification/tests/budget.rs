use control_ga_pid::budget::{binding_index, joint_label, resolve_binding};

fn std_reading(s: &str) -> Option<usize> {
    s.strip_prefix("joint ")?.parse().ok()
}

#[test]
fn the_scan_names_a_joint_by_its_index() {
    assert_eq!(joint_label(0), "joint 0");
    assert_eq!(joint_label(1), "joint 1");
    assert_eq!(joint_label(17), "joint 17");
    assert_eq!(joint_label(100), "joint 100");
    assert_eq!(joint_label(usize::MAX), format!("joint {}", usize::MAX));
}

#[test]
fn a_scan_name_reads_back_its_index() {
    for i in [0usize, 1, 9, 10, 99, 1000, 123456789, usize::MAX] {
        assert_eq!(binding_index(&joint_label(i)), Some(i), "index {i}");
    }
}

#[test]
fn names_that_are_not_the_scans_read_as_no_joint() {
    assert_eq!(binding_index("none"), None);
    assert_eq!(binding_index("joint1"), None);
    assert_eq!(binding_index("joint2"), None);
    assert_eq!(binding_index("joint "), None);
    assert_eq!(binding_index("joint +"), None);
    assert_eq!(binding_index("joint -1"), None);
    assert_eq!(binding_index("joint 3x"), None);
    assert_eq!(binding_index("joint 1 "), None);
    assert_eq!(binding_index("Joint 1"), None);
    assert_eq!(binding_index(""), None);
}

#[test]
fn the_index_is_read_as_rust_reads_a_usize() {
    assert_eq!(binding_index("joint +5"), Some(5));
    assert_eq!(binding_index("joint 007"), Some(7));
    let big = format!("joint {}0", usize::MAX);
    assert_eq!(binding_index(&big), None);
    let cases = [
        "joint 0", "joint 42", "joint +0", "joint ++1", "joint 1+", "joint  1", "joint é",
        "joint ٣", "none", "joint 18446744073709551615", "joint 18446744073709551616",
        "joint 4294967295", "joint 4294967296", "jointé 1",
    ];
    for s in cases {
        assert_eq!(binding_index(s), std_reading(s), "{s:?}");
    }
}

#[test]
fn a_binding_resolves_through_the_models_names() {
    let names: Vec<String> = (1..=6).map(|k| format!("joint{k}")).collect();
    assert_eq!(resolve_binding(&"joint 1".to_string(), &names), "joint2");
    assert_eq!(resolve_binding(&"joint 0".to_string(), &names), "joint1");
    assert_eq!(resolve_binding(&"joint 5".to_string(), &names), "joint6");
}

#[test]
fn a_binding_past_the_names_or_already_resolved_keeps_its_form() {
    let names: Vec<String> = (1..=6).map(|k| format!("joint{k}")).collect();
    assert_eq!(resolve_binding(&"joint 6".to_string(), &names), "joint 6");
    assert_eq!(resolve_binding(&"none".to_string(), &names), "none");
    assert_eq!(resolve_binding(&"joint2".to_string(), &names), "joint2");
    assert_eq!(resolve_binding(&"joint 3".to_string(), &[]), "joint 3");
}

#[test]
fn a_short_name_list_leaves_the_scan_name_and_a_resolved_name_stays_resolved() {
    assert_eq!(resolve_binding(&"joint 1".to_string(), &["joint1".to_string()]), "joint 1");
    let names: Vec<String> = (1..=6).map(|k| format!("joint{k}")).collect();
    let once = resolve_binding(&"joint 1".to_string(), &names);
    assert_eq!(binding_index(&once), None);
    assert_eq!(resolve_binding(&once, &names), once);
}

#[test]
fn the_budget_reads_the_binding_joint_through_the_models_names() {
    let binding = "joint 1".to_string();
    assert_eq!(binding_index(&binding), Some(1));
    let names = vec![
        "joint1".to_string(),
        "joint2".to_string(),
        "joint3".to_string(),
        "joint4".to_string(),
        "joint5".to_string(),
        "joint6".to_string(),
    ];
    let named = resolve_binding(&binding, &names);
    assert_eq!(named, "joint2", "the named reading is not the joint");
    assert_eq!(binding_index(&named), None, "a resolved name re-resolved");
    assert_eq!(resolve_binding(&binding, &["joint1".to_string()]), "joint 1");
    let none = "none".to_string();
    assert_eq!(binding_index(&none), None);
    assert_eq!(resolve_binding(&none, &names), "none");
}
