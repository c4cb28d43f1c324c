use control_ga_pid::base::HeldBase;
use control_ga_pid::wrench_source::{base_end, tail_of, ActuatedJoints, BaseEnd};

#[test]
fn a_machine_with_no_base_in_its_coordinates_is_every_row() {
    let v = vec![1.0, 2.0, 3.0];
    assert_eq!(tail_of(None, &v, 0.0), v);
    assert_eq!(tail_of(Some(HeldBase::new(1, 3)), &v, 0.0), vec![2.0, 3.0]);
    assert_eq!(tail_of(Some(HeldBase::new(1, 4)), &v, 0.0), vec![2.0, 3.0, 0.0]);
}

#[test]
fn a_base_with_no_actuator_is_written_by_nobody() {
    let mut tau = vec![5.0, -6.0, 7.0, 8.0];
    ActuatedJoints.leave_to_contact(&mut tau, 2, 0.0);
    assert_eq!(tau, vec![0.0, 0.0, 7.0, 8.0]);
    let mut same = vec![1.0, 2.0];
    ActuatedJoints.leave_to_contact(&mut same, 0, 0.0);
    assert_eq!(same, vec![1.0, 2.0]);
}

#[test]
fn every_base_row_bounded_is_a_held_base() {
    let end = base_end(&[true; 6]);
    assert_eq!(end, BaseEnd::Held);
    assert_eq!(end.held_base(6, 12), Some(HeldBase::new(6, 12)));
    assert_eq!(end.free_rows(6), 0);
}

#[test]
fn no_base_row_bounded_or_no_table_is_a_free_base() {
    for table in [&[false; 6][..], &[][..]] {
        let end = base_end(table);
        assert_eq!(end, BaseEnd::Free);
        assert_eq!(end.held_base(6, 12), None);
        assert_eq!(end.free_rows(6), 6);
    }
}

#[test]
fn a_bound_in_some_base_directions_only_is_unreadable_and_left_to_the_contact() {
    let mut rows = [false; 6];
    rows[0] = true;
    let end = base_end(&rows);
    assert_eq!(end, BaseEnd::Unreadable);
    assert_eq!(end.held_base(6, 12), None);
    assert_eq!(end.free_rows(6), 6);
    assert_eq!(base_end(&[true, true, false]), BaseEnd::Unreadable);
}
