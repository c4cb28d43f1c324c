use control_ga_pid::base::{fill, HeldBase};

#[test]
fn a_held_base_leaves_the_remaining_coordinates_as_joints() {
    let h = HeldBase::new(6, 12);
    assert_eq!(h.nb, 6);
    assert_eq!(h.n, 12);
    assert_eq!(h.nj(), 6);
    assert_eq!(HeldBase::new(0, 6).nj(), 6);
    assert_eq!(HeldBase::new(6, 6).nj(), 0);
}

#[test]
fn head_and_tail_split_a_vector_at_the_base() {
    let h = HeldBase::new(2, 6);
    let v = vec![1.0, 2.0, 3.0, 4.0, 5.0, 6.0, 7.0];
    assert_eq!(h.head(&v, 0.0), vec![1.0, 2.0]);
    assert_eq!(h.tail(&v, 0.0), vec![3.0, 4.0, 5.0, 6.0]);
}

#[test]
fn a_short_vector_reads_zero_past_its_end() {
    let h = HeldBase::new(2, 6);
    let v = vec![1.0, 2.0, 3.0];
    assert_eq!(h.tail(&v, 0.0), vec![3.0, 0.0, 0.0, 0.0]);
    assert_eq!(h.head(&[5.0], 0.0), vec![5.0, 0.0]);
    assert_eq!(h.tail(&[] as &[f64], 0.0), vec![0.0; 4]);
}

#[test]
fn assembling_the_split_gives_the_vector_back() {
    let h = HeldBase::new(3, 7);
    let v: Vec<f64> = (0..7).map(|i| i as f64 * 1.5 - 2.0).collect();
    let back = h.assemble(&h.head(&v, 0.0), &h.tail(&v, 0.0), 0.0);
    assert_eq!(back, v);
    let short = vec![4.0, -1.0];
    let back = h.assemble(&h.head(&short, 0.0), &h.tail(&short, 0.0), 0.0);
    assert_eq!(back, vec![4.0, -1.0, 0.0, 0.0, 0.0, 0.0, 0.0]);
}

#[test]
fn assemble_writes_the_base_rows_then_the_joint_rows() {
    let h = HeldBase::new(2, 4);
    assert_eq!(h.assemble(&[9.0], &[7.0], 0.0), vec![9.0, 0.0, 7.0, 0.0]);
    assert_eq!(
        h.assemble(&[1.0, 2.0, 3.0], &[4.0, 5.0, 6.0], 0.0),
        vec![1.0, 2.0, 4.0, 5.0]
    );
    let split = h.assemble(&[1.0, 2.0], &[3.0, 4.0], 0.0);
    assert_eq!(h.head(&split, 0.0), vec![1.0, 2.0]);
    assert_eq!(h.tail(&split, 0.0), vec![3.0, 4.0]);
}

#[test]
fn the_blocks_of_a_mass_matrix_follow_the_split() {
    let h = HeldBase::new(1, 3);
    let m = vec![
        vec![11.0, 12.0, 13.0],
        vec![21.0, 22.0, 23.0],
        vec![31.0, 32.0, 33.0],
    ];
    assert_eq!(h.joint_block(&m), vec![vec![22.0, 23.0], vec![32.0, 33.0]]);
    assert_eq!(h.base_coupling(&m), vec![vec![12.0, 13.0]]);
    let j = vec![vec![1.0, 2.0, 3.0], vec![4.0, 5.0, 6.0]];
    assert_eq!(h.joint_cols(&j), vec![vec![2.0, 3.0], vec![5.0, 6.0]]);
    let none = HeldBase::new(0, 3);
    assert_eq!(none.joint_block(&m), m);
    assert_eq!(none.base_coupling(&m), Vec::<Vec<f64>>::new());
}

#[test]
fn fill_pads_with_the_default() {
    assert_eq!(fill(&[1.0, 2.0], 4, 0.9), vec![1.0, 2.0, 0.9, 0.9]);
    assert_eq!(fill(&[1.0, 2.0, 3.0], 2, 0.0), vec![1.0, 2.0]);
    assert_eq!(fill(&[] as &[f64], 0, 0.0), Vec::<f64>::new());
}

#[test]
fn the_base_rows_read_whatever_the_split_says() {
    let odd = HeldBase { nb: 3, n: 1 };
    assert_eq!(odd.head(&[1.0, 2.0], 0.0), vec![1.0, 2.0, 0.0]);
}
