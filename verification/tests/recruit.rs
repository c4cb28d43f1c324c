use control_ga_pid::recruit::{order_list, recruitment_order};

fn keys(costs: &[f64]) -> Vec<u64> {
    costs.iter().map(|c| c.to_bits()).collect()
}

#[test]
fn channels_are_recruited_cheapest_first() {
    assert_eq!(recruitment_order(&keys(&[10.0, 100.0, 30.0])), vec![0, 2, 1]);
    assert_eq!(recruitment_order(&keys(&[30.0, 12.0, 70.0, 1.0])), vec![3, 1, 0, 2]);
    assert_eq!(recruitment_order(&[3, 2, 1, 0]), vec![3, 2, 1, 0]);
}

#[test]
fn equal_prices_are_recruited_by_index() {
    assert_eq!(recruitment_order(&keys(&[5.0, 5.0, 1.0])), vec![2, 0, 1]);
    assert_eq!(recruitment_order(&keys(&[1.0; 6])), vec![0, 1, 2, 3, 4, 5]);
    assert_eq!(recruitment_order(&[7, 3, 7, 3]), vec![1, 3, 0, 2]);
}

#[test]
fn an_empty_table_recruits_nothing() {
    assert_eq!(recruitment_order(&[]), Vec::<usize>::new());
}

#[test]
fn the_order_bits_order_positive_prices_as_the_prices_do() {
    let costs = [0.5, 1e-3, 250.0, 1.0, 33.3, 33.29];
    let order = recruitment_order(&keys(&costs));
    for w in order.windows(2) {
        assert!(costs[w[0]] <= costs[w[1]]);
    }
}

#[test]
fn an_order_reads_out_as_decimal_indices() {
    assert_eq!(order_list(&[2, 0, 1]), "2, 0, 1");
    assert_eq!(order_list(&[7]), "7");
    assert_eq!(order_list(&[]), "");
    assert_eq!(order_list(&[10, 105]), "10, 105");
}

#[test]
fn a_price_table_of_limits_recruits_the_smallest_unit_first() {
    assert_eq!(recruitment_order(&keys(&[10.0, 1.0, 5.0])), vec![1, 2, 0]);
    assert_eq!(recruitment_order(&keys(&[1.0; 4])), vec![0, 1, 2, 3]);
    assert_eq!(recruitment_order(&keys(&[1.0, 1.0, 1.0, 1.0, 4.0])), vec![0, 1, 2, 3, 4]);
}
