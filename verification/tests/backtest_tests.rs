use stockgo::backtest::{marks, strategy_path, trade_pairs};

fn col(items: &[&str]) -> Vec<String> {
    items.iter().map(|s| s.to_string()).collect()
}

#[test]
fn trades_pair_marks_two_at_a_time() {
    let data = vec![col(&["10", "11", "12", "13"])];
    let pairs = trade_pairs(&data, &vec![0, 2, 1, 3]);
    assert_eq!(pairs, vec![(0, 2), (1, 3)]);
}

#[test]
fn trades_drop_pairs_outside_the_prices_and_odd_marks() {
    let data = vec![col(&["10", "11", "12"])];
    let pairs = trade_pairs(&data, &vec![0, 5, 1, 2, 0]);
    assert_eq!(pairs, vec![(1, 2)]);
}

#[test]
fn trades_need_data() {
    let data: Vec<Vec<String>> = Vec::new();
    assert!(trade_pairs(&data, &vec![0, 1]).is_empty());
}

#[test]
fn strategy_files_live_under_strategy() {
    assert_eq!(strategy_path("default"), "strategy/default.js");
}

#[test]
fn marks_come_from_the_strategy_output() {
    assert_eq!(marks(b"[0,2,1,3]\n"), vec![0, 2, 1, 3]);
    assert_eq!(marks(b"[]"), Vec::<usize>::new());
    assert_eq!(marks(b"[1,-2]"), Vec::<usize>::new());
    assert_eq!(marks(b"not json"), Vec::<usize>::new());
}
