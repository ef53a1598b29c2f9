use hftbacktest::imbalance::{Imbalance, IMBALANCE_RATIO, MIN_BUY_LOTS, MIN_SELL_LOTS};
use hftbacktest::types::{Side, LOTS_PER_UNIT};

#[test]
fn new_tracker_is_empty() {
    let im = Imbalance::new(30);
    assert!(im.ticks.is_empty());
    assert!(im.seen.is_empty());
    assert!(im.buy_qtys.is_empty());
    assert!(im.sell_qtys.is_empty());
    assert_eq!(im.ticks_max_len, 30);
}

#[test]
fn thresholds_in_lots() {
    assert_eq!(MIN_BUY_LOTS, LOTS_PER_UNIT / 20);
    assert_eq!(MIN_SELL_LOTS, LOTS_PER_UNIT / 50);
    assert_eq!(MIN_BUY_LOTS, 5_000_000);
    assert_eq!(MIN_SELL_LOTS, 2_000_000);
    assert_eq!(IMBALANCE_RATIO, 3);
}

#[test]
fn ticks_are_kept_in_ascending_order() {
    let mut im = Imbalance::new(5);
    for t in [105, 101, 103, 102, 104] {
        im.push(t, 1, Side::Buy);
    }
    assert_eq!(im.ticks, vec![101, 102, 103, 104, 105]);
    assert_eq!(im.seen, vec![105, 101, 103, 102, 104]);
}

#[test]
fn push_of_neither_side_changes_nothing() {
    let mut im = Imbalance::new(0);
    im.push(0, 0, Side::Neither);
    im.push(5, 9, Side::Unsupported);
    assert!(im.ticks.is_empty());
    assert!(im.buy_qtys.is_empty());
    assert!(im.sell_qtys.is_empty());
}

#[test]
fn quantities_accumulate_per_side() {
    let mut im = Imbalance::new(5);
    im.push(100, 5, Side::Buy);
    im.push(100, 7, Side::Buy);
    im.push(100, 2, Side::Sell);
    im.push(101, 4, Side::Sell);
    assert_eq!(im.ticks, vec![100, 101]);
    assert_eq!(im.buy_qtys.get(&100), Some(&12));
    assert_eq!(im.sell_qtys.get(&100), Some(&2));
    assert_eq!(im.buy_qtys.get(&101), None);
    assert_eq!(im.sell_qtys.get(&101), Some(&4));
}

#[test]
fn quantity_saturates() {
    let mut im = Imbalance::new(5);
    im.push(100, u64::MAX, Side::Buy);
    im.push(100, 7, Side::Buy);
    assert_eq!(im.buy_qtys.get(&100), Some(&u64::MAX));
}

#[test]
fn never_more_ticks_than_the_capacity() {
    let mut im = Imbalance::new(3);
    for t in 0..50 {
        im.push(t * 7 % 13, 1, if t % 2 == 0 { Side::Buy } else { Side::Sell });
        assert!(im.ticks.len() <= 3);
        assert_eq!(im.ticks.len(), im.seen.len());
    }
}

#[test]
fn full_tracker_drops_the_tick_that_traded_longest_ago() {
    let mut im = Imbalance::new(3);
    im.push(105, 1, Side::Buy);
    im.push(101, 2, Side::Sell);
    im.push(103, 3, Side::Buy);
    im.push(107, 4, Side::Sell);
    assert_eq!(im.ticks, vec![101, 103, 107]);
    assert_eq!(im.seen, vec![101, 103, 107]);
    assert_eq!(im.buy_qtys.get(&105), None);
    assert_eq!(im.sell_qtys.get(&105), None);
}

#[test]
fn dropped_tick_loses_both_quantities() {
    let mut im = Imbalance::new(2);
    im.push(100, 5, Side::Buy);
    im.push(100, 6, Side::Sell);
    im.push(101, 1, Side::Buy);
    im.push(102, 1, Side::Buy);
    assert_eq!(im.ticks, vec![101, 102]);
    assert!(!im.buy_qtys.contains_key(&100));
    assert!(!im.sell_qtys.contains_key(&100));
    // A tick that comes back starts from nothing.
    im.push(100, 2, Side::Sell);
    assert_eq!(im.ticks, vec![100, 102]);
    assert_eq!(im.sell_qtys.get(&100), Some(&2));
    assert_eq!(im.buy_qtys.get(&100), None);
    assert!(!im.buy_qtys.contains_key(&101));
}

#[test]
fn trade_at_a_tracked_tick_makes_it_the_newest() {
    let mut im = Imbalance::new(3);
    im.push(105, 1, Side::Buy);
    im.push(101, 1, Side::Buy);
    im.push(103, 1, Side::Buy);
    im.push(105, 1, Side::Sell);
    assert_eq!(im.seen, vec![101, 103, 105]);
    im.push(110, 1, Side::Buy);
    assert_eq!(im.ticks, vec![103, 105, 110]);
    assert_eq!(im.seen, vec![103, 105, 110]);
    assert_eq!(im.buy_qtys.get(&105), Some(&1));
    assert_eq!(im.sell_qtys.get(&105), Some(&1));
}

#[test]
fn tracker_of_one_tick_follows_the_last_trade() {
    let mut im = Imbalance::new(1);
    im.push(5, 1, Side::Buy);
    im.push(3, 2, Side::Sell);
    assert_eq!(im.ticks, vec![3]);
    assert_eq!(im.buy_qtys.len(), 0);
    assert_eq!(im.sell_qtys.get(&3), Some(&2));
}

#[test]
fn no_imbalance_without_trades() {
    let im = Imbalance::new(30);
    assert_eq!(im.cal_imbalance(), (vec![], vec![]));
}

#[test]
fn buyers_outweigh_sellers_one_tick_below() {
    let mut im = Imbalance::new(30);
    im.push(100, 2_000_000, Side::Sell);
    im.push(101, 6_000_001, Side::Buy);
    assert_eq!(im.cal_imbalance(), (vec![101], vec![]));
}

#[test]
fn exactly_three_times_is_no_imbalance() {
    let mut im = Imbalance::new(30);
    im.push(100, 2_000_000, Side::Sell);
    im.push(101, 6_000_000, Side::Buy);
    assert_eq!(im.cal_imbalance(), (vec![], vec![]));
}

#[test]
fn sellers_outweigh_buyers_one_tick_above() {
    let mut im = Imbalance::new(30);
    im.push(100, 15_000_001, Side::Sell);
    im.push(101, 5_000_000, Side::Buy);
    assert_eq!(im.cal_imbalance(), (vec![], vec![101]));
}

#[test]
fn small_quantities_are_no_imbalance() {
    let mut im = Imbalance::new(30);
    // buy below 0.05
    im.push(100, 900_000_000, Side::Sell);
    im.push(101, 4_999_999, Side::Buy);
    // sell below 0.02
    im.push(200, 1_999_999, Side::Sell);
    im.push(201, 900_000_000, Side::Buy);
    assert_eq!(im.cal_imbalance(), (vec![], vec![]));
}

#[test]
fn imbalance_compares_adjacent_ticks_only() {
    let mut im = Imbalance::new(30);
    im.push(100, 2_000_000, Side::Sell);
    im.push(102, 900_000_000, Side::Buy);
    im.push(100, 900_000_000, Side::Buy);
    assert_eq!(im.cal_imbalance(), (vec![], vec![]));
}

#[test]
fn imbalanced_ticks_come_in_ascending_order() {
    let mut im = Imbalance::new(30);
    im.push(300, 900_000_000, Side::Buy);
    im.push(299, 2_000_000, Side::Sell);
    im.push(100, 2_000_000, Side::Sell);
    im.push(101, 900_000_000, Side::Buy);
    im.push(200, 900_000_000, Side::Sell);
    im.push(201, 5_000_000, Side::Buy);
    assert_eq!(im.cal_imbalance(), (vec![101, 300], vec![201]));
}

#[test]
fn lowest_tick_has_nothing_below() {
    let mut im = Imbalance::new(30);
    im.push(i64::MIN, 900_000_000, Side::Buy);
    im.push(i64::MAX, 900_000_000, Side::Sell);
    assert_eq!(im.cal_imbalance(), (vec![], vec![]));
}

#[test]
fn default_tracker_has_no_capacity() {
    let mut im = Imbalance::default();
    assert_eq!(im.ticks_max_len, 0);
    assert!(im.ticks.is_empty());
    im.push(1, 1, Side::Neither);
    assert!(im.ticks.is_empty());
    assert_eq!(im.cal_imbalance(), (vec![], vec![]));
}
