use hftbacktest::kline::KLine;
use hftbacktest::swings::{Swings, Trend, CONFIRM_GAP, RETRACE_TICKS, SEED_MARGIN};
use hftbacktest::types::Side;

const MIN5: i64 = 300_000_000_000;
const T0: i64 = 1_725_754_200_000_000_000;

fn at(i: i64) -> i64 {
    T0 + i * MIN5
}

/// A closed candle number `i` with the given prices and flat averages.
fn bar(i: i64, open: i64, high: i64, low: i64, close: i64) -> KLine {
    let mut k = KLine::new(open, 1, at(i), MIN5, Side::Buy, 3);
    k.high_tick = high;
    k.low_tick = low;
    k.close_tick = close;
    k.emas = vec![open, open, open];
    k
}

fn bullish(i: i64, open: i64, high: i64, low: i64, close: i64) -> KLine {
    let mut k = bar(i, open, high, low, close);
    k.emas = vec![close, close - 1, close - 2];
    k
}

fn bearish(i: i64, open: i64, high: i64, low: i64, close: i64) -> KLine {
    let mut k = bar(i, open, high, low, close);
    k.emas = vec![close, close + 1, close + 2];
    k
}

/// A tracker that looks for a high, seeded by candle 0 and extended by
/// candle 1 to the high 1010 with low 1000.
fn tracking_high() -> Swings {
    let mut s = Swings::new();
    s.on_close(&bullish(0, 990, 1000, 990, 1000));
    s.on_close(&bar(1, 1000, 1010, 1000, 1008));
    s
}

/// A tracker with the high (candle 1, 1010) confirmed by candle 3.
fn high_confirmed() -> Swings {
    let mut s = tracking_high();
    s.on_close(&bar(2, 1005, 1005, 1001, 1002));
    s.on_close(&bar(3, 999, 999, 990, 991));
    s
}

/// A tracker with the high (candle 1, 1010) and the low (candle 5, 975)
/// confirmed, looking for a high since candle 6.
fn low_confirmed() -> Swings {
    let mut s = high_confirmed();
    s.on_close(&bar(4, 991, 995, 980, 981));
    s.on_close(&bar(5, 981, 990, 975, 989));
    s.on_close(&bar(6, 993, 1001, 992, 1000));
    s
}

#[test]
fn constants_of_the_tracker() {
    assert_eq!(CONFIRM_GAP, 3 * MIN5);
    assert_eq!(SEED_MARGIN, 600);
    assert_eq!(RETRACE_TICKS, 2000);
}

#[test]
fn new_tracker_is_undetermined() {
    let s = Swings::new();
    assert_eq!(s.trend, Trend::Undetermined);
    assert!(s.swing_highs.is_empty());
    assert!(s.swing_lows.is_empty());
    assert_eq!(s.ext_tick, 0);
    assert_eq!(s.ext_opentime, 0);
    assert_eq!(s.judge_time, 0);
}

#[test]
fn flat_averages_leave_the_tracker_undetermined() {
    let mut s = Swings::new();
    s.on_close(&bar(0, 990, 1000, 985, 1000));
    assert_eq!(s.trend, Trend::Undetermined);
    assert_eq!(s.ext_opentime, at(0));
    assert_eq!(s.ext_tick, 0);
    assert!(s.swing_highs.is_empty());
    assert!(s.swing_lows.is_empty());
}

#[test]
fn stacked_averages_need_a_close_in_their_direction() {
    let mut s = Swings::new();
    // averages stacked upwards, candle closed down
    s.on_close(&bullish(0, 1000, 1002, 985, 990));
    assert_eq!(s.trend, Trend::Undetermined);
    // averages stacked downwards, candle closed up
    s.on_close(&bearish(1, 990, 1002, 985, 1000));
    assert_eq!(s.trend, Trend::Undetermined);
    // unchanged candle
    s.on_close(&bullish(2, 1000, 1002, 985, 1000));
    assert_eq!(s.trend, Trend::Undetermined);
    assert_eq!(s.ext_opentime, at(2));
}

#[test]
fn fewer_than_three_averages_never_seed() {
    let mut s = Swings::new();
    let mut k = bullish(0, 990, 1000, 985, 1000);
    k.emas = vec![1000, 999];
    s.on_close(&k);
    assert_eq!(s.trend, Trend::Undetermined);
    assert_eq!(s.ext_opentime, at(0));
}

#[test]
fn bullish_candle_starts_the_search_for_a_high() {
    let mut s = Swings::new();
    s.on_close(&bullish(0, 990, 1000, 985, 998));
    assert_eq!(s.trend, Trend::High);
    assert_eq!(s.ext_tick, 1000);
    assert_eq!(s.ext_opentime, at(0));
    assert_eq!(s.last_high_low, 985);
    assert_eq!(s.last_low_high, 385);
    assert_eq!(s.judge_time, 0);
    assert!(s.wait_klines.is_empty());
}

#[test]
fn bearish_candle_starts_the_search_for_a_low() {
    let mut s = Swings::new();
    s.on_close(&bearish(0, 1000, 1002, 985, 990));
    assert_eq!(s.trend, Trend::Low);
    assert_eq!(s.ext_tick, 985);
    assert_eq!(s.ext_opentime, at(0));
    assert_eq!(s.last_low_high, 1002);
    assert_eq!(s.last_high_low, 1585);
}

#[test]
fn seed_margin_saturates() {
    let mut s = Swings::new();
    s.on_close(&bullish(0, i64::MIN + 1, i64::MIN + 20, i64::MIN + 1, i64::MIN + 10));
    assert_eq!(s.trend, Trend::High);
    assert_eq!(s.last_low_high, i64::MIN);
    let mut s = Swings::new();
    s.on_close(&bearish(0, i64::MAX, i64::MAX, i64::MAX - 5, i64::MAX - 3));
    assert_eq!(s.trend, Trend::Low);
    assert_eq!(s.last_high_low, i64::MAX);
}

#[test]
fn higher_high_moves_the_extremum() {
    let s = tracking_high();
    assert_eq!(s.trend, Trend::High);
    assert_eq!(s.ext_tick, 1010);
    assert_eq!(s.ext_opentime, at(1));
    assert_eq!(s.last_high_low, 1000);
    assert_eq!(s.last_low_high, 390);
    assert_eq!(s.judge_time, 0);
    assert!(s.wait_klines.is_empty());
    assert!(s.swing_highs.is_empty());
}

#[test]
fn candle_inside_the_range_is_buffered() {
    let mut s = tracking_high();
    s.on_close(&bar(2, 1005, 1005, 1001, 1002));
    assert_eq!(s.trend, Trend::High);
    assert_eq!(s.ext_tick, 1010);
    assert_eq!(s.ext_opentime, at(1));
    assert_eq!(s.judge_time, 1);
    assert_eq!(s.wait_klines, vec![(at(2), 1005, 1001)]);
    s.on_close(&bar(3, 1002, 1010, 1000, 1004));
    assert_eq!(s.judge_time, 2);
    assert_eq!(s.wait_klines, vec![(at(2), 1005, 1001), (at(3), 1010, 1000)]);
    assert!(s.swing_highs.is_empty());
}

#[test]
fn candle_under_the_low_of_the_high_confirms_it() {
    let s = high_confirmed();
    assert_eq!(s.swing_highs, vec![(at(1), 1010)]);
    assert!(s.swing_lows.is_empty());
    assert_eq!(s.trend, Trend::Low);
    assert_eq!(s.ext_tick, 990);
    assert_eq!(s.ext_opentime, at(3));
    assert_eq!(s.last_low_high, 999);
    assert_eq!(s.last_high_low, 1000);
    assert_eq!(s.judge_time, 0);
    assert!(s.wait_klines.is_empty());
}

#[test]
fn high_equal_to_the_low_of_the_high_does_not_confirm() {
    let mut s = tracking_high();
    s.on_close(&bar(2, 1000, 1000, 995, 996));
    assert!(s.swing_highs.is_empty());
    assert_eq!(s.trend, Trend::High);
    assert_eq!(s.judge_time, 1);
}

#[test]
fn first_high_needs_distance_from_time_zero() {
    // With candles in the first quarter of an hour after time zero, the
    // extremum is not yet far enough from the origin.
    let mut s = Swings::new();
    let mut k0 = bullish(0, 990, 1000, 990, 1000);
    k0.open_time = 0;
    let mut k1 = bar(1, 1000, 1010, 1000, 1008);
    k1.open_time = MIN5;
    let mut k2 = bar(2, 999, 999, 990, 991);
    k2.open_time = 2 * MIN5;
    s.on_close(&k0);
    s.on_close(&k1);
    s.on_close(&k2);
    assert!(s.swing_highs.is_empty());
    assert_eq!(s.trend, Trend::High);
    assert_eq!(s.judge_time, 1);
}

#[test]
fn deep_retracement_confirms_on_a_later_candle() {
    let mut s = Swings::new();
    s.on_close(&bullish(0, 9_000, 10_000, 9_000, 10_000));
    // high 10_000 with low 9_000; a candle that falls 2001 below the high
    s.on_close(&bar(1, 9_500, 9_600, 7_999, 8_100));
    assert_eq!(s.swing_highs, vec![(at(0), 10_000)]);
    assert_eq!(s.trend, Trend::Low);
    assert_eq!(s.ext_tick, 7_999);
}

#[test]
fn retracement_of_exactly_the_limit_does_not_confirm() {
    let mut s = Swings::new();
    s.on_close(&bullish(0, 5_000, 10_000, 5_000, 10_000));
    // high 10_000 with low 5_000; a candle that stays over that low, high
    // not under it, and falls exactly 2000
    s.on_close(&bar(1, 9_500, 9_600, 8_000, 8_100));
    assert!(s.swing_highs.is_empty());
    assert_eq!(s.trend, Trend::High);
}

#[test]
fn retracement_must_break_the_low_of_the_high() {
    let mut s = Swings::new();
    s.on_close(&bullish(0, 5_000, 10_000, 5_000, 10_000));
    s.on_close(&bar(1, 9_500, 9_600, 5_000, 6_000));
    assert!(s.swing_highs.is_empty());
    s.on_close(&bar(2, 6_000, 6_100, 4_999, 5_500));
    assert_eq!(s.swing_highs, vec![(at(0), 10_000)]);
}

#[test]
fn low_needs_more_than_three_candles_after_the_high() {
    let mut s = high_confirmed();
    // the low of candle 4 is three candles after the high of candle 1
    s.on_close(&bar(4, 991, 995, 980, 981));
    assert_eq!(s.ext_tick, 980);
    assert_eq!(s.ext_opentime, at(4));
    assert_eq!(s.last_low_high, 995);
    s.on_close(&bar(5, 990, 1000, 996, 999));
    assert!(s.swing_lows.is_empty());
    assert_eq!(s.trend, Trend::Low);
    assert_eq!(s.judge_time, 1);
}

#[test]
fn candle_over_the_high_of_the_low_confirms_it() {
    let s = low_confirmed();
    assert_eq!(s.swing_highs, vec![(at(1), 1010)]);
    assert_eq!(s.swing_lows, vec![(at(5), 975)]);
    assert_eq!(s.trend, Trend::High);
    assert_eq!(s.ext_tick, 1001);
    assert_eq!(s.ext_opentime, at(6));
    assert_eq!(s.last_high_low, 992);
    assert_eq!(s.last_low_high, 990);
    assert_eq!(s.judge_time, 0);
}

#[test]
fn candle_under_the_confirmed_low_retracts_it() {
    let mut s = low_confirmed();
    s.on_close(&bar(7, 1000, 1002, 970, 972));
    assert_eq!(s.swing_lows, vec![(at(5), 0)]);
    assert_eq!(s.swing_highs, vec![(at(1), 1010)]);
    assert_eq!(s.trend, Trend::Low);
    assert_eq!(s.ext_tick, 970);
    assert_eq!(s.ext_opentime, at(7));
    assert_eq!(s.last_low_high, 1002);
    assert_eq!(s.last_high_low, 992);
    assert_eq!(s.judge_time, 0);
    assert!(s.wait_klines.is_empty());
}

#[test]
fn next_low_takes_the_retracted_slot() {
    let mut s = low_confirmed();
    s.on_close(&bar(7, 1000, 1002, 970, 972));
    s.on_close(&bar(8, 972, 975, 960, 961));
    assert_eq!(s.ext_tick, 960);
    s.on_close(&bar(9, 980, 985, 976, 984));
    assert_eq!(s.swing_lows, vec![(at(8), 960)]);
    assert_eq!(s.swing_highs, vec![(at(1), 1010)]);
    assert_eq!(s.trend, Trend::High);
    assert_eq!(s.ext_tick, 985);
    assert_eq!(s.ext_opentime, at(9));
}

#[test]
fn candle_over_the_confirmed_high_retracts_it() {
    let mut s = high_confirmed();
    s.on_close(&bar(4, 995, 1011, 994, 1010));
    assert_eq!(s.swing_highs, vec![(at(1), 0)]);
    assert_eq!(s.trend, Trend::High);
    assert_eq!(s.ext_tick, 1011);
    assert_eq!(s.ext_opentime, at(4));
    assert_eq!(s.last_high_low, 994);
    // The next confirmed high takes the slot.
    s.on_close(&bar(5, 990, 993, 985, 986));
    assert_eq!(s.swing_highs, vec![(at(4), 1011)]);
    assert_eq!(s.trend, Trend::Low);
}

#[test]
fn double_bottom_confirms_a_high() {
    let mut s = low_confirmed();
    // looking for a high since candle 6; the high of candle 9 is more than
    // three candles after the low of candle 5
    s.on_close(&bar(7, 1000, 1000, 993, 995));
    s.on_close(&bar(8, 995, 999, 994, 998));
    s.on_close(&bar(9, 998, 1005, 996, 1003));
    assert_eq!(s.ext_tick, 1005);
    assert_eq!(s.swing_highs, vec![(at(1), 1010)]);
    // candle 10 touches the low 975 without breaking it
    s.on_close(&bar(10, 1000, 1000, 975, 980));
    assert_eq!(s.swing_highs, vec![(at(1), 1010), (at(9), 1005)]);
    assert_eq!(s.swing_lows, vec![(at(5), 975)]);
    assert_eq!(s.trend, Trend::Low);
    assert_eq!(s.ext_tick, 975);
    assert_eq!(s.ext_opentime, at(10));
}

#[test]
fn high_needs_more_than_three_candles_after_the_low() {
    let mut s = low_confirmed();
    // the tracked high of candle 6 is one candle after the low of candle 5
    s.on_close(&bar(7, 1000, 1001, 975, 980));
    assert_eq!(s.swing_highs, vec![(at(1), 1010)]);
    assert_eq!(s.trend, Trend::High);
    assert_eq!(s.judge_time, 1);
}

#[test]
fn swing_times_increase_and_kinds_take_turns() {
    let mut s = Swings::new();
    s.on_close(&bullish(0, 990, 1000, 990, 1000));
    let mut price = 1000;
    // a zigzag: four candles up by 10, four candles down by 10, and so on
    for i in 1..80 {
        let up = (i / 4) % 2 == 0;
        let highs_before = s.swing_highs.len();
        let lows_before = s.swing_lows.len();
        let trend_before = s.trend;
        if up {
            s.on_close(&bar(i, price, price + 10, price - 1, price + 10));
            price += 10;
        } else {
            s.on_close(&bar(i, price, price + 1, price - 10, price - 10));
            price -= 10;
        }
        assert!(s.swing_highs.windows(2).all(|w| w[0].0 < w[1].0));
        assert!(s.swing_lows.windows(2).all(|w| w[0].0 < w[1].0));
        if s.swing_highs.len() > highs_before {
            assert_eq!(trend_before, Trend::High);
            assert_eq!(s.trend, Trend::Low);
        }
        if s.swing_lows.len() > lows_before {
            assert_eq!(trend_before, Trend::Low);
            assert_eq!(s.trend, Trend::High);
        }
    }
    assert!(s.swing_highs.len() >= 2);
    assert!(s.swing_lows.len() >= 2);
}

#[test]
fn default_tracker_is_new() {
    let s = Swings::default();
    assert_eq!(s.trend, Trend::Undetermined);
    assert!(s.swing_highs.is_empty());
    assert!(s.swing_lows.is_empty());
    assert!(s.wait_klines.is_empty());
    assert_eq!((s.ext_tick, s.ext_opentime, s.judge_time), (0, 0, 0));
    assert_eq!((s.last_high_low, s.last_low_high), (0, 0));
}
