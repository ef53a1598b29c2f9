//! Candles: open/high/low/close and signed volume of one time bucket.

use vstd::prelude::*;
use crate::arith::{add_lots, capped_sum, floor_rem, lemma_floor_by_rem};
use crate::types::{Rate, Side, Trade};

verus! {

/// First instant of the bucket of width `interval` that contains `time`.
pub open spec fn bucket_open(time: int, interval: int) -> int {
    (time / interval) * interval
}

/// Last instant of the bucket of width `interval` that contains `time`.
pub open spec fn bucket_close(time: int, interval: int) -> int {
    bucket_open(time, interval) + interval - 1
}

/// Whether both ends of the bucket that contains `time` are representable
/// timestamps.
pub open spec fn bucket_fits(time: int, interval: int) -> bool {
    &&& interval > 0
    &&& i64::MIN <= bucket_open(time, interval)
    &&& bucket_close(time, interval) <= i64::MAX
}

/// The bucket that contains `time` starts at or before it and ends at or
/// after it, and the bucket boundaries are multiples of the interval.
pub proof fn lemma_bucket_bounds(time: int, interval: int)
    requires
        interval > 0,
    ensures
        bucket_open(time, interval) <= time <= bucket_close(time, interval),
        bucket_open(time, interval) % interval == 0,
{
    vstd::arithmetic::div_mod::lemma_fundamental_div_mod(time, interval);
    vstd::arithmetic::div_mod::lemma_mod_bound(time, interval);
    vstd::arithmetic::div_mod::lemma_mod_multiples_basic(time / interval, interval);
    assert((time / interval) * interval == interval * (time / interval)) by (nonlinear_arith);
}

/// Every instant between the two ends of a bucket lies in that same bucket.
pub proof fn lemma_bucket_of_member(time: int, other: int, interval: int)
    requires
        interval > 0,
        bucket_open(time, interval) <= other <= bucket_close(time, interval),
    ensures
        bucket_open(other, interval) == bucket_open(time, interval),
{
    let q = time / interval;
    let r = other - q * interval;
    assert(q * interval == interval * q) by (nonlinear_arith);
    vstd::arithmetic::div_mod::lemma_fundamental_div_mod_converse(other, interval, q, r);
}

/// Whether `time` lies in a bucket of width `interval` whose two ends are
/// both representable timestamps. No bucket has a width of zero or less.
pub fn bucket_is_representable(time: i64, interval: i64) -> (ok: bool)
    ensures
        ok == bucket_fits(time as int, interval as int),
{
    if interval <= 0 {
        return false;
    }
    let back: i64 = floor_rem(time, interval);
    proof {
        lemma_floor_by_rem(time as int, interval as int);
    }
    if time < i64::MIN + back {
        return false;
    }
    let open: i64 = time - back;
    open <= i64::MAX - (interval - 1)
}

/// Start of the bucket that contains `time`.
pub fn bucket_start(time: i64, interval: i64) -> (open: i64)
    requires
        bucket_fits(time as int, interval as int),
    ensures
        open == bucket_open(time as int, interval as int),
{
    let back: i64 = floor_rem(time, interval);
    proof {
        lemma_floor_by_rem(time as int, interval as int);
    }
    time - back
}

/// One candle: the trades of a single time bucket, summarised.
#[derive(Debug, PartialEq, Eq)]
pub struct KLine {
    pub open_tick: i64,
    pub high_tick: i64,
    pub low_tick: i64,
    pub close_tick: i64,
    pub buy_volume: u64,
    pub sell_volume: u64,
    pub open_time: i64,
    pub close_time: i64,
    /// Coarse price level with the largest traded volume, set when the
    /// bucket closes.
    pub poc_price: i64,
    pub poc_qty: u64,
    pub top_buy_rate: Rate,
    pub top_sell_rate: Rate,
    /// Buy volume minus sell volume, with the largest and smallest value it
    /// has taken.
    pub delta: i128,
    pub max_delta: i128,
    pub min_delta: i128,
    /// One moving average per configured period.
    pub emas: Vec<i64>,
}

/// The mathematical value of a candle.
pub struct KLineView {
    pub open_tick: i64,
    pub high_tick: i64,
    pub low_tick: i64,
    pub close_tick: i64,
    pub buy_volume: u64,
    pub sell_volume: u64,
    pub open_time: i64,
    pub close_time: i64,
    pub poc_price: i64,
    pub poc_qty: u64,
    pub top_buy_rate: Rate,
    pub top_sell_rate: Rate,
    pub delta: i128,
    pub max_delta: i128,
    pub min_delta: i128,
    pub emas: Seq<i64>,
}

impl View for KLine {
    type V = KLineView;

    open spec fn view(&self) -> KLineView {
        KLineView {
            open_tick: self.open_tick,
            high_tick: self.high_tick,
            low_tick: self.low_tick,
            close_tick: self.close_tick,
            buy_volume: self.buy_volume,
            sell_volume: self.sell_volume,
            open_time: self.open_time,
            close_time: self.close_time,
            poc_price: self.poc_price,
            poc_qty: self.poc_qty,
            top_buy_rate: self.top_buy_rate,
            top_sell_rate: self.top_sell_rate,
            delta: self.delta,
            max_delta: self.max_delta,
            min_delta: self.min_delta,
            emas: self.emas@,
        }
    }
}

impl KLineView {
    /// The candle opened by a first trade.
    pub open spec fn fresh(
        tick: i64,
        qty: u64,
        timestamp: i64,
        interval: i64,
        side: Side,
        ema_nums: nat,
    ) -> KLineView {
        let buy: u64 = if side == Side::Buy { qty } else { 0 };
        let sell: u64 = if side == Side::Sell { qty } else { 0 };
        KLineView {
            open_tick: tick,
            high_tick: tick,
            low_tick: tick,
            close_tick: tick,
            buy_volume: buy,
            sell_volume: sell,
            open_time: bucket_open(timestamp as int, interval as int) as i64,
            close_time: bucket_close(timestamp as int, interval as int) as i64,
            poc_price: 0,
            poc_qty: 0,
            top_buy_rate: Rate::spec_zero(),
            top_sell_rate: Rate::spec_zero(),
            delta: (buy - sell) as i128,
            max_delta: buy as i128,
            min_delta: (-sell) as i128,
            emas: Seq::new(ema_nums, |i: int| 0i64),
        }
    }

    /// Whether `timestamp` falls into this candle's bucket, both ends included.
    pub open spec fn covers(self, timestamp: i64) -> bool {
        self.open_time <= timestamp <= self.close_time
    }

    /// The candle after one more trade. A trade outside the bucket leaves it
    /// as it is.
    pub open spec fn traded(self, tick: i64, qty: u64, timestamp: i64, side: Side) -> KLineView {
        if !self.covers(timestamp) {
            self
        } else {
            let buy: u64 = if side == Side::Buy {
                capped_sum(self.buy_volume as int, qty as int) as u64
            } else {
                self.buy_volume
            };
            let sell: u64 = if side == Side::Sell {
                capped_sum(self.sell_volume as int, qty as int) as u64
            } else {
                self.sell_volume
            };
            let delta: i128 = (buy - sell) as i128;
            KLineView {
                high_tick: if tick > self.high_tick { tick } else { self.high_tick },
                low_tick: if tick < self.low_tick { tick } else { self.low_tick },
                close_tick: tick,
                buy_volume: buy,
                sell_volume: sell,
                delta,
                max_delta: if delta > self.max_delta { delta } else { self.max_delta },
                min_delta: if delta < self.min_delta { delta } else { self.min_delta },
                ..self
            }
        }
    }

    /// The candle after a run of trades, applied first to last.
    pub open spec fn traded_all(self, trades: Seq<Trade>) -> KLineView
        decreases trades.len(),
    {
        if trades.len() == 0 {
            self
        } else {
            let t = trades.last();
            self.traded_all(trades.drop_last()).traded(t.tick, t.qty, t.time, t.side)
        }
    }

    /// What holds of every candle built by `fresh` and `traded`.
    pub open spec fn wf(self) -> bool {
        &&& self.low_tick <= self.open_tick <= self.high_tick
        &&& self.low_tick <= self.close_tick <= self.high_tick
        &&& self.open_time <= self.close_time
        &&& self.delta == self.buy_volume - self.sell_volume
        &&& self.min_delta <= self.delta <= self.max_delta
        &&& self.min_delta <= 0 <= self.max_delta
    }
}

impl Default for KLine {
    /// A candle of nothing: every number zero, no moving averages.
    fn default() -> (r: Self)
        ensures
            r@ == KLineView::fresh(0, 0, 0, 1, Side::Neither, 0),
    {
        let r = KLine {
            open_tick: 0,
            high_tick: 0,
            low_tick: 0,
            close_tick: 0,
            buy_volume: 0,
            sell_volume: 0,
            open_time: 0,
            close_time: 0,
            poc_price: 0,
            poc_qty: 0,
            top_buy_rate: Rate::zero(),
            top_sell_rate: Rate::zero(),
            delta: 0,
            max_delta: 0,
            min_delta: 0,
            emas: Vec::new(),
        };
        assert(r.emas@ =~= Seq::new(0, |i: int| 0i64));
        r
    }
}

impl Clone for KLine {
    fn clone(&self) -> (r: Self)
        ensures
            r@ == self@,
    {
        KLine {
            open_tick: self.open_tick,
            high_tick: self.high_tick,
            low_tick: self.low_tick,
            close_tick: self.close_tick,
            buy_volume: self.buy_volume,
            sell_volume: self.sell_volume,
            open_time: self.open_time,
            close_time: self.close_time,
            poc_price: self.poc_price,
            poc_qty: self.poc_qty,
            top_buy_rate: self.top_buy_rate,
            top_sell_rate: self.top_sell_rate,
            delta: self.delta,
            max_delta: self.max_delta,
            min_delta: self.min_delta,
            emas: self.emas.clone(),
        }
    }
}

impl KLine {
    /// Opens the candle of the bucket that contains `timestamp`, seeded with
    /// one trade. Every moving average starts at zero.
    pub fn new(
        tick: i64,
        qty: u64,
        timestamp: i64,
        interval: i64,
        side: Side,
        ema_nums: usize,
    ) -> (r: Self)
        requires
            bucket_fits(timestamp as int, interval as int),
        ensures
            r@ == KLineView::fresh(tick, qty, timestamp, interval, side, ema_nums as nat),
            r@.wf(),
            r@.covers(timestamp),
    {
        let mut emas: Vec<i64> = Vec::new();
        let mut i: usize = 0;
        while i < ema_nums
            invariant
                i <= ema_nums,
                emas@ == Seq::new(i as nat, |j: int| 0i64),
            decreases ema_nums - i,
        {
            emas.push(0);
            i += 1;
        }
        let open_time: i64 = bucket_start(timestamp, interval);
        proof {
            lemma_bucket_bounds(timestamp as int, interval as int);
        }
        let buy: u64 = if side == Side::Buy { qty } else { 0 };
        let sell: u64 = if side == Side::Sell { qty } else { 0 };
        KLine {
            open_tick: tick,
            high_tick: tick,
            low_tick: tick,
            close_tick: tick,
            buy_volume: buy,
            sell_volume: sell,
            open_time,
            close_time: open_time + (interval - 1),
            poc_price: 0,
            poc_qty: 0,
            top_buy_rate: Rate::zero(),
            top_sell_rate: Rate::zero(),
            delta: buy as i128 - sell as i128,
            max_delta: buy as i128,
            min_delta: -(sell as i128),
            emas,
        }
    }

    /// Folds one more trade into the candle. A trade whose `timestamp` lies
    /// outside the bucket changes nothing.
    pub fn update(&mut self, tick: i64, qty: u64, timestamp: i64, side: Side)
        ensures
            final(self)@ == old(self)@.traded(tick, qty, timestamp, side),
            old(self)@.wf() ==> final(self)@.wf(),
    {
        if timestamp < self.open_time || timestamp > self.close_time {
            return;
        }
        if tick > self.high_tick {
            self.high_tick = tick;
        }
        if tick < self.low_tick {
            self.low_tick = tick;
        }
        self.close_tick = tick;
        if side == Side::Buy {
            self.buy_volume = add_lots(self.buy_volume, qty);
        }
        if side == Side::Sell {
            self.sell_volume = add_lots(self.sell_volume, qty);
        }
        self.delta = self.buy_volume as i128 - self.sell_volume as i128;
        if self.delta > self.max_delta {
            self.max_delta = self.delta;
        }
        if self.delta < self.min_delta {
            self.min_delta = self.delta;
        }
    }
}

/// A candle's high and low enclose every trade that landed in its bucket,
/// and its delta is its buy volume minus its sell volume after every trade.
pub proof fn lemma_candle_encloses_trades(k: KLineView, trades: Seq<Trade>, i: int)
    requires
        k.wf(),
        0 <= i < trades.len(),
        k.covers(trades[i].time),
    ensures
        k.traded_all(trades).wf(),
        k.traded_all(trades).low_tick <= trades[i].tick <= k.traded_all(trades).high_tick,
        k.traded_all(trades).low_tick <= k.low_tick,
        k.traded_all(trades).high_tick >= k.high_tick,
        k.traded_all(trades).delta == k.traded_all(trades).buy_volume - k.traded_all(
            trades,
        ).sell_volume,
        k.traded_all(trades).open_time == k.open_time,
        k.traded_all(trades).close_time == k.close_time,
    decreases trades.len(),
{
    let rest = trades.drop_last();
    lemma_trades_keep_candle(k, rest);
    if i < rest.len() {
        lemma_candle_encloses_trades(k, rest, i);
    }
}

/// Trades never narrow a candle's range nor move its bucket.
pub proof fn lemma_trades_keep_candle(k: KLineView, trades: Seq<Trade>)
    requires
        k.wf(),
    ensures
        k.traded_all(trades).wf(),
        k.traded_all(trades).low_tick <= k.low_tick,
        k.traded_all(trades).high_tick >= k.high_tick,
        k.traded_all(trades).open_time == k.open_time,
        k.traded_all(trades).close_time == k.close_time,
        k.traded_all(trades).open_tick == k.open_tick,
    decreases trades.len(),
{
    if trades.len() > 0 {
        lemma_trades_keep_candle(k, trades.drop_last());
    }
}

/// The closing instant of a bucket belongs to it, and the instant after it
/// starts the next bucket.
pub proof fn lemma_bucket_boundary(time: int, interval: int)
    requires
        interval > 0,
    ensures
        bucket_open(bucket_close(time, interval), interval) == bucket_open(time, interval),
        bucket_open(bucket_close(time, interval) + 1, interval) == bucket_close(time, interval)
            + 1,
{
    lemma_bucket_bounds(time, interval);
    lemma_bucket_of_member(time, bucket_close(time, interval), interval);
    let q = time / interval;
    assert(bucket_close(time, interval) + 1 == (q + 1) * interval) by (nonlinear_arith)
        requires
            bucket_close(time, interval) == q * interval + interval - 1,
    ;
    assert((q + 1) * interval == interval * (q + 1)) by (nonlinear_arith);
    vstd::arithmetic::div_mod::lemma_fundamental_div_mod_converse(
        (q + 1) * interval,
        interval,
        q + 1,
        0,
    );
}

} // verus!
