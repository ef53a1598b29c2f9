//! The price-action model: candles per interval, swing points of the base
//! interval, order-flow imbalance and the recently traded price levels, all
//! advanced one trade at a time.

use std::collections::HashMap;
use vstd::prelude::*;
use crate::arith::{add_lots, capped_sum};
use crate::imbalance::{Imbalance, ImbalanceView};
use crate::kline::{bucket_fits, bucket_is_representable, KLine, KLineView};
use crate::listing::{
    lemma_listing_ends, lemma_listing_push, lemma_listing_step, listed_before, listed_from,
};
use crate::series::{referred_views, Series, SeriesView};
use crate::swings::{lemma_step_keeps_order, times_increase, Swings, SwingsView, Trend};
use crate::types::Side;

verus! {

broadcast use vstd::std_specs::hash::group_hash_axioms;

/// How long a price level is remembered after its last trade: 24 hours.
pub const RETENTION: i64 = 86_400_000_000_000;

/// Number of price ticks the imbalance tracker follows.
pub const IMBALANCE_TICKS: usize = 30;

/// The price-action model of one instrument.
#[derive(Debug)]
pub struct HkPriceAction {
    /// One candle series per configured interval, in the order of `intervals`.
    pub series: Vec<Series>,
    pub ema_periods: Vec<i64>,
    pub intervals: Vec<i64>,
    /// Quantity traded and time of the last trade by whole-number price.
    pub price_tick_qtys: HashMap<i64, (u64, i64)>,
    /// The whole-number prices that `price_tick_qtys` holds.
    pub prices: Vec<i64>,
    pub swings: Swings,
    /// The run of trades at one price and side that is still growing.
    pub last_tick: i64,
    pub last_tick_qty: u64,
    pub last_side: Side,
    pub last_tick_time: i64,
    pub imbalance: Imbalance,
}

/// The mathematical value of the price-action model.
pub struct PriceActionView {
    pub series: Seq<SeriesView>,
    pub ema_periods: Seq<i64>,
    pub intervals: Seq<i64>,
    pub price_levels: Map<i64, (u64, i64)>,
    pub swings: SwingsView,
    pub last_tick: i64,
    pub last_tick_qty: u64,
    pub last_side: Side,
    pub last_tick_time: i64,
    pub imbalance: ImbalanceView,
}

/// Index of the first occurrence of `value`.
pub open spec fn first_index(s: Seq<i64>, value: i64) -> Option<int>
    decreases s.len(),
{
    if s.len() == 0 {
        None
    } else {
        match first_index(s.drop_last(), value) {
            Some(i) => Some(i),
            None => if s.last() == value {
                Some(s.len() - 1)
            } else {
                None
            },
        }
    }
}

/// The first occurrence is an occurrence, and nothing before it is.
pub proof fn lemma_first_index(s: Seq<i64>, value: i64)
    ensures
        match first_index(s, value) {
            Some(i) => 0 <= i < s.len() && s[i] == value && forall|j: int|
                0 <= j < i ==> s[j] != value,
            None => forall|j: int| 0 <= j < s.len() ==> s[j] != value,
        },
    decreases s.len(),
{
    if s.len() > 0 {
        let rest = s.drop_last();
        lemma_first_index(rest, value);
        assert forall|j: int| 0 <= j < rest.len() implies rest[j] == s[j] by {}
    }
}

/// Whether one price level ranks above another: it has traded more, or as
/// much but later, or as much at the same time at a lower price. A level is
/// given as price, quantity and time of its last trade.
pub open spec fn ranks_above(a: (i64, u64, i64), b: (i64, u64, i64)) -> bool {
    a.1 > b.1 || (a.1 == b.1 && (a.2 > b.2 || (a.2 == b.2 && a.0 < b.0)))
}

/// Whether the level at price `a` ranks above the level at price `b`.
pub open spec fn outranks(levels: Map<i64, (u64, i64)>, a: i64, b: i64) -> bool {
    ranks_above((a, levels[a].0, levels[a].1), (b, levels[b].0, levels[b].1))
}

/// Whether some entry of `top` is for `price`.
pub open spec fn lists_price(top: Seq<(i64, u64)>, price: i64) -> bool {
    exists|i: int| 0 <= i < top.len() && (#[trigger] top[i]).0 == price
}

/// Whether `top` holds the `first` highest-ranking price levels with their
/// quantities, highest first, or all levels if there are fewer.
pub open spec fn is_top_trades(
    levels: Map<i64, (u64, i64)>,
    first: nat,
    top: Seq<(i64, u64)>,
) -> bool {
    &&& top.len() <= first
    &&& forall|i: int|
        0 <= i < top.len() ==> levels.dom().contains((#[trigger] top[i]).0) && top[i].1
            == levels[top[i].0].0
    &&& forall|i: int, j: int|
        0 <= i < j < top.len() ==> outranks(levels, (#[trigger] top[i]).0, (#[trigger] top[j]).0)
    &&& forall|p: i64|
        levels.dom().contains(p) && !lists_price(top, p) ==> top.len() == first && forall|i: int|
            0 <= i < top.len() ==> outranks(levels, (#[trigger] top[i]).0, p)
}

/// Two rankings of the same price levels agree on their first `upto`
/// entries.
proof fn lemma_top_trades_agree(
    levels: Map<i64, (u64, i64)>,
    first: nat,
    a: Seq<(i64, u64)>,
    b: Seq<(i64, u64)>,
    upto: int,
)
    requires
        is_top_trades(levels, first, a),
        is_top_trades(levels, first, b),
        0 <= upto <= a.len(),
        upto <= b.len(),
    ensures
        forall|i: int| 0 <= i < upto ==> a[i] == b[i],
    decreases upto,
{
    if upto > 0 {
        lemma_top_trades_agree(levels, first, a, b, upto - 1);
        let i = upto - 1;
        let p = a[i].0;
        let q = b[i].0;
        if p != q {
            // Each of the two ranks above the other, which cannot be.
            assert(outranks(levels, p, q)) by {
                if lists_price(a, q) {
                    let j = choose|j: int| 0 <= j < a.len() && (#[trigger] a[j]).0 == q;
                    if j < i {
                        assert(a[j] == b[j]);
                        assert(outranks(levels, b[j].0, b[i].0));
                    }
                }
            }
            assert(outranks(levels, q, p)) by {
                if lists_price(b, p) {
                    let j = choose|j: int| 0 <= j < b.len() && (#[trigger] b[j]).0 == p;
                    if j < i {
                        assert(a[j] == b[j]);
                        assert(outranks(levels, a[j].0, a[i].0));
                    }
                }
            }
        }
    }
}

/// The price levels determine their ranking: there is one sequence of the
/// `first` highest-ranking levels and no other.
pub proof fn lemma_top_trades_unique(
    levels: Map<i64, (u64, i64)>,
    first: nat,
    a: Seq<(i64, u64)>,
    b: Seq<(i64, u64)>,
)
    requires
        is_top_trades(levels, first, a),
        is_top_trades(levels, first, b),
    ensures
        a == b,
{
    let n = if a.len() < b.len() { a.len() as int } else { b.len() as int };
    lemma_top_trades_agree(levels, first, a, b, n);
    if a.len() < b.len() {
        let q = b[n].0;
        if lists_price(a, q) {
            let j = choose|j: int| 0 <= j < a.len() && (#[trigger] a[j]).0 == q;
            assert(a[j] == b[j]);
            assert(outranks(levels, b[j].0, b[n].0));
        }
    }
    if b.len() < a.len() {
        let p = a[n].0;
        if lists_price(b, p) {
            let j = choose|j: int| 0 <= j < b.len() && (#[trigger] b[j]).0 == p;
            assert(a[j] == b[j]);
            assert(outranks(levels, a[j].0, a[n].0));
        }
    }
    assert(a =~= b);
}

/// The price levels that have traded within `retention` of `now`.
pub open spec fn retained(levels: Map<i64, (u64, i64)>, now: i64, retention: i64) -> Map<
    i64,
    (u64, i64),
> {
    Map::new(|p: i64| is_fresh(levels, p, now, retention), |p: i64| levels[p])
}

/// The price levels after a trade of `qty` at `price`.
pub open spec fn recorded(levels: Map<i64, (u64, i64)>, price: i64, qty: u64, time: i64) -> Map<
    i64,
    (u64, i64),
> {
    if levels.dom().contains(price) {
        levels.insert(price, (capped_sum(levels[price].0 as int, qty as int) as u64, time))
    } else {
        levels.insert(price, (qty, time))
    }
}

impl View for HkPriceAction {
    type V = PriceActionView;

    open spec fn view(&self) -> PriceActionView {
        PriceActionView {
            series: Seq::new(self.series@.len(), |i: int| self.series@[i]@),
            ema_periods: self.ema_periods@,
            intervals: self.intervals@,
            price_levels: self.price_tick_qtys@,
            swings: self.swings@,
            last_tick: self.last_tick,
            last_tick_qty: self.last_tick_qty,
            last_side: self.last_side,
            last_tick_time: self.last_tick_time,
            imbalance: self.imbalance@,
        }
    }
}

impl PriceActionView {
    /// What holds of every model built by `new` and advanced by trades.
    pub open spec fn wf(self) -> bool {
        &&& self.series.len() == self.intervals.len()
        &&& forall|i: int|
            0 <= i < self.series.len() ==> (#[trigger] self.series[i]).interval
                == self.intervals[i] && self.series[i].wf(self.ema_periods)
        &&& forall|i: int| 0 <= i < self.ema_periods.len() ==> self.ema_periods[i] != -1
        &&& self.swings.wf()
        &&& self.swings.trend != Trend::Undetermined ==> {
            &&& self.series.len() > 0
            &&& self.series[0].previous() is Some
            &&& self.swings.ext_opentime <= self.series[0].last_closed
        }
        &&& self.imbalance.capacity > 0
    }

    /// Whether a trade at `timestamp` falls into a representable bucket of
    /// every configured interval.
    pub open spec fn admits(self, timestamp: i64) -> bool {
        forall|i: int|
            0 <= i < self.intervals.len() ==> bucket_fits(
                timestamp as int,
                #[trigger] self.intervals[i] as int,
            )
    }

    /// The most recent candles of `interval` and the opening time of its
    /// open candle; nothing and zero for an interval that is not configured.
    pub open spec fn kmaps_result(self, interval: i64, nums: int) -> (Map<i64, KLineView>, i64) {
        match first_index(self.intervals, interval) {
            Some(i) => self.series[i].recent(nums),
            None => (Map::empty(), 0i64),
        }
    }

    /// The last `nums` highs and lows, as many of each as both sequences
    /// have, interleaved in time order pair by pair: within a pair the kind
    /// whose newest point is older comes first. Empty while either sequence
    /// is empty.
    pub open spec fn swings_result(self, nums: int) -> Seq<(i64, i64)> {
        let highs = self.swings.highs;
        let lows = self.swings.lows;
        if highs.len() == 0 || lows.len() == 0 {
            Seq::empty()
        } else {
            let shorter = if highs.len() < lows.len() { highs.len() } else { lows.len() };
            let lens: int = if shorter > nums { nums } else { shorter as int };
            let low_first = highs.last().0 > lows.last().0;
            Seq::new(
                (2 * lens) as nat,
                |j: int|
                    if (j % 2 == 0) == low_first {
                        lows[lows.len() - lens + j / 2]
                    } else {
                        highs[highs.len() - lens + j / 2]
                    },
            )
        }
    }

    /// The model after the swing tracker has seen the newest closed candle
    /// of the base series. Nothing happens before three candles have closed.
    pub open spec fn swung(self) -> PriceActionView
        recommends
            self.series.len() > 0,
    {
        let base = self.series[0];
        if base.closed.dom().len() >= 3 && base.previous() is Some {
            PriceActionView { swings: self.swings.step(base.previous().unwrap()), ..self }
        } else {
            self
        }
    }

    /// The model after the series of `interval` has been fed one trade. When
    /// the trade closes a candle, price levels older than the retention are
    /// forgotten and, for the base interval, the swing tracker advances.
    pub open spec fn kline_updated(
        self,
        interval: i64,
        tick: i64,
        qty: u64,
        time: i64,
        side: Side,
    ) -> PriceActionView {
        match first_index(self.intervals, interval) {
            None => self,
            Some(i) => {
                let fed = PriceActionView {
                    series: self.series.update(
                        i,
                        self.series[i].fed(tick, qty, time, side, self.ema_periods),
                    ),
                    ..self
                };
                if !self.series[i].rolls(time) {
                    fed
                } else {
                    let pruned = PriceActionView {
                        price_levels: retained(fed.price_levels, time, RETENTION),
                        ..fed
                    };
                    if interval == self.intervals[0] {
                        pruned.swung()
                    } else {
                        pruned
                    }
                }
            },
        }
    }

    /// The model after the first `upto` intervals have each been fed the
    /// trade, in their configured order.
    pub open spec fn klines_fed(
        self,
        upto: int,
        tick: i64,
        qty: u64,
        time: i64,
        side: Side,
    ) -> PriceActionView
        decreases upto,
    {
        if upto <= 0 {
            self
        } else {
            self.klines_fed(upto - 1, tick, qty, time, side).kline_updated(
                self.intervals[upto - 1],
                tick,
                qty,
                time,
                side,
            )
        }
    }

    /// The model after the trade has been joined to the growing run of
    /// trades at one price and side. A trade at another price or side ends
    /// the run, which then enters the imbalance tracker, and starts the next.
    pub open spec fn coalesced(
        self,
        tick: i64,
        qty: u64,
        time: i64,
        side: Side,
    ) -> PriceActionView {
        if self.last_tick == tick && self.last_side == side {
            PriceActionView {
                last_tick_qty: capped_sum(self.last_tick_qty as int, qty as int) as u64,
                ..self
            }
        } else {
            PriceActionView {
                imbalance: self.imbalance.pushed(
                    self.last_tick,
                    self.last_tick_qty,
                    self.last_side,
                ),
                last_tick: tick,
                last_side: side,
                last_tick_qty: qty,
                last_tick_time: time,
                ..self
            }
        }
    }

    /// Whether the two models have the same growing run of trades and the
    /// same imbalance tracker.
    pub open spec fn same_run(self, other: PriceActionView) -> bool {
        &&& self.last_tick == other.last_tick
        &&& self.last_tick_qty == other.last_tick_qty
        &&& self.last_side == other.last_side
        &&& self.last_tick_time == other.last_tick_time
        &&& self.imbalance == other.imbalance
    }

    /// The model after one trade.
    pub open spec fn order_flowed(
        self,
        tick: i64,
        price: i64,
        qty: u64,
        time: i64,
        side: Side,
    ) -> PriceActionView {
        let fed = self.coalesced(tick, qty, time, side).klines_fed(
            self.intervals.len() as int,
            tick,
            qty,
            time,
            side,
        );
        PriceActionView { price_levels: recorded(fed.price_levels, price, qty, time), ..fed }
    }
}

impl HkPriceAction {
    /// What holds of the stored representation beyond the model's own
    /// invariant.
    pub open spec fn wf(&self) -> bool {
        &&& self@.wf()
        &&& self.imbalance.wf()
        &&& self.prices@.no_duplicates()
        &&& forall|p: i64| self.prices@.contains(p) == self.price_tick_qtys@.dom().contains(p)
    }

    /// Creates the model for the given candle intervals, the first of which
    /// is the base interval, and moving-average periods.
    pub fn new(intervals: Vec<i64>, ema_periods: Vec<i64>) -> (r: Self)
        requires
            forall|i: int| 0 <= i < intervals@.len() ==> intervals@[i] > 0,
            forall|i: int| 0 <= i < ema_periods@.len() ==> ema_periods@[i] != -1,
        ensures
            r.wf(),
            r@.intervals == intervals@,
            r@.ema_periods == ema_periods@,
            r@.series == Seq::new(intervals@.len(), |i: int| SeriesView::empty(intervals@[i])),
            r@.price_levels == Map::<i64, (u64, i64)>::empty(),
            r@.swings == SwingsView::initial(),
            r@.last_tick == 0,
            r@.last_tick_qty == 0,
            r@.last_side == Side::Neither,
            r@.last_tick_time == 0,
            r@.imbalance == ImbalanceView::empty(IMBALANCE_TICKS as nat),
    {
        let mut series: Vec<Series> = Vec::new();
        let n = intervals.len();
        let mut i: usize = 0;
        while i < n
            invariant
                n == intervals@.len(),
                i <= n,
                series@.len() == i,
                forall|j: int| 0 <= j < intervals@.len() ==> intervals@[j] > 0,
                forall|j: int|
                    0 <= j < i ==> (#[trigger] series@[j])@ == SeriesView::empty(intervals@[j])
                        && series@[j]@.wf(ema_periods@),
            decreases n - i,
        {
            series.push(Series::new(intervals[i]));
            i += 1;
        }
        let r = HkPriceAction {
            series,
            ema_periods,
            intervals,
            price_tick_qtys: HashMap::new(),
            prices: Vec::new(),
            swings: Swings::default(),
            last_tick: 0,
            last_tick_qty: 0,
            last_side: Side::Neither,
            last_tick_time: 0,
            imbalance: Imbalance::new(IMBALANCE_TICKS),
        };
        r
    }

    /// Index of the series of `interval`: the first place where the interval
    /// is configured.
    fn series_index(&self, interval: i64) -> (r: Option<usize>)
        ensures
            match r {
                Some(i) => first_index(self.intervals@, interval) == Some(i as int),
                None => first_index(self.intervals@, interval) is None,
            },
    {
        let n = self.intervals.len();
        let mut i: usize = 0;
        while i < n
            invariant
                n == self.intervals@.len(),
                i <= n,
                forall|j: int| 0 <= j < i ==> self.intervals@[j] != interval,
            decreases n - i,
        {
            if self.intervals[i] == interval {
                proof {
                    lemma_first_index(self.intervals@, interval);
                }
                return Some(i);
            }
            i += 1;
        }
        proof {
            lemma_first_index(self.intervals@, interval);
        }
        None
    }

    /// Whether a trade at `timestamp` can be fed: its bucket is representable
    /// in every configured interval.
    pub fn admits(&self, timestamp: i64) -> (ok: bool)
        ensures
            ok == self@.admits(timestamp),
    {
        let n = self.intervals.len();
        let mut i: usize = 0;
        while i < n
            invariant
                n == self.intervals@.len(),
                i <= n,
                forall|j: int|
                    0 <= j < i ==> bucket_fits(
                        timestamp as int,
                        #[trigger] self.intervals@[j] as int,
                    ),
            decreases n - i,
        {
            if !bucket_is_representable(timestamp, self.intervals[i]) {
                assert(!bucket_fits(timestamp as int, self@.intervals[i as int] as int));
                return false;
            }
            i += 1;
        }
        true
    }

    /// Shows the swing tracker the newest closed candle of the base series,
    /// once three candles have closed.
    fn advance_swings(&mut self)
        requires
            old(self).series@.len() > 0,
        ensures
            final(self)@ == old(self)@.swung(),
            final(self).series == old(self).series,
            final(self).imbalance == old(self).imbalance,
            final(self).prices == old(self).prices,
            final(self).price_tick_qtys == old(self).price_tick_qtys,
    {
        assert(self.series@[0]@.closed.dom() =~= self.series@[0].closed@.dom());
        if self.series[0].closed.len() < 3 {
            return ;
        }
        let t: i64 = self.series[0].last_closed;
        match self.series[0].closed.get(&t) {
            Some(k) => {
                self.swings.on_close(k);
            },
            None => {},
        }
    }

    /// Feeds one trade to the candle series of `interval`. When the trade
    /// closes a candle, price levels older than the retention are forgotten
    /// and, for the base interval, the swing tracker advances.
    pub fn update_kline(
        &mut self,
        interval: i64,
        tick: i64,
        tick_qty: u64,
        tick_time: i64,
        side: Side,
    )
        requires
            old(self).wf(),
            first_index(old(self)@.intervals, interval) is Some,
            bucket_fits(tick_time as int, interval as int),
        ensures
            final(self).wf(),
            final(self)@ == old(self)@.kline_updated(interval, tick, tick_qty, tick_time, side),
            final(self)@.intervals == old(self)@.intervals,
            final(self)@.ema_periods == old(self)@.ema_periods,
    {
        let idx: usize = match self.series_index(interval) {
            Some(i) => i,
            None => {
                return ;
            },
        };
        proof {
            lemma_first_index(self.intervals@, interval);
            if self.series@.len() > 0 {
                assert(self@.series[0] == self.series@[0]@);
            }
        }
        let ghost before = self@;
        let rolled = self.series[idx].feed(tick, tick_qty, tick_time, side, &self.ema_periods);
        proof {
            assert(self@.series =~= before.series.update(
                idx as int,
                before.series[idx as int].fed(tick, tick_qty, tick_time, side, before.ema_periods),
            ));
            assert forall|i: int| 0 <= i < self@.series.len() implies (#[trigger] self@.series[i])
                .interval == self@.intervals[i] && self@.series[i].wf(self@.ema_periods) by {
                if i != idx {
                    assert(self@.series[i] == before.series[i]);
                }
            }
        }
        if rolled {
            proof {
                let fed = self@;
                if idx == 0 {
                    let done = before.series[0].finalized();
                    assert(fed.series[0].closed.dom().contains(done.open_time));
                    if before.swings.trend != Trend::Undetermined {
                        assert(before.series[0].closed.dom().contains(
                            before.series[0].last_closed,
                        ));
                    }
                }
            }
            self.remove_old_trades(tick_time, RETENTION);
            if interval == self.intervals[0] {
                proof {
                    let s = self@;
                    let base = s.series[0];
                    if base.closed.dom().len() >= 3 && base.previous() is Some {
                        lemma_step_keeps_order(s.swings, base.previous().unwrap());
                    }
                }
                self.advance_swings();
            }
        }
    }

    /// Recomputes the moving averages of the open candle of `interval` at
    /// price `tick`: the price itself while no candle has closed, and after
    /// that one step from the averages of the newest closed candle.
    pub fn update_emas(&mut self, interval: i64, tick: i64, open_time: i64, _closed: bool)
        requires
            old(self).wf(),
            first_index(old(self)@.intervals, interval) is Some,
            old(self)@.series[first_index(old(self)@.intervals, interval).unwrap()].current is Some,
            old(self)@.series[first_index(old(self)@.intervals, interval).unwrap()].cursor()
                == open_time,
        ensures
            final(self).wf(),
            final(self)@ == (PriceActionView {
                series: old(self)@.series.update(
                    first_index(old(self)@.intervals, interval).unwrap(),
                    old(self)@.series[first_index(
                        old(self)@.intervals,
                        interval,
                    ).unwrap()].with_emas(tick, old(self)@.ema_periods),
                ),
                ..old(self)@
            }),
    {
        let idx: usize = match self.series_index(interval) {
            Some(i) => i,
            None => {
                return ;
            },
        };
        proof {
            lemma_first_index(self.intervals@, interval);
            if self.series@.len() > 0 {
                assert(self@.series[0] == self.series@[0]@);
            }
        }
        let ghost before = self@;
        self.series[idx].refresh_emas(tick, &self.ema_periods);
        proof {
            assert(self@.series =~= before.series.update(
                idx as int,
                before.series[idx as int].with_emas(tick, before.ema_periods),
            ));
            assert forall|i: int| 0 <= i < self@.series.len() implies (#[trigger] self@.series[i])
                .interval == self@.intervals[i] && self@.series[i].wf(self@.ema_periods) by {
                if i != idx {
                    assert(self@.series[i] == before.series[i]);
                }
            }
        }
    }

    /// The `first` price levels that have traded most, with their quantities,
    /// the largest first. Of two levels with the same quantity the one that
    /// traded later comes first, and of two that also traded at the same time
    /// the one with the lower price.
    pub fn top_trades(&self, first: usize) -> (r: Vec<(i64, u64)>)
        requires
            self.wf(),
        ensures
            is_top_trades(self@.price_levels, first as nat, r@),
    {
        let ghost levels = self.price_tick_qtys@;
        let n = self.prices.len();
        let mut out: Vec<(i64, u64)> = Vec::new();
        let mut last: (i64, u64, i64) = (0, 0, 0);
        while out.len() < first
            invariant
                self.wf(),
                levels == self.price_tick_qtys@,
                n == self.prices@.len(),
                out@.len() <= first,
                out@.len() > 0 ==> last == (out@.last().0, levels[last.0].0, levels[last.0].1)
                    && levels.dom().contains(last.0),
                forall|i: int|
                    0 <= i < out@.len() ==> levels.dom().contains((#[trigger] out@[i]).0)
                        && out@[i].1 == levels[out@[i].0].0,
                forall|i: int, j: int|
                    0 <= i < j < out@.len() ==> outranks(
                        levels,
                        (#[trigger] out@[i]).0,
                        (#[trigger] out@[j]).0,
                    ),
                forall|p: i64|
                    #![trigger lists_price(out@, p)]
                    levels.dom().contains(p) ==> (lists_price(out@, p) <==> out@.len() > 0
                        && !outranks(levels, last.0, p)),
            ensures
                out@.len() <= first,
                forall|i: int|
                    0 <= i < out@.len() ==> levels.dom().contains((#[trigger] out@[i]).0)
                        && out@[i].1 == levels[out@[i].0].0,
                forall|i: int, j: int|
                    0 <= i < j < out@.len() ==> outranks(
                        levels,
                        (#[trigger] out@[i]).0,
                        (#[trigger] out@[j]).0,
                    ),
                out@.len() > 0 ==> last.0 == out@.last().0,
                forall|p: i64|
                    #![trigger lists_price(out@, p)]
                    levels.dom().contains(p) && !lists_price(out@, p) ==> out@.len() == first && (
                    out@.len() > 0 ==> outranks(levels, last.0, p)),
            decreases first - out@.len(),
        {
            let started = out.len() > 0;
            let mut best: Option<(i64, u64, i64)> = None;
            let mut i: usize = 0;
            while i < n
                invariant
                    self.wf(),
                    levels == self.price_tick_qtys@,
                    n == self.prices@.len(),
                    i <= n,
                    started == (out@.len() > 0),
                    started ==> levels.dom().contains(last.0) && last.1 == levels[last.0].0
                        && last.2 == levels[last.0].1,
                    match best {
                        Some(b) => {
                            &&& levels.dom().contains(b.0)
                            &&& b.1 == levels[b.0].0
                            &&& b.2 == levels[b.0].1
                            &&& !started || outranks(levels, last.0, b.0)
                            &&& forall|j: int|
                                0 <= j < i && (!started || outranks(
                                    levels,
                                    last.0,
                                    #[trigger] self.prices@[j],
                                )) ==> self.prices@[j] == b.0 || outranks(
                                    levels,
                                    b.0,
                                    self.prices@[j],
                                )
                        },
                        None => forall|j: int|
                            0 <= j < i ==> started && !outranks(
                                levels,
                                last.0,
                                #[trigger] self.prices@[j],
                            ),
                    },
                decreases n - i,
            {
                let price: i64 = self.prices[i];
                assert(self.prices@.contains(price));
                match self.price_tick_qtys.get(&price) {
                    Some(level) => {
                        let entry: (i64, u64, i64) = (price, level.0, level.1);
                        let eligible = !started || is_above(last, entry);
                        let better = match best {
                            Some(b) => is_above(entry, b),
                            None => true,
                        };
                        if eligible && better {
                            best = Some(entry);
                        }
                    },
                    None => {},
                }
                i += 1;
            }
            match best {
                Some(b) => {
                    let ghost out0 = out@;
                    out.push((b.0, b.1));
                    proof {
                        assert forall|p: i64|
                            #![trigger lists_price(out@, p)]
                            levels.dom().contains(p) implies (lists_price(out@, p) <==> !outranks(
                                levels,
                                b.0,
                                p,
                            )) by {
                            assert(self.prices@.contains(p));
                            let j = choose|j: int| 0 <= j < n && self.prices@[j] == p;
                            assert(self.prices@[j] == p);
                            if lists_price(out@, p) {
                                let a = choose|a: int|
                                    0 <= a < out@.len() && (#[trigger] out@[a]).0 == p;
                                if a < out0.len() {
                                    assert(out0[a].0 == p);
                                }
                            }
                            if lists_price(out0, p) {
                                let a = choose|a: int|
                                    0 <= a < out0.len() && (#[trigger] out0[a]).0 == p;
                                assert(out@[a].0 == p);
                            }
                            if p == b.0 {
                                assert(out@[out0.len() as int].0 == p);
                            }
                        }
                    }
                    last = b;
                },
                None => {
                    proof {
                        assert forall|p: i64|
                            #![trigger lists_price(out@, p)]
                            levels.dom().contains(p) implies lists_price(out@, p) by {
                            assert(self.prices@.contains(p));
                            let j = choose|j: int| 0 <= j < n && self.prices@[j] == p;
                            assert(self.prices@[j] == p);
                        }
                    }
                    break ;
                },
            }
        }
        proof {
            assert forall|p: i64|
                levels.dom().contains(p) && !lists_price(out@, p) implies out@.len() == first
                && forall|i: int|
                0 <= i < out@.len() ==> outranks(levels, (#[trigger] out@[i]).0, p) by {
                assert forall|i: int| 0 <= i < out@.len() implies outranks(
                    levels,
                    (#[trigger] out@[i]).0,
                    p,
                ) by {
                    if i < out@.len() - 1 {
                        assert(outranks(levels, out@[i].0, out@[out@.len() - 1].0));
                    }
                }
            }
        }
        out
    }

    /// Adds a trade to the quantity of its whole-number price and stamps the
    /// level with the trade's time.
    pub fn record_trade(&mut self, price: i64, quantity: u64, timestamp: i64)
        requires
            old(self).wf(),
        ensures
            final(self).wf(),
            final(self)@ == (PriceActionView {
                price_levels: recorded(old(self)@.price_levels, price, quantity, timestamp),
                ..old(self)@
            }),
    {
        let ghost before = self.prices@;
        let held = match self.price_tick_qtys.get(&price) {
            Some(level) => Some(level.0),
            None => None,
        };
        match held {
            Some(qty) => {
                self.price_tick_qtys.insert(price, (add_lots(qty, quantity), timestamp));
                assert forall|p: i64|
                    self.prices@.contains(p) == self.price_tick_qtys@.dom().contains(p) by {
                    assert(before.contains(p) == old(self).price_tick_qtys@.dom().contains(p));
                }
            },
            None => {
                self.price_tick_qtys.insert(price, (quantity, timestamp));
                self.prices.push(price);
                proof {
                    lemma_listing_push(before, price);
                }
            },
        }
    }

    /// Forgets the price levels whose last trade is more than
    /// `retention_time` before `now`.
    fn remove_old_trades(&mut self, now: i64, retention_time: i64)
        requires
            old(self).wf(),
        ensures
            final(self).wf(),
            final(self)@ == (PriceActionView {
                price_levels: retained(old(self)@.price_levels, now, retention_time),
                ..old(self)@
            }),
    {
        let ghost levels = self.price_tick_qtys@;
        let ghost prices = self.prices@;
        let n = self.prices.len();
        let mut kept: Vec<i64> = Vec::new();
        let mut i: usize = 0;
        proof {
            lemma_listing_ends(prices);
        }
        while i < n
            invariant
                n == prices.len(),
                i <= n,
                self.prices@ == prices,
                prices.no_duplicates(),
                forall|p: i64| prices.contains(p) == levels.dom().contains(p),
                kept@.no_duplicates(),
                forall|p: i64|
                    #![trigger kept@.contains(p)]
                    kept@.contains(p) <==> listed_before(prices, i as int, p) && is_fresh(
                        levels,
                        p,
                        now,
                        retention_time,
                    ),
                forall|p: i64|
                    #![trigger self.price_tick_qtys@.dom().contains(p)]
                    self.price_tick_qtys@.dom().contains(p) <==> levels.dom().contains(p) && (
                    is_fresh(levels, p, now, retention_time) || listed_from(prices, i as int, p)),
                forall|p: i64|
                    #![trigger self.price_tick_qtys@[p]]
                    self.price_tick_qtys@.dom().contains(p) ==> self.price_tick_qtys@[p]
                        == levels[p],
                self.series == old(self).series,
                self.ema_periods == old(self).ema_periods,
                self.intervals == old(self).intervals,
                self.swings == old(self).swings,
                self.last_tick == old(self).last_tick,
                self.last_tick_qty == old(self).last_tick_qty,
                self.last_side == old(self).last_side,
                self.last_tick_time == old(self).last_tick_time,
                self.imbalance == old(self).imbalance,
            decreases n - i,
        {
            let price: i64 = self.prices[i];
            let ghost kept0 = kept@;
            proof {
                lemma_listing_step(prices, i as int);
            }
            let fresh = match self.price_tick_qtys.get(&price) {
                Some(level) => now as i128 - level.1 as i128 <= retention_time as i128,
                None => false,
            };
            if fresh {
                kept.push(price);
                proof {
                    lemma_listing_push(kept0, price);
                }
            } else {
                self.price_tick_qtys.remove(&price);
            }
            i += 1;
        }
        self.prices = kept;
        proof {
            assert(self.price_tick_qtys@ =~= retained(levels, now, retention_time));
        }
    }
}

/// What a strategy reads from a price-action model, and the one way trades
/// enter it.
pub trait PriceAction {
    /// The model's invariant. A model that does not say otherwise has none.
    open spec fn ready(&self) -> bool {
        true
    }

    /// Whether the model can take a trade at `timestamp`. A model that does
    /// not say otherwise takes every trade.
    open spec fn accepts(&self, timestamp: i64) -> bool {
        true
    }

    /// Whether `after` is the model `before` advanced by the given trade. A
    /// model that does not say otherwise may become anything.
    open spec fn flowed(
        before: &Self,
        after: &Self,
        tick: i64,
        price: i64,
        qty: u64,
        timestamp: i64,
        side: Side,
    ) -> bool {
        true
    }

    /// Advances the model by one trade: `tick` is the price in ticks, `price`
    /// the price rounded down to a whole number, `qty` the quantity in lots.
    fn order_flow(&mut self, tick: i64, price: i64, qty: u64, timestamp: i64, side: Side)
        requires
            old(self).ready(),
            old(self).accepts(timestamp),
        ensures
            final(self).ready(),
            forall|t: i64| final(self).accepts(t) == old(self).accepts(t),
            Self::flowed(old(self), final(self), tick, price, qty, timestamp, side),
    ;

    /// The most recent swing points, highs and lows interleaved.
    fn swings(&self, nums: usize) -> Vec<(i64, i64)>;

    /// The most recent candles of `interval` by opening time, and the
    /// opening time of its open candle.
    fn kmaps(&self, interval: i64, nums: usize) -> (HashMap<i64, &KLine>, i64)
        requires
            self.ready(),
    ;

    /// The growing run of trades at one price and side: tick, quantity, time
    /// of its first trade, side.
    fn last_acc_trades(&self) -> (i64, u64, i64, Side);
}

/// A value that occurs has a first occurrence.
proof fn lemma_first_index_of_member(s: Seq<i64>, i: int)
    requires
        0 <= i < s.len(),
    ensures
        first_index(s, s[i]) is Some,
{
    lemma_first_index(s, s[i]);
}

impl PriceAction for HkPriceAction {
    open spec fn ready(&self) -> bool {
        self.wf()
    }

    open spec fn accepts(&self, timestamp: i64) -> bool {
        self@.admits(timestamp)
    }

    open spec fn flowed(
        before: &Self,
        after: &Self,
        tick: i64,
        price: i64,
        qty: u64,
        timestamp: i64,
        side: Side,
    ) -> bool {
        after@ == before@.order_flowed(tick, price, qty, timestamp, side)
    }

    fn order_flow(&mut self, tick: i64, price: i64, qty: u64, timestamp: i64, side: Side)
        ensures
            final(self)@ == old(self)@.order_flowed(tick, price, qty, timestamp, side),
            final(self)@.intervals == old(self)@.intervals,
            final(self)@.ema_periods == old(self)@.ema_periods,
            final(self)@.same_run(old(self)@.coalesced(tick, qty, timestamp, side)),
            times_increase(final(self)@.swings.highs),
            times_increase(final(self)@.swings.lows),
    {
        if self.last_tick == tick && self.last_side == side {
            self.last_tick_qty = add_lots(self.last_tick_qty, qty);
        } else {
            self.imbalance.push(self.last_tick, self.last_tick_qty, self.last_side);
            self.last_tick = tick;
            self.last_side = side;
            self.last_tick_qty = qty;
            self.last_tick_time = timestamp;
        }
        let ghost start = self@;
        let n = self.intervals.len();
        let mut i: usize = 0;
        while i < n
            invariant
                self.wf(),
                n == start.intervals.len(),
                i <= n,
                self@.intervals == start.intervals,
                self@.ema_periods == start.ema_periods,
                self@.same_run(start),
                start.admits(timestamp),
                self@ == start.klines_fed(i as int, tick, qty, timestamp, side),
            decreases n - i,
        {
            let interval: i64 = self.intervals[i];
            proof {
                lemma_first_index_of_member(self.intervals@, i as int);
            }
            self.update_kline(interval, tick, qty, timestamp, side);
            i += 1;
        }
        self.record_trade(price, qty, timestamp);
    }

    fn swings(&self, nums: usize) -> (r: Vec<(i64, i64)>)
        ensures
            r@ == self@.swings_result(nums as int),
    {
        let mut out: Vec<(i64, i64)> = Vec::new();
        let highs = &self.swings.swing_highs;
        let lows = &self.swings.swing_lows;
        let highs_len = highs.len();
        let lows_len = lows.len();
        if highs_len == 0 || lows_len == 0 {
            return out;
        }
        let low_first = highs[highs_len - 1].0 > lows[lows_len - 1].0;
        let shorter = if highs_len < lows_len { highs_len } else { lows_len };
        let lens = if shorter > nums { nums } else { shorter };
        let ghost goal = self@.swings_result(nums as int);
        let mut i: usize = 0;
        while i < lens
            invariant
                i <= lens,
                lens <= highs_len,
                lens <= lows_len,
                highs_len == highs@.len(),
                lows_len == lows@.len(),
                highs@ == self@.swings.highs,
                lows@ == self@.swings.lows,
                low_first == (highs@.last().0 > lows@.last().0),
                goal == self@.swings_result(nums as int),
                goal.len() == 2 * lens,
                out@.len() == 2 * i,
                forall|j: int| 0 <= j < 2 * i ==> out@[j] == goal[j],
            decreases lens - i,
        {
            let high = highs[highs_len - lens + i];
            let low = lows[lows_len - lens + i];
            if low_first {
                out.push(low);
                out.push(high);
            } else {
                out.push(high);
                out.push(low);
            }
            i += 1;
        }
        out
    }

    fn kmaps(&self, interval: i64, nums: usize) -> (r: (HashMap<i64, &KLine>, i64))
        ensures
            referred_views(r.0@) == self@.kmaps_result(interval, nums as int).0,
            r.1 == self@.kmaps_result(interval, nums as int).1,
    {
        match self.series_index(interval) {
            Some(i) => {
                proof {
                    lemma_first_index(self.intervals@, interval);
                    assert(self@.series[i as int] == self.series@[i as int]@);
                }
                self.series[i].recent(nums)
            },
            None => {
                let out: HashMap<i64, &KLine> = HashMap::new();
                (out, 0)
            },
        }
    }

    fn last_acc_trades(&self) -> (r: (i64, u64, i64, Side))
        ensures
            r == (self@.last_tick, self@.last_tick_qty, self@.last_tick_time, self@.last_side),
    {
        (self.last_tick, self.last_tick_qty, self.last_tick_time, self.last_side)
    }
}

/// Asking twice for the recent candles, with no trade in between, gives the
/// same candles and the same opening time.
pub proof fn lemma_kmaps_repeatable(
    model: HkPriceAction,
    interval: i64,
    nums: usize,
    first: (HashMap<i64, &KLine>, i64),
    second: (HashMap<i64, &KLine>, i64),
)
    requires
        referred_views(first.0@) == model@.kmaps_result(interval, nums as int).0,
        first.1 == model@.kmaps_result(interval, nums as int).1,
        referred_views(second.0@) == model@.kmaps_result(interval, nums as int).0,
        second.1 == model@.kmaps_result(interval, nums as int).1,
    ensures
        first.0@.dom() =~= second.0@.dom(),
        forall|t: i64| first.0@.dom().contains(t) ==> first.0@[t]@ == second.0@[t]@,
        first.1 == second.1,
{
    assert forall|t: i64| first.0@.dom().contains(t) == second.0@.dom().contains(t) by {
        assert(referred_views(first.0@).dom().contains(t) == first.0@.dom().contains(t));
    }
    assert forall|t: i64| first.0@.dom().contains(t) implies first.0@[t]@ == second.0@[t]@ by {
        assert(referred_views(first.0@)[t] == first.0@[t]@);
    }
}

/// Whether one price level ranks above another.
fn is_above(a: (i64, u64, i64), b: (i64, u64, i64)) -> (r: bool)
    ensures
        r == ranks_above(a, b),
{
    a.1 > b.1 || (a.1 == b.1 && (a.2 > b.2 || (a.2 == b.2 && a.0 < b.0)))
}

/// Whether a price level has traded within `retention` of `now`.
pub open spec fn is_fresh(
    levels: Map<i64, (u64, i64)>,
    price: i64,
    now: i64,
    retention: i64,
) -> bool {
    levels.dom().contains(price) && now - levels[price].1 <= retention
}

} // verus!
