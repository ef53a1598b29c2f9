//! The candles of one interval: the open candle with its volume at price,
//! and the closed candles behind it.

use std::collections::HashMap;
use vstd::prelude::*;
use crate::ema::{ema_next, ema_step};
use crate::kline::{bucket_close, bucket_fits, bucket_open, KLine, KLineView};
use crate::kline::{lemma_bucket_boundary, lemma_bucket_bounds, lemma_bucket_of_member};
use crate::tick_flows::{ascending, poc_rates, traded_levels, TickFlows, TickVolume};
use crate::types::Side;

verus! {

broadcast use vstd::std_specs::hash::group_hash_axioms;

/// The candle series of one interval. Exactly one candle is open at a time;
/// a trade past its end closes it for good and opens the next.
#[derive(Debug)]
pub struct Series {
    pub interval: i64,
    /// The open candle, once the first trade has arrived.
    pub current: Option<KLine>,
    /// Volume at price of the open candle.
    pub flows: TickFlows,
    /// The closed candles by opening time.
    pub closed: HashMap<i64, KLine>,
    /// Opening time of the newest closed candle, once there is one.
    pub last_closed: i64,
}

/// The mathematical value of a candle series.
pub struct SeriesView {
    pub interval: i64,
    pub current: Option<KLineView>,
    pub flows: Seq<TickVolume>,
    pub closed: Map<i64, KLineView>,
    pub last_closed: i64,
}

/// The candles of a map by their mathematical value.
pub open spec fn candle_views(candles: Map<i64, KLine>) -> Map<i64, KLineView> {
    Map::new(|t: i64| candles.dom().contains(t), |t: i64| candles[t]@)
}

/// The candles that a map refers to, by their mathematical value.
pub open spec fn referred_views(candles: Map<i64, &KLine>) -> Map<i64, KLineView> {
    Map::new(|t: i64| candles.dom().contains(t), |t: i64| candles[t]@)
}

/// The instant `j` intervals before `cursor`.
pub open spec fn step_back(cursor: i64, interval: i64, j: int) -> int {
    cursor - interval * j
}

/// Whether `t` lies a whole number of intervals, fewer than `upto`, before
/// `cursor`.
pub open spec fn reached(cursor: i64, interval: i64, upto: int, t: i64) -> bool {
    exists|j: int| 0 <= j < upto && #[trigger] step_back(cursor, interval, j) == t
}

/// No instant lies fewer than zero steps back, and zero steps back is the
/// cursor itself.
proof fn lemma_reached_none(cursor: i64, interval: i64)
    ensures
        step_back(cursor, interval, 0) == cursor,
        forall|t: i64| !#[trigger] reached(cursor, interval, 0, t),
{
    assert(interval * 0 == 0) by (nonlinear_arith);
}

/// One more step back reaches one more instant, one interval before the
/// last.
proof fn lemma_reached_step(cursor: i64, interval: i64, j: int)
    requires
        j >= 0,
    ensures
        step_back(cursor, interval, j + 1) == step_back(cursor, interval, j) - interval,
        forall|t: i64|
            #[trigger] reached(cursor, interval, j + 1, t) == (reached(cursor, interval, j, t) || t
                == step_back(cursor, interval, j)),
{
    assert(interval * (j + 1) == interval * j + interval) by (nonlinear_arith);
    assert forall|t: i64|
        #[trigger] reached(cursor, interval, j + 1, t) == (reached(cursor, interval, j, t) || t
            == step_back(cursor, interval, j)) by {
        if reached(cursor, interval, j + 1, t) {
            let i = choose|i: int| 0 <= i < j + 1 && #[trigger] step_back(cursor, interval, i) == t;
            if i < j {
                assert(0 <= i < j && step_back(cursor, interval, i) == t);
            }
        }
        if reached(cursor, interval, j, t) {
            let i = choose|i: int| 0 <= i < j && #[trigger] step_back(cursor, interval, i) == t;
            assert(0 <= i < j + 1 && step_back(cursor, interval, i) == t);
        }
        if t == step_back(cursor, interval, j) {
            assert(0 <= j < j + 1 && step_back(cursor, interval, j) == t);
        }
    }
}

/// Once the steps back have left the range of timestamps, further steps
/// reach no timestamp.
proof fn lemma_reached_end(cursor: i64, interval: i64, j: int, len: int)
    requires
        interval > 0,
        0 <= j <= len,
        step_back(cursor, interval, j) < i64::MIN,
    ensures
        forall|t: i64|
            #[trigger] reached(cursor, interval, len, t) == reached(cursor, interval, j, t),
{
    assert forall|t: i64| #[trigger] reached(cursor, interval, len, t) == reached(
        cursor,
        interval,
        j,
        t,
    ) by {
        if reached(cursor, interval, len, t) {
            let i = choose|i: int| 0 <= i < len && #[trigger] step_back(cursor, interval, i) == t;
            if i >= j {
                assert(interval * i >= interval * j) by (nonlinear_arith)
                    requires
                        interval > 0,
                        i >= j,
                ;
            }
            assert(0 <= i < j && step_back(cursor, interval, i) == t);
        }
        if reached(cursor, interval, j, t) {
            let i = choose|i: int| 0 <= i < j && #[trigger] step_back(cursor, interval, i) == t;
            assert(0 <= i < len && step_back(cursor, interval, i) == t);
        }
    }
}

impl View for Series {
    type V = SeriesView;

    open spec fn view(&self) -> SeriesView {
        SeriesView {
            interval: self.interval,
            current: match self.current {
                Some(k) => Some(k@),
                None => None,
            },
            flows: self.flows.levels@,
            closed: candle_views(self.closed@),
            last_closed: self.last_closed,
        }
    }
}

impl SeriesView {
    /// A series without candles.
    pub open spec fn empty(interval: i64) -> SeriesView {
        SeriesView {
            interval,
            current: None,
            flows: Seq::empty(),
            closed: Map::empty(),
            last_closed: 0,
        }
    }

    /// The newest closed candle, if any candle has closed.
    pub open spec fn previous(self) -> Option<KLineView> {
        if self.closed.dom().contains(self.last_closed) {
            Some(self.closed[self.last_closed])
        } else {
            None
        }
    }

    /// Opening time of the open candle, zero before the first trade.
    pub open spec fn cursor(self) -> i64 {
        match self.current {
            Some(k) => k.open_time,
            None => 0,
        }
    }

    /// All candles of the series by opening time, the open one included.
    pub open spec fn candles(self) -> Map<i64, KLineView> {
        match self.current {
            Some(k) => self.closed.insert(k.open_time, k),
            None => self.closed,
        }
    }

    /// The most recent candles: those that open a whole number of intervals,
    /// fewer than `nums` and no more than there are closed candles, before
    /// the open candle, together with the opening time of the open candle. A
    /// step on which no candle opened is left out. Without candles, or with
    /// `nums` zero, the map is empty and the time is zero.
    pub open spec fn recent(self, nums: int) -> (Map<i64, KLineView>, i64) {
        match self.current {
            None => (Map::empty(), 0i64),
            Some(k) => {
                let count: int = self.closed.dom().len() as int + 1;
                let len = if nums < count { nums } else { count };
                if len <= 0 {
                    (Map::empty(), 0i64)
                } else {
                    (
                        Map::new(
                            |t: i64|
                                self.candles().dom().contains(t) && reached(
                                    k.open_time,
                                    self.interval,
                                    len,
                                    t,
                                ),
                            |t: i64| self.candles()[t],
                        ),
                        k.open_time,
                    )
                }
            },
        }
    }

    /// Whether a trade at `time` lies past the end of the open candle.
    pub open spec fn rolls(self, time: i64) -> bool {
        match self.current {
            Some(k) => k.close_time < time,
            None => false,
        }
    }

    /// The moving averages of the open candle at price `tick`: the price
    /// itself while no candle has closed, and after that one step from the
    /// averages of the newest closed candle.
    pub open spec fn emas_after(self, tick: i64, periods: Seq<i64>) -> Seq<i64> {
        match self.previous() {
            Some(p) => Seq::new(periods.len(), |i: int| ema_next(p.emas[i], tick, periods[i])),
            None => Seq::new(periods.len(), |i: int| tick),
        }
    }

    /// The open candle as it is closed: with the point of control and the
    /// rates of its volume at price.
    pub open spec fn finalized(self) -> KLineView
        recommends
            self.current is Some,
    {
        let report = poc_rates(self.flows);
        KLineView {
            poc_price: report.0,
            poc_qty: report.1,
            top_sell_rate: report.2,
            top_buy_rate: report.3,
            ..self.current.unwrap()
        }
    }

    /// The series with the moving averages of its open candle recomputed at
    /// price `tick`.
    pub open spec fn with_emas(self, tick: i64, periods: Seq<i64>) -> SeriesView
        recommends
            self.current is Some,
    {
        SeriesView {
            current: Some(
                KLineView { emas: self.emas_after(tick, periods), ..self.current.unwrap() },
            ),
            ..self
        }
    }

    /// The candle that a trade opens.
    pub open spec fn opened(
        self,
        tick: i64,
        qty: u64,
        time: i64,
        side: Side,
        periods: Seq<i64>,
    ) -> SeriesView {
        SeriesView {
            current: Some(
                KLineView {
                    emas: self.emas_after(tick, periods),
                    ..KLineView::fresh(tick, qty, time, self.interval, side, periods.len())
                },
            ),
            flows: traded_levels(Seq::empty(), tick, qty, side),
            ..self
        }
    }

    /// The series with its open candle moved to the closed ones.
    pub open spec fn shelved(self) -> SeriesView
        recommends
            self.current is Some,
    {
        let done = self.finalized();
        SeriesView {
            current: None,
            closed: self.closed.insert(done.open_time, done),
            last_closed: done.open_time,
            ..self
        }
    }

    /// The series after one more trade. The first trade opens a candle; a
    /// trade past the end of the open candle closes it and opens the next; any
    /// other trade is folded into the open candle and its volume at price.
    pub open spec fn fed(
        self,
        tick: i64,
        qty: u64,
        time: i64,
        side: Side,
        periods: Seq<i64>,
    ) -> SeriesView {
        match self.current {
            None => self.opened(tick, qty, time, side, periods),
            Some(k) => {
                if k.close_time < time {
                    self.shelved().opened(tick, qty, time, side, periods)
                } else {
                    SeriesView {
                        current: Some(
                            KLineView {
                                emas: self.emas_after(tick, periods),
                                ..k.traded(tick, qty, time, side)
                            },
                        ),
                        flows: traded_levels(self.flows, tick, qty, side),
                        ..self
                    }
                }
            },
        }
    }

    /// What holds of every series built by `fed`: the open candle spans one
    /// bucket of the interval, every closed candle is filed under its opening
    /// time and is older than the open one, and every candle has one moving
    /// average per period.
    pub open spec fn wf(self, periods: Seq<i64>) -> bool {
        &&& self.interval > 0
        &&& ascending(self.flows)
        &&& match self.current {
            Some(k) => {
                &&& k.wf()
                &&& k.open_time == bucket_open(k.open_time as int, self.interval as int)
                &&& k.close_time == k.open_time + self.interval - 1
                &&& k.emas.len() == periods.len()
                &&& forall|t: i64| #[trigger] self.closed.dom().contains(t) ==> t < k.open_time
            },
            None => self.closed.dom() =~= Set::empty(),
        }
        &&& forall|t: i64| #[trigger]
            self.closed.dom().contains(t) ==> {
                &&& self.closed[t].open_time == t
                &&& t <= self.last_closed
                &&& self.closed[t].emas.len() == periods.len()
                &&& self.closed.dom().contains(self.last_closed)
            }
    }
}

impl Series {
    pub fn new(interval: i64) -> (r: Self)
        requires
            interval > 0,
        ensures
            r@ == SeriesView::empty(interval),
            forall|periods: Seq<i64>| r@.wf(periods),
    {
        let r = Series {
            interval,
            current: None,
            flows: TickFlows::default(),
            closed: HashMap::new(),
            last_closed: 0,
        };
        assert(r@.closed =~= Map::empty());
        r
    }

    /// The most recent candles, at most `nums` steps back from the open one,
    /// and the opening time of the open candle.
    pub fn recent<'a>(&'a self, nums: usize) -> (r: (HashMap<i64, &'a KLine>, i64))
        requires
            self.interval > 0,
        ensures
            referred_views(r.0@) == self@.recent(nums as int).0,
            r.1 == self@.recent(nums as int).1,
    {
        let mut out: HashMap<i64, &'a KLine> = HashMap::new();
        let k: &'a KLine = match &self.current {
            None => {
                return (out, 0);
            },
            Some(k) => k,
        };
        let closed_len = self.closed.len();
        assert(self@.closed.dom() =~= self.closed@.dom());
        let len: usize = if nums <= closed_len { nums } else { closed_len + 1 };
        if len == 0 {
            return (out, 0);
        }
        let cursor: i64 = k.open_time;
        let interval: i64 = self.interval;
        let ghost candles = self@.candles();
        let mut key: i64 = cursor;
        let mut j: usize = 0;
        let mut alive = true;
        proof {
            lemma_reached_none(cursor, interval);
        }
        while j < len && alive
            invariant
                j <= len,
                interval > 0,
                interval == self.interval,
                candles == self@.candles(),
                self.current == Some(*k),
                cursor == k.open_time,
                alive ==> key == step_back(cursor, interval, j as int),
                !alive ==> step_back(cursor, interval, j as int) < i64::MIN,
                forall|t: i64|
                    #![trigger out@.dom().contains(t)]
                    #![trigger reached(cursor, interval, j as int, t)]
                    out@.dom().contains(t) <==> candles.dom().contains(t) && reached(
                        cursor,
                        interval,
                        j as int,
                        t,
                    ),
                forall|t: i64| out@.dom().contains(t) ==> (#[trigger] out@[t])@ == candles[t],
            decreases len - j,
        {
            proof {
                lemma_reached_step(cursor, interval, j as int);
            }
            if key == cursor {
                out.insert(key, k);
            } else {
                match self.closed.get(&key) {
                    Some(c) => {
                        out.insert(key, c);
                    },
                    None => {},
                }
            }
            j += 1;
            if key >= i64::MIN + interval {
                key = key - interval;
            } else {
                alive = false;
            }
        }
        proof {
            if !alive {
                lemma_reached_end(cursor, interval, j as int, len as int);
            }
            assert(referred_views(out@) =~= self@.recent(nums as int).0);
        }
        (out, cursor)
    }

    /// The moving averages of the open candle at price `tick`.
    fn emas_for(&self, tick: i64, periods: &Vec<i64>) -> (r: Vec<i64>)
        requires
            forall|i: int| 0 <= i < periods@.len() ==> periods@[i] != -1,
            self@.previous() is Some ==> self@.previous().unwrap().emas.len() == periods@.len(),
        ensures
            r@ == self@.emas_after(tick, periods@),
    {
        let prev = self.closed.get(&self.last_closed);
        let n = periods.len();
        let mut out: Vec<i64> = Vec::new();
        let mut i: usize = 0;
        while i < n
            invariant
                n == periods@.len(),
                i <= n,
                out@.len() == i,
                forall|j: int| 0 <= j < periods@.len() ==> periods@[j] != -1,
                self@.previous() is Some ==> self@.previous().unwrap().emas.len() == periods@.len(),
                match prev {
                    Some(p) => self@.previous() == Some(p@),
                    None => self@.previous() is None,
                },
                forall|j: int| 0 <= j < i ==> out@[j] == self@.emas_after(tick, periods@)[j],
            decreases n - i,
        {
            match prev {
                Some(p) => {
                    out.push(ema_step(p.emas[i], tick, periods[i]));
                },
                None => {
                    out.push(tick);
                },
            }
            i += 1;
        }
        out
    }

    /// Recomputes the moving averages of the open candle at price `tick`.
    pub fn refresh_emas(&mut self, tick: i64, periods: &Vec<i64>)
        requires
            old(self)@.wf(periods@),
            old(self)@.current is Some,
            forall|i: int| 0 <= i < periods@.len() ==> periods@[i] != -1,
        ensures
            final(self)@ == old(self)@.with_emas(tick, periods@),
            final(self)@.wf(periods@),
    {
        let emas = self.emas_for(tick, periods);
        match self.current.as_mut() {
            Some(k) => {
                k.emas = emas;
            },
            None => {},
        }
    }

    /// Closes the open candle: stamps it with the point of control and the
    /// rates of its volume at price and files it under its opening time.
    fn shelve(&mut self)
        requires
            old(self).current is Some,
            ascending(old(self)@.flows),
        ensures
            final(self)@ == old(self)@.shelved(),
    {
        let report = self.flows.cal_poc_sellrate_buyrate();
        let mut done: KLine = self.current.take().unwrap();
        done.poc_price = report.0;
        done.poc_qty = report.1;
        done.top_sell_rate = report.2;
        done.top_buy_rate = report.3;
        let t: i64 = done.open_time;
        let ghost before = self.closed@;
        let ghost filed = done;
        self.closed.insert(t, done);
        self.last_closed = t;
        assert(candle_views(self.closed@) =~= candle_views(before).insert(t, filed@));
    }

    /// Opens the candle of the bucket that contains `time`.
    fn open(&mut self, tick: i64, qty: u64, time: i64, side: Side, periods: &Vec<i64>)
        requires
            bucket_fits(time as int, old(self).interval as int),
            forall|i: int| 0 <= i < periods@.len() ==> periods@[i] != -1,
            old(self)@.previous() is Some ==> old(self)@.previous().unwrap().emas.len()
                == periods@.len(),
        ensures
            final(self)@ == old(self)@.opened(tick, qty, time, side, periods@),
    {
        let mut k = KLine::new(tick, qty, time, self.interval, side, periods.len());
        k.emas = self.emas_for(tick, periods);
        self.current = Some(k);
        self.flows = TickFlows::new(tick, qty, side);
    }

    /// Feeds one trade to the series and tells whether it closed a candle.
    pub fn feed(
        &mut self,
        tick: i64,
        qty: u64,
        time: i64,
        side: Side,
        periods: &Vec<i64>,
    ) -> (rolled: bool)
        requires
            old(self)@.wf(periods@),
            bucket_fits(time as int, old(self).interval as int),
            forall|i: int| 0 <= i < periods@.len() ==> periods@[i] != -1,
        ensures
            final(self)@ == old(self)@.fed(tick, qty, time, side, periods@),
            final(self)@.wf(periods@),
            rolled == old(self)@.rolls(time),
            final(self)@.current is Some,
    {
        let rolls = match &self.current {
            Some(k) => k.close_time < time,
            None => false,
        };
        if self.current.is_none() {
            self.open(tick, qty, time, side, periods);
            proof {
                lemma_bucket_bounds(time as int, self.interval as int);
                lemma_bucket_of_member(
                    time as int,
                    bucket_open(time as int, self.interval as int),
                    self.interval as int,
                );
            }
        } else if rolls {
            proof {
                let k = self@.current.unwrap();
                lemma_next_bucket_later(k.open_time, time, self.interval);
            }
            self.shelve();
            self.open(tick, qty, time, side, periods);
            proof {
                lemma_bucket_bounds(time as int, self.interval as int);
                lemma_bucket_of_member(
                    time as int,
                    bucket_open(time as int, self.interval as int),
                    self.interval as int,
                );
            }
        } else {
            let emas = self.emas_for(tick, periods);
            match self.current.as_mut() {
                Some(k) => {
                    k.update(tick, qty, time, side);
                    k.emas = emas;
                },
                None => {},
            }
            self.flows.trade(tick, qty, side);
        }
        rolls
    }
}

/// A trade past the end of a bucket falls into a bucket that starts after
/// that end.
pub proof fn lemma_next_bucket_later(open: i64, time: i64, interval: i64)
    requires
        interval > 0,
        open == bucket_open(open as int, interval as int),
        open + interval - 1 < time,
    ensures
        bucket_open(time as int, interval as int) > open + interval - 1,
{
    let w = interval as int;
    let t = time as int;
    lemma_bucket_bounds(t, w);
    if bucket_open(t, w) <= open + w - 1 {
        if bucket_open(t, w) >= open {
            lemma_bucket_of_member(open as int, bucket_open(t, w), w);
            lemma_bucket_of_member(t, bucket_open(t, w), w);
        } else {
            lemma_bucket_of_member(t, open as int, w);
        }
    }
}

/// A trade within the bucket of the open candle stays in that candle, whose
/// high and low then enclose the trade, and whose delta is its buy volume
/// minus its sell volume.
pub proof fn lemma_fed_trade_enclosed(
    s: SeriesView,
    tick: i64,
    qty: u64,
    time: i64,
    side: Side,
    periods: Seq<i64>,
)
    requires
        s.wf(periods),
        s.current is Some,
        s.current.unwrap().covers(time),
    ensures
        s.fed(tick, qty, time, side, periods).current is Some,
        ({
            let k = s.fed(tick, qty, time, side, periods).current.unwrap();
            &&& k.open_time == s.current.unwrap().open_time
            &&& k.low_tick <= tick <= k.high_tick
            &&& k.low_tick <= s.current.unwrap().low_tick
            &&& k.high_tick >= s.current.unwrap().high_tick
            &&& k.close_tick == tick
            &&& k.delta == k.buy_volume - k.sell_volume
        }),
{
}

/// A trade at the closing instant of the open candle is folded into it. A
/// trade one instant later closes that candle and opens the one that starts
/// at this very instant.
pub proof fn lemma_candle_boundary(
    s: SeriesView,
    tick: i64,
    qty: u64,
    side: Side,
    periods: Seq<i64>,
)
    requires
        s.wf(periods),
        s.current is Some,
    ensures
        !s.rolls(s.current.unwrap().close_time),
        s.fed(tick, qty, s.current.unwrap().close_time, side, periods).current.unwrap().open_time
            == s.current.unwrap().open_time,
        s.fed(tick, qty, s.current.unwrap().close_time, side, periods).closed == s.closed,
        s.current.unwrap().close_time < i64::MAX ==> {
            let next = (s.current.unwrap().close_time + 1) as i64;
            &&& s.rolls(next)
            &&& s.fed(tick, qty, next, side, periods).current.unwrap().open_time == next
            &&& s.fed(tick, qty, next, side, periods).closed.dom().contains(
                s.current.unwrap().open_time,
            )
        },
{
    let k = s.current.unwrap();
    lemma_bucket_boundary(k.open_time as int, s.interval as int);
}

} // verus!
