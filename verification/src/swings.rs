//! The swing-point state machine: alternating confirmed highs and lows of
//! the base candle series, with hysteresis and retraction of fake-outs.

use vstd::prelude::*;
use crate::arith::{clip_i64, clip_wide};
use crate::kline::{KLine, KLineView};

verus! {

/// Minimum distance in time between the tracked extremum and the last
/// confirmed swing of the other kind before a reversal can be confirmed: a
/// quarter of an hour.
pub const CONFIRM_GAP: i64 = 900_000_000_000;

/// Head start, in ticks, given to the hysteresis bound of the side that has
/// no confirmed swing yet when tracking begins.
pub const SEED_MARGIN: i64 = 600;

/// Retracement from the tracked extremum, in ticks, beyond which a reversal
/// is confirmed on a later candle.
pub const RETRACE_TICKS: i64 = 2000;

/// What the machine is looking for.
#[derive(Debug, Clone, Copy, PartialEq, Eq, Structural)]
pub enum Trend {
    /// No direction has been established yet.
    Undetermined,
    /// The next swing to confirm is a high.
    High,
    /// The next swing to confirm is a low.
    Low,
}

/// The swing tracker. A swing point is a pair of a candle's opening time and
/// a price tick; a retracted point keeps its slot with price zero until the
/// next point of its kind overwrites it.
#[derive(Debug)]
pub struct Swings {
    pub swing_highs: Vec<(i64, i64)>,
    pub swing_lows: Vec<(i64, i64)>,
    /// The extremum tracked so far and the opening time of its candle.
    pub ext_tick: i64,
    pub ext_opentime: i64,
    pub trend: Trend,
    /// Candles seen since the extremum last moved.
    pub judge_time: u64,
    /// Those candles: opening time, high and low.
    pub wait_klines: Vec<(i64, i64, i64)>,
    /// Low of the candle that set the tracked high.
    pub last_high_low: i64,
    /// High of the candle that set the tracked low.
    pub last_low_high: i64,
}

/// The mathematical value of the swing tracker.
pub struct SwingsView {
    pub highs: Seq<(i64, i64)>,
    pub lows: Seq<(i64, i64)>,
    pub ext_tick: i64,
    pub ext_opentime: i64,
    pub trend: Trend,
    pub judge_time: u64,
    pub wait_klines: Seq<(i64, i64, i64)>,
    pub last_high_low: i64,
    pub last_low_high: i64,
}

impl View for Swings {
    type V = SwingsView;

    open spec fn view(&self) -> SwingsView {
        SwingsView {
            highs: self.swing_highs@,
            lows: self.swing_lows@,
            ext_tick: self.ext_tick,
            ext_opentime: self.ext_opentime,
            trend: self.trend,
            judge_time: self.judge_time,
            wait_klines: self.wait_klines@,
            last_high_low: self.last_high_low,
            last_low_high: self.last_low_high,
        }
    }
}

/// The last point of a swing sequence, or `(0, 0)` for an empty one.
pub open spec fn last_or_origin(points: Seq<(i64, i64)>) -> (i64, i64) {
    if points.len() > 0 {
        points.last()
    } else {
        (0i64, 0i64)
    }
}

/// A swing sequence with its last point retracted: the slot stays, its price
/// becomes zero.
pub open spec fn retracted(points: Seq<(i64, i64)>) -> Seq<(i64, i64)>
    recommends
        points.len() > 0,
{
    points.update(points.len() - 1, (points.last().0, 0i64))
}

/// A swing sequence with one more confirmed point, which takes the slot of a
/// retracted last point if there is one.
pub open spec fn confirmed(points: Seq<(i64, i64)>, point: (i64, i64)) -> Seq<(i64, i64)> {
    if points.len() > 0 && points.last().1 == 0 {
        points.update(points.len() - 1, point)
    } else {
        points.push(point)
    }
}

/// Whether the candle's first three moving averages are stacked fast over
/// mid over slow and it closed above its open.
pub open spec fn bullish_seed(k: KLineView) -> bool {
    &&& k.emas.len() >= 3
    &&& k.close_tick > k.open_tick
    &&& k.emas[0] > k.emas[1]
    &&& k.emas[1] > k.emas[2]
}

/// Whether the candle's first three moving averages are stacked fast under
/// mid under slow and it closed below its open.
pub open spec fn bearish_seed(k: KLineView) -> bool {
    &&& k.emas.len() >= 3
    &&& k.close_tick < k.open_tick
    &&& k.emas[0] < k.emas[1]
    &&& k.emas[1] < k.emas[2]
}

impl SwingsView {
    /// The tracker before any candle.
    pub open spec fn initial() -> SwingsView {
        SwingsView {
            highs: Seq::empty(),
            lows: Seq::empty(),
            ext_tick: 0,
            ext_opentime: 0,
            trend: Trend::Undetermined,
            judge_time: 0,
            wait_klines: Seq::empty(),
            last_high_low: 0,
            last_low_high: 0,
        }
    }

    /// From `Undetermined`: a stacked candle starts the tracking, any other
    /// candle only moves the clock.
    pub open spec fn seeded(self, k: KLineView) -> SwingsView {
        if bullish_seed(k) {
            SwingsView {
                trend: Trend::High,
                ext_tick: k.high_tick,
                ext_opentime: k.open_time,
                last_high_low: k.low_tick,
                last_low_high: clip_i64(k.low_tick - SEED_MARGIN),
                ..self
            }
        } else if bearish_seed(k) {
            SwingsView {
                trend: Trend::Low,
                ext_tick: k.low_tick,
                ext_opentime: k.open_time,
                last_low_high: k.high_tick,
                last_high_low: clip_i64(k.low_tick + SEED_MARGIN),
                ..self
            }
        } else {
            SwingsView { ext_opentime: k.open_time, ..self }
        }
    }

    /// While tracking a high: the candle falls under the last confirmed low.
    pub open spec fn breaks_down(self, k: KLineView) -> bool {
        self.lows.len() > 0 && k.low_tick < self.lows.last().1
    }

    /// While tracking a low: the candle rises over the last confirmed high.
    pub open spec fn breaks_up(self, k: KLineView) -> bool {
        self.highs.len() > 0 && k.high_tick > self.highs.last().1
    }

    /// The tracker restarted at the candle, now looking for a high.
    pub open spec fn restarted_high(self, k: KLineView) -> SwingsView {
        SwingsView {
            trend: Trend::High,
            ext_tick: k.high_tick,
            ext_opentime: k.open_time,
            last_high_low: k.low_tick,
            judge_time: 0,
            wait_klines: Seq::empty(),
            ..self
        }
    }

    /// The tracker restarted at the candle, now looking for a low.
    pub open spec fn restarted_low(self, k: KLineView) -> SwingsView {
        SwingsView {
            trend: Trend::Low,
            ext_tick: k.low_tick,
            ext_opentime: k.open_time,
            last_low_high: k.high_tick,
            judge_time: 0,
            wait_klines: Seq::empty(),
            ..self
        }
    }

    /// The tracker after the candle has been counted: a candle that beats the
    /// tracked extremum becomes the extremum, any other candle is buffered.
    pub open spec fn advanced(self, k: KLineView) -> SwingsView {
        let beats = if self.trend == Trend::High {
            k.high_tick > self.ext_tick
        } else {
            k.low_tick < self.ext_tick
        };
        if beats && self.trend == Trend::High {
            self.restarted_high(k)
        } else if beats {
            self.restarted_low(k)
        } else {
            SwingsView {
                judge_time: if self.judge_time < u64::MAX {
                    (self.judge_time + 1) as u64
                } else {
                    self.judge_time
                },
                wait_klines: self.wait_klines.push((k.open_time, k.high_tick, k.low_tick)),
                ..self
            }
        }
    }

    /// While tracking a high: whether the candle confirms the tracked high.
    pub open spec fn confirms_high(self, k: KLineView) -> bool {
        &&& self.ext_opentime - last_or_origin(self.lows).0 > CONFIRM_GAP
        &&& {
            ||| self.lows.len() > 0 && k.low_tick <= self.lows.last().1
            ||| k.high_tick < self.last_high_low
            ||| {
                &&& self.ext_tick - k.low_tick > RETRACE_TICKS
                &&& k.open_time != self.ext_opentime
                &&& k.low_tick < self.last_high_low
            }
        }
    }

    /// While tracking a low: whether the candle confirms the tracked low.
    pub open spec fn confirms_low(self, k: KLineView) -> bool {
        &&& self.ext_opentime - last_or_origin(self.highs).0 > CONFIRM_GAP
        &&& {
            ||| self.highs.len() > 0 && k.high_tick >= self.highs.last().1
            ||| k.low_tick > self.last_low_high
            ||| {
                &&& k.high_tick - self.ext_tick > RETRACE_TICKS
                &&& k.open_time != self.ext_opentime
                &&& k.high_tick > self.last_low_high
            }
        }
    }

    /// The tracker after one more closed candle.
    pub open spec fn step(self, k: KLineView) -> SwingsView {
        match self.trend {
            Trend::Undetermined => self.seeded(k),
            Trend::High => {
                if self.breaks_down(k) {
                    SwingsView { lows: retracted(self.lows), ..self.restarted_low(k) }
                } else {
                    let s = self.advanced(k);
                    if s.confirms_high(k) {
                        SwingsView {
                            highs: confirmed(s.highs, (s.ext_opentime, s.ext_tick)),
                            ..s.restarted_low(k)
                        }
                    } else {
                        s
                    }
                }
            },
            Trend::Low => {
                if self.breaks_up(k) {
                    SwingsView { highs: retracted(self.highs), ..self.restarted_high(k) }
                } else {
                    let s = self.advanced(k);
                    if s.confirms_low(k) {
                        SwingsView {
                            lows: confirmed(s.lows, (s.ext_opentime, s.ext_tick)),
                            ..s.restarted_high(k)
                        }
                    } else {
                        s
                    }
                }
            },
        }
    }
}

/// Whether the points of a swing sequence are in strictly increasing order of
/// time.
pub open spec fn times_increase(points: Seq<(i64, i64)>) -> bool {
    forall|i: int, j: int| 0 <= i < j < points.len() ==> points[i].0 < points[j].0
}

/// Whether the candles are in strictly increasing order of opening time.
pub open spec fn candles_in_order(bars: Seq<KLineView>) -> bool {
    forall|i: int, j: int| 0 <= i < j < bars.len() ==> bars[i].open_time < bars[j].open_time
}

impl SwingsView {
    /// What holds of the tracker whenever candles arrive in order of time:
    /// both swing sequences are strictly increasing in time, and no recorded
    /// point is later than the tracked extremum.
    pub open spec fn wf(self) -> bool {
        &&& times_increase(self.highs)
        &&& times_increase(self.lows)
        &&& self.trend == Trend::Undetermined ==> self.highs.len() == 0 && self.lows.len() == 0
        &&& self.trend == Trend::High ==> {
            &&& self.highs.len() > 0 ==> self.highs.last().0 < self.ext_opentime
            &&& self.lows.len() > 0 ==> self.lows.last().0 <= self.ext_opentime
        }
        &&& self.trend == Trend::Low ==> {
            &&& self.lows.len() > 0 ==> self.lows.last().0 < self.ext_opentime
            &&& self.highs.len() > 0 ==> self.highs.last().0 <= self.ext_opentime
        }
    }

    /// Whether the candle is later than everything the tracker has seen.
    pub open spec fn precedes(self, k: KLineView) -> bool {
        self.trend != Trend::Undetermined ==> self.ext_opentime < k.open_time
    }

    /// The tracker after a run of closed candles, fed first to last.
    pub open spec fn run(self, bars: Seq<KLineView>) -> SwingsView
        decreases bars.len(),
    {
        if bars.len() == 0 {
            self
        } else {
            self.run(bars.drop_last()).step(bars.last())
        }
    }

    /// Whether the candle ends a search for a low: the tracker looks for a
    /// low before it and for a high after it.
    pub open spec fn turns_up(self, k: KLineView) -> bool {
        self.trend == Trend::Low && self.step(k).trend == Trend::High
    }

    /// Whether the candle ends a search for a high.
    pub open spec fn turns_down(self, k: KLineView) -> bool {
        self.trend == Trend::High && self.step(k).trend == Trend::Low
    }
}

/// One candle that is later than the tracked extremum keeps both swing
/// sequences strictly increasing in time, and the tracked extremum is never
/// later than that candle.
pub proof fn lemma_step_keeps_order(s: SwingsView, k: KLineView)
    requires
        s.wf(),
        s.precedes(k),
    ensures
        s.step(k).wf(),
        s.step(k).ext_opentime <= k.open_time,
{
    let t = s.step(k);
    match s.trend {
        Trend::Undetermined => {},
        Trend::High => {
            if s.breaks_down(k) {
                assert(t.lows =~= retracted(s.lows));
            } else {
                let a = s.advanced(k);
                if a.confirms_high(k) {
                    assert(times_increase(t.highs));
                }
            }
        },
        Trend::Low => {
            if s.breaks_up(k) {
                assert(t.highs =~= retracted(s.highs));
            } else {
                let a = s.advanced(k);
                if a.confirms_low(k) {
                    assert(times_increase(t.lows));
                }
            }
        },
    }
}

/// A run of candles in order of time, each later than what the tracker has
/// seen, keeps both swing sequences strictly increasing in time.
pub proof fn lemma_run_keeps_order(s: SwingsView, bars: Seq<KLineView>)
    requires
        s.wf(),
        candles_in_order(bars),
        bars.len() > 0 ==> s.precedes(bars[0]),
    ensures
        s.run(bars).wf(),
        times_increase(s.run(bars).highs),
        times_increase(s.run(bars).lows),
        bars.len() > 0 ==> s.run(bars).ext_opentime <= bars.last().open_time,
    decreases bars.len(),
{
    if bars.len() > 0 {
        let rest = bars.drop_last();
        lemma_run_keeps_order(s, rest);
        if rest.len() > 0 {
            assert(rest.last() == bars[bars.len() - 2]);
        }
        lemma_step_keeps_order(s.run(rest), bars.last());
    }
}

/// Swing points fed from the start in order of time are strictly increasing
/// in time, highs and lows alike.
pub proof fn lemma_swing_times_increase(bars: Seq<KLineView>)
    requires
        candles_in_order(bars),
    ensures
        times_increase(SwingsView::initial().run(bars).highs),
        times_increase(SwingsView::initial().run(bars).lows),
{
    lemma_run_keeps_order(SwingsView::initial(), bars);
}

/// What one candle can do to the two swing sequences. While the tracker
/// looks for a low the highs stay as they are, except that a break-up
/// retracts the last high; a search for a low ends by that retraction or by
/// recording a low. A high is recorded only while looking for a high, and
/// the tracker then looks for a low. The same holds with the roles swapped.
pub proof fn lemma_step_alternates(s: SwingsView, k: KLineView)
    ensures
        s.trend == Trend::Low && !s.breaks_up(k) ==> s.step(k).highs == s.highs,
        s.trend == Trend::Low && s.breaks_up(k) ==> s.step(k).highs == retracted(s.highs)
            && s.step(k).lows == s.lows,
        s.turns_up(k) && !s.breaks_up(k) ==> s.step(k).lows == confirmed(
            s.lows,
            (s.advanced(k).ext_opentime, s.advanced(k).ext_tick),
        ),
        s.trend == Trend::Low && !s.turns_up(k) ==> s.step(k).lows == s.lows,
        s.trend == Trend::High && !s.breaks_down(k) ==> s.step(k).lows == s.lows,
        s.trend == Trend::High && s.breaks_down(k) ==> s.step(k).lows == retracted(s.lows)
            && s.step(k).highs == s.highs,
        s.turns_down(k) && !s.breaks_down(k) ==> s.step(k).highs == confirmed(
            s.highs,
            (s.advanced(k).ext_opentime, s.advanced(k).ext_tick),
        ),
        s.trend == Trend::High && !s.turns_down(k) ==> s.step(k).highs == s.highs,
        s.trend == Trend::Undetermined ==> s.step(k).highs == s.highs && s.step(k).lows == s.lows,
{
}

/// After a high has been recorded the tracker looks for a low, and as long
/// as no candle ends that search (by recording a low or by retracting the
/// high) the highs do not change: no second high follows without a point of
/// the other kind or a retraction in between.
pub proof fn lemma_no_high_while_seeking_low(s: SwingsView, bars: Seq<KLineView>)
    requires
        s.trend == Trend::Low,
        forall|i: int| 0 <= i < bars.len() ==> !(#[trigger] s.run(bars.take(i))).turns_up(bars[i]),
    ensures
        s.run(bars).trend == Trend::Low,
        s.run(bars).highs == s.highs,
    decreases bars.len(),
{
    if bars.len() > 0 {
        let rest = bars.drop_last();
        assert forall|i: int| 0 <= i < rest.len() implies !(#[trigger] s.run(
            rest.take(i),
        )).turns_up(rest[i]) by {
            assert(rest.take(i) =~= bars.take(i));
        }
        lemma_no_high_while_seeking_low(s, rest);
        let before = s.run(rest);
        lemma_step_alternates(before, bars.last());
    }
}

/// After a low has been recorded the tracker looks for a high, and as long
/// as no candle ends that search (by recording a high or by retracting the
/// low) the lows do not change.
pub proof fn lemma_no_low_while_seeking_high(s: SwingsView, bars: Seq<KLineView>)
    requires
        s.trend == Trend::High,
        forall|i: int|
            0 <= i < bars.len() ==> !(#[trigger] s.run(bars.take(i))).turns_down(bars[i]),
    ensures
        s.run(bars).trend == Trend::High,
        s.run(bars).lows == s.lows,
    decreases bars.len(),
{
    if bars.len() > 0 {
        let rest = bars.drop_last();
        assert forall|i: int| 0 <= i < rest.len() implies !(#[trigger] s.run(
            rest.take(i),
        )).turns_down(rest[i]) by {
            assert(rest.take(i) =~= bars.take(i));
        }
        lemma_no_low_while_seeking_high(s, rest);
        let before = s.run(rest);
        lemma_step_alternates(before, bars.last());
    }
}

/// Feeding a run of candles is feeding its first part and then the rest.
pub proof fn lemma_run_split(s: SwingsView, bars: Seq<KLineView>, m: int)
    requires
        0 <= m <= bars.len(),
    ensures
        s.run(bars) == s.run(bars.take(m)).run(bars.skip(m)),
    decreases bars.len(),
{
    if m == bars.len() {
        assert(bars.take(m) =~= bars);
    } else {
        let rest = bars.drop_last();
        lemma_run_split(s, rest, m);
        assert(rest.take(m) =~= bars.take(m));
        assert(rest.skip(m) =~= bars.skip(m).drop_last());
    }
}

impl SwingsView {
    /// Whether the candle adds a point to the highs.
    pub open spec fn appends_high(self, k: KLineView) -> bool {
        self.step(k).highs.len() > self.highs.len()
    }

    /// Whether the candle adds a point to the lows.
    pub open spec fn appends_low(self, k: KLineView) -> bool {
        self.step(k).lows.len() > self.lows.len()
    }
}

/// Between two candles that each add a high there is a candle that ends a
/// search for a low: one that records a low or retracts the high. So no two
/// highs follow each other without a low, or a retraction, in between.
pub proof fn lemma_highs_take_turns(s: SwingsView, bars: Seq<KLineView>, i: int, j: int)
    requires
        0 <= i < j < bars.len(),
        s.run(bars.take(i)).appends_high(bars[i]),
        s.run(bars.take(j)).appends_high(bars[j]),
    ensures
        exists|k: int| i < k < j && (#[trigger] s.run(bars.take(k))).turns_up(bars[k]),
{
    if !(exists|k: int| i < k < j && (#[trigger] s.run(bars.take(k))).turns_up(bars[k])) {
        let before = s.run(bars.take(i));
        lemma_step_alternates(before, bars[i]);
        let mid = s.run(bars.take(i + 1));
        assert(bars.take(i + 1).drop_last() =~= bars.take(i));
        let rest = bars.subrange(i + 1, j);
        assert forall|t: int| 0 <= t < rest.len() implies !(#[trigger] mid.run(
            rest.take(t),
        )).turns_up(rest[t]) by {
            let upto = bars.take(i + 1 + t);
            lemma_run_split(s, upto, i + 1);
            assert(upto.take(i + 1) =~= bars.take(i + 1));
            assert(upto.skip(i + 1) =~= rest.take(t));
        }
        lemma_no_high_while_seeking_low(mid, rest);
        let upto = bars.take(j);
        lemma_run_split(s, upto, i + 1);
        assert(upto.take(i + 1) =~= bars.take(i + 1));
        assert(upto.skip(i + 1) =~= rest);
        lemma_step_alternates(s.run(upto), bars[j]);
    }
}

/// Between two candles that each add a low there is a candle that ends a
/// search for a high: one that records a high or retracts the low.
pub proof fn lemma_lows_take_turns(s: SwingsView, bars: Seq<KLineView>, i: int, j: int)
    requires
        0 <= i < j < bars.len(),
        s.run(bars.take(i)).appends_low(bars[i]),
        s.run(bars.take(j)).appends_low(bars[j]),
    ensures
        exists|k: int| i < k < j && (#[trigger] s.run(bars.take(k))).turns_down(bars[k]),
{
    if !(exists|k: int| i < k < j && (#[trigger] s.run(bars.take(k))).turns_down(bars[k])) {
        let before = s.run(bars.take(i));
        lemma_step_alternates(before, bars[i]);
        let mid = s.run(bars.take(i + 1));
        assert(bars.take(i + 1).drop_last() =~= bars.take(i));
        let rest = bars.subrange(i + 1, j);
        assert forall|t: int| 0 <= t < rest.len() implies !(#[trigger] mid.run(
            rest.take(t),
        )).turns_down(rest[t]) by {
            let upto = bars.take(i + 1 + t);
            lemma_run_split(s, upto, i + 1);
            assert(upto.take(i + 1) =~= bars.take(i + 1));
            assert(upto.skip(i + 1) =~= rest.take(t));
        }
        lemma_no_low_while_seeking_high(mid, rest);
        let upto = bars.take(j);
        lemma_run_split(s, upto, i + 1);
        assert(upto.take(i + 1) =~= bars.take(i + 1));
        assert(upto.skip(i + 1) =~= rest);
        lemma_step_alternates(s.run(upto), bars[j]);
    }
}

/// Adds `delta` to a tick, saturating at the ends of the tick range.
fn shifted_tick(tick: i64, delta: i64) -> (r: i64)
    ensures
        r == clip_i64(tick + delta),
{
    clip_wide(tick as i128 + delta as i128)
}

/// Retracts the last point of a swing sequence.
fn retract_last(points: &mut Vec<(i64, i64)>)
    requires
        old(points)@.len() > 0,
    ensures
        final(points)@ == retracted(old(points)@),
{
    let n = points.len();
    let time: i64 = points[n - 1].0;
    points[n - 1] = (time, 0);
}

/// Records a confirmed point in a swing sequence.
fn confirm_point(points: &mut Vec<(i64, i64)>, point: (i64, i64))
    ensures
        final(points)@ == confirmed(old(points)@, point),
{
    let n = points.len();
    if n > 0 && points[n - 1].1 == 0 {
        points[n - 1] = point;
    } else {
        points.push(point);
    }
}

impl Default for Swings {
    fn default() -> (r: Self)
        ensures
            r@ == SwingsView::initial(),
    {
        Swings::new()
    }
}

impl Swings {
    pub fn new() -> (r: Self)
        ensures
            r@ == SwingsView::initial(),
    {
        Swings {
            swing_highs: Vec::new(),
            swing_lows: Vec::new(),
            ext_tick: 0,
            ext_opentime: 0,
            trend: Trend::Undetermined,
            judge_time: 0,
            wait_klines: Vec::new(),
            last_high_low: 0,
            last_low_high: 0,
        }
    }

    fn restart_high(&mut self, k: &KLine)
        ensures
            final(self)@ == old(self)@.restarted_high(k@),
    {
        self.trend = Trend::High;
        self.ext_tick = k.high_tick;
        self.ext_opentime = k.open_time;
        self.last_high_low = k.low_tick;
        self.judge_time = 0;
        self.wait_klines.clear();
    }

    fn restart_low(&mut self, k: &KLine)
        ensures
            final(self)@ == old(self)@.restarted_low(k@),
    {
        self.trend = Trend::Low;
        self.ext_tick = k.low_tick;
        self.ext_opentime = k.open_time;
        self.last_low_high = k.high_tick;
        self.judge_time = 0;
        self.wait_klines.clear();
    }

    fn advance(&mut self, k: &KLine)
        requires
            old(self).trend != Trend::Undetermined,
        ensures
            final(self)@ == old(self)@.advanced(k@),
    {
        match self.trend {
            Trend::High => {
                if k.high_tick > self.ext_tick {
                    self.restart_high(k);
                    return ;
                }
            },
            _ => {
                if k.low_tick < self.ext_tick {
                    self.restart_low(k);
                    return ;
                }
            },
        }
        if self.judge_time < u64::MAX {
            self.judge_time += 1;
        }
        self.wait_klines.push((k.open_time, k.high_tick, k.low_tick));
    }

    fn high_is_confirmed(&self, k: &KLine) -> (r: bool)
        ensures
            r == self@.confirms_high(k@),
    {
        let n = self.swing_lows.len();
        let last: (i64, i64) = if n > 0 { self.swing_lows[n - 1] } else { (0, 0) };
        self.ext_opentime as i128 - last.0 as i128 > CONFIRM_GAP as i128 && (n > 0 && k.low_tick
            <= last.1 || k.high_tick < self.last_high_low || (self.ext_tick as i128
            - k.low_tick as i128 > RETRACE_TICKS as i128 && k.open_time != self.ext_opentime
            && k.low_tick < self.last_high_low))
    }

    fn low_is_confirmed(&self, k: &KLine) -> (r: bool)
        ensures
            r == self@.confirms_low(k@),
    {
        let n = self.swing_highs.len();
        let last: (i64, i64) = if n > 0 { self.swing_highs[n - 1] } else { (0, 0) };
        self.ext_opentime as i128 - last.0 as i128 > CONFIRM_GAP as i128 && (n > 0 && k.high_tick
            >= last.1 || k.low_tick > self.last_low_high || (k.high_tick as i128
            - self.ext_tick as i128 > RETRACE_TICKS as i128 && k.open_time != self.ext_opentime
            && k.high_tick > self.last_low_high))
    }

    fn seed(&mut self, k: &KLine)
        ensures
            final(self)@ == old(self)@.seeded(k@),
    {
        let stacked = k.emas.len() >= 3;
        if stacked && k.close_tick > k.open_tick && k.emas[0] > k.emas[1] && k.emas[1] > k.emas[2] {
            self.trend = Trend::High;
            self.ext_tick = k.high_tick;
            self.last_high_low = k.low_tick;
            self.last_low_high = shifted_tick(k.low_tick, -SEED_MARGIN);
        } else if stacked && k.close_tick < k.open_tick && k.emas[0] < k.emas[1] && k.emas[1]
            < k.emas[2] {
            self.trend = Trend::Low;
            self.ext_tick = k.low_tick;
            self.last_low_high = k.high_tick;
            self.last_high_low = shifted_tick(k.low_tick, SEED_MARGIN);
        }
        self.ext_opentime = k.open_time;
    }

    /// Feeds the tracker the candle that has just closed.
    pub fn on_close(&mut self, k: &KLine)
        ensures
            final(self)@ == old(self)@.step(k@),
    {
        match self.trend {
            Trend::Undetermined => {
                self.seed(k);
            },
            Trend::High => {
                let n = self.swing_lows.len();
                if n > 0 && k.low_tick < self.swing_lows[n - 1].1 {
                    self.restart_low(k);
                    retract_last(&mut self.swing_lows);
                    return ;
                }
                self.advance(k);
                if self.high_is_confirmed(k) {
                    confirm_point(&mut self.swing_highs, (self.ext_opentime, self.ext_tick));
                    self.restart_low(k);
                }
            },
            Trend::Low => {
                let n = self.swing_highs.len();
                if n > 0 && k.high_tick > self.swing_highs[n - 1].1 {
                    self.restart_high(k);
                    retract_last(&mut self.swing_highs);
                    return ;
                }
                self.advance(k);
                if self.low_is_confirmed(k) {
                    confirm_point(&mut self.swing_lows, (self.ext_opentime, self.ext_tick));
                    self.restart_high(k);
                }
            },
        }
    }
}

} // verus!
