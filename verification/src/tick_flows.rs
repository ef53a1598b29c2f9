//! Volume at price within one bucket, and the point of control and top-of-
//! range rates derived from it when the bucket closes.

use vstd::prelude::*;
use crate::arith::{add_lots, capped_sum, floor_div};
use crate::types::{Rate, Side, LOTS_PER_UNIT};

verus! {

/// Smallest denominator of a rate, one hundredth of a unit.
pub const RATE_FLOOR: u64 = LOTS_PER_UNIT / 100;

/// Number of price ticks in one coarse price level.
pub const COARSE_TICKS: i64 = 10;

/// Buy and sell quantity traded at one price tick.
#[derive(Debug, Clone, Copy, PartialEq, Eq, Structural)]
pub struct TickVolume {
    pub tick: i64,
    pub buy: u64,
    pub sell: u64,
}

/// Volume at price of one bucket, one entry per traded tick, in ascending
/// order of tick.
#[derive(Debug)]
pub struct TickFlows {
    pub levels: Vec<TickVolume>,
}

/// Whether the entries are in strictly ascending order of tick.
pub open spec fn ascending(levels: Seq<TickVolume>) -> bool {
    forall|i: int, j: int| 0 <= i < j < levels.len() ==> levels[i].tick < levels[j].tick
}

/// Whether some entry is for `tick`.
pub open spec fn has_tick(levels: Seq<TickVolume>, tick: i64) -> bool {
    exists|i: int| 0 <= i < levels.len() && levels[i].tick == tick
}

/// The entries as a map from tick to the pair of buy and sell quantity.
pub open spec fn volume_map(levels: Seq<TickVolume>) -> Map<i64, (u64, u64)> {
    Map::new(
        |t: i64| has_tick(levels, t),
        |t: i64|
            {
                let i = choose|i: int| 0 <= i < levels.len() && levels[i].tick == t;
                (levels[i].buy, levels[i].sell)
            },
    )
}

/// The pair of buy and sell quantity at `tick` after one more trade there.
pub open spec fn traded_entry(m: Map<i64, (u64, u64)>, tick: i64, qty: u64, side: Side) -> (
    u64,
    u64,
) {
    let held = if m.dom().contains(tick) {
        m[tick]
    } else {
        (0u64, 0u64)
    };
    if side == Side::Buy {
        (capped_sum(held.0 as int, qty as int) as u64, held.1)
    } else {
        (held.0, capped_sum(held.1 as int, qty as int) as u64)
    }
}

/// Number of entries whose tick is below `tick`: in ascending entries, the
/// place of `tick`.
pub open spec fn slot(levels: Seq<TickVolume>, tick: i64) -> int
    decreases levels.len(),
{
    if levels.len() == 0 {
        0
    } else if levels.last().tick < tick {
        levels.len() as int
    } else {
        slot(levels.drop_last(), tick)
    }
}

/// The ascending entries after one more trade: the entry of the trade's
/// tick gains the quantity on the trade's side, and a tick that had no
/// entry gets one at its place.
pub open spec fn traded_levels(levels: Seq<TickVolume>, tick: i64, qty: u64, side: Side) -> Seq<
    TickVolume,
> {
    let p = slot(levels, tick);
    let entry = traded_entry(volume_map(levels), tick, qty, side);
    let level = TickVolume { tick, buy: entry.0, sell: entry.1 };
    if p < levels.len() && levels[p].tick == tick {
        levels.update(p, level)
    } else {
        levels.insert(p, level)
    }
}

/// In ascending entries, the place of a tick is the index that separates
/// the lower ticks from the rest.
pub proof fn lemma_slot(levels: Seq<TickVolume>, tick: i64, p: int)
    requires
        ascending(levels),
        0 <= p <= levels.len(),
        forall|j: int| 0 <= j < p ==> levels[j].tick < tick,
        forall|j: int| p <= j < levels.len() ==> levels[j].tick >= tick,
    ensures
        slot(levels, tick) == p,
    decreases levels.len(),
{
    if levels.len() > 0 && !(levels.last().tick < tick) {
        let rest = levels.drop_last();
        assert(p < levels.len());
        lemma_slot(rest, tick, p);
    }
}

/// The coarse price level of a tick.
pub open spec fn coarse(tick: i64) -> int {
    tick as int / COARSE_TICKS as int
}

/// Total quantity, buy and sell, traded in one coarse price level.
pub open spec fn level_total(levels: Seq<TickVolume>, level: int) -> nat
    decreases levels.len(),
{
    if levels.len() == 0 {
        0
    } else {
        let x = levels.last();
        let here: nat = if coarse(x.tick) == level {
            (x.buy + x.sell) as nat
        } else {
            0
        };
        level_total(levels.drop_last(), level) + here
    }
}

/// Total quantity traded in one coarse price level, capped at the largest
/// representable lot count.
pub open spec fn coarse_volume(levels: Seq<TickVolume>, level: int) -> int {
    capped_sum(level_total(levels, level) as int, 0)
}

/// Whether `level` with `qty` is the point of control: no coarse level has
/// traded more than `qty`, and `level` is the lowest one that has traded
/// exactly `qty`. When nothing has traded, it is level zero with quantity
/// zero.
pub open spec fn is_poc(levels: Seq<TickVolume>, level: i64, qty: u64) -> bool {
    &&& forall|c: int| #[trigger] coarse_volume(levels, c) <= qty
    &&& qty > 0 ==> coarse_volume(levels, level as int) == qty
    &&& qty > 0 ==> forall|c: int| c < level ==> #[trigger] coarse_volume(levels, c) < qty
    &&& qty == 0 ==> level == 0
}

/// The point of control of the entries and its quantity.
pub open spec fn poc_of(levels: Seq<TickVolume>) -> (i64, u64) {
    choose|p: (i64, u64)| is_poc(levels, p.0, p.1)
}

/// What a bucket reports when it closes: point of control, its quantity,
/// the sell rate at the bottom of the range and the buy rate at its top; all
/// zero when fewer than two ticks have traded.
pub open spec fn poc_rates(levels: Seq<TickVolume>) -> (i64, u64, Rate, Rate) {
    if levels.len() < 2 {
        (0i64, 0u64, Rate::spec_zero(), Rate::spec_zero())
    } else {
        (
            poc_of(levels).0,
            poc_of(levels).1,
            bottom_sell_rate(levels),
            top_buy_rate(levels),
        )
    }
}

/// There is at most one point of control.
pub proof fn lemma_poc_unique(levels: Seq<TickVolume>, level: i64, qty: u64)
    requires
        is_poc(levels, level, qty),
    ensures
        poc_of(levels) == (level, qty),
{
    let p = poc_of(levels);
    assert(is_poc(levels, p.0, p.1)) by {
        let w = (level, qty);
        assert(is_poc(levels, w.0, w.1));
    }
    assert(p.1 == qty) by {
        if p.1 > 0 {
            assert(coarse_volume(levels, p.0 as int) <= qty);
        }
        if qty > 0 {
            assert(coarse_volume(levels, level as int) <= p.1);
        }
    }
    if qty > 0 {
        if p.0 < level {
            assert(coarse_volume(levels, p.0 as int) < qty);
        }
        if level < p.0 {
            assert(coarse_volume(levels, level as int) < p.1);
        }
    }
}

/// The sell rate at the bottom of the range: quantity sold one tick above
/// the lowest traded tick, over the quantity sold at the lowest.
pub open spec fn bottom_sell_rate(levels: Seq<TickVolume>) -> Rate
    recommends
        levels.len() >= 2,
{
    Rate {
        num: levels[1].sell,
        den: if levels[0].sell > RATE_FLOOR {
            levels[0].sell
        } else {
            RATE_FLOOR
        },
    }
}

/// The buy rate at the top of the range: quantity bought one tick below the
/// highest traded tick, over the quantity bought at the highest.
pub open spec fn top_buy_rate(levels: Seq<TickVolume>) -> Rate
    recommends
        levels.len() >= 2,
{
    Rate {
        num: levels[levels.len() - 2].buy,
        den: if levels.last().buy > RATE_FLOOR {
            levels.last().buy
        } else {
            RATE_FLOOR
        },
    }
}

/// In ascending entries every tick has one entry, and the map holds it.
pub proof fn lemma_volume_map_at(levels: Seq<TickVolume>, i: int)
    requires
        ascending(levels),
        0 <= i < levels.len(),
    ensures
        volume_map(levels).dom().contains(levels[i].tick),
        volume_map(levels)[levels[i].tick] == (levels[i].buy, levels[i].sell),
{
    let t = levels[i].tick;
    assert(has_tick(levels, t));
    let j = choose|j: int| 0 <= j < levels.len() && levels[j].tick == t;
    assert(j == i) by {
        if j < i {
            assert(levels[j].tick < levels[i].tick);
        }
        if i < j {
            assert(levels[i].tick < levels[j].tick);
        }
    }
}

/// Replacing the entry of a tick by another entry for that tick keeps the
/// order and changes the map at that tick only.
proof fn lemma_entry_replaced(levels: Seq<TickVolume>, p: int, entry: TickVolume)
    requires
        ascending(levels),
        0 <= p < levels.len(),
        levels[p].tick == entry.tick,
    ensures
        ascending(levels.update(p, entry)),
        volume_map(levels.update(p, entry)) == volume_map(levels).insert(
            entry.tick,
            (entry.buy, entry.sell),
        ),
{
    let after = levels.update(p, entry);
    assert(ascending(after)) by {
        assert forall|i: int, j: int| 0 <= i < j < after.len() implies after[i].tick
            < after[j].tick by {
            assert(levels[i].tick < levels[j].tick);
        }
    }
    let goal = volume_map(levels).insert(entry.tick, (entry.buy, entry.sell));
    assert forall|t: i64| volume_map(after).dom().contains(t) == goal.dom().contains(t) by {
        if has_tick(after, t) {
            let i = choose|i: int| 0 <= i < after.len() && after[i].tick == t;
            assert(levels[i].tick == t);
        }
        if has_tick(levels, t) {
            let i = choose|i: int| 0 <= i < levels.len() && levels[i].tick == t;
            assert(after[i].tick == t);
        }
        if t == entry.tick {
            assert(after[p].tick == t);
        }
    }
    assert forall|t: i64| volume_map(after).dom().contains(t) implies volume_map(after)[t]
        == goal[t] by {
        let i = choose|i: int| 0 <= i < after.len() && after[i].tick == t;
        lemma_volume_map_at(after, i);
        if i != p {
            assert(levels[i].tick == t);
            lemma_volume_map_at(levels, i);
            assert(levels[i].tick != levels[p].tick) by {
                if i < p {
                    assert(levels[i].tick < levels[p].tick);
                } else {
                    assert(levels[p].tick < levels[i].tick);
                }
            }
        }
    }
    assert(volume_map(after) =~= goal);
}

/// Inserting an entry for a new tick at its place in the order keeps the
/// order and adds that tick to the map.
proof fn lemma_entry_inserted(levels: Seq<TickVolume>, p: int, entry: TickVolume)
    requires
        ascending(levels),
        0 <= p <= levels.len(),
        forall|j: int| 0 <= j < p ==> levels[j].tick < entry.tick,
        forall|j: int| p <= j < levels.len() ==> levels[j].tick > entry.tick,
    ensures
        ascending(levels.insert(p, entry)),
        !volume_map(levels).dom().contains(entry.tick),
        volume_map(levels.insert(p, entry)) == volume_map(levels).insert(
            entry.tick,
            (entry.buy, entry.sell),
        ),
{
    let after = levels.insert(p, entry);
    assert(ascending(after)) by {
        assert forall|i: int, j: int| 0 <= i < j < after.len() implies after[i].tick
            < after[j].tick by {
            let bi = if i < p { i } else { i - 1 };
            let bj = if j < p { j } else { j - 1 };
            if i != p && j != p {
                assert(levels[bi].tick < levels[bj].tick);
            }
        }
    }
    assert(!has_tick(levels, entry.tick));
    let goal = volume_map(levels).insert(entry.tick, (entry.buy, entry.sell));
    assert forall|t: i64| volume_map(after).dom().contains(t) == goal.dom().contains(t) by {
        if has_tick(after, t) && t != entry.tick {
            let i = choose|i: int| 0 <= i < after.len() && after[i].tick == t;
            let bi = if i < p { i } else { i - 1 };
            assert(levels[bi].tick == t);
        }
        if has_tick(levels, t) {
            let i = choose|i: int| 0 <= i < levels.len() && levels[i].tick == t;
            let ai = if i < p { i } else { i + 1 };
            assert(after[ai].tick == t);
        }
        if t == entry.tick {
            assert(after[p].tick == t);
        }
    }
    assert forall|t: i64| volume_map(after).dom().contains(t) implies volume_map(after)[t]
        == goal[t] by {
        let i = choose|i: int| 0 <= i < after.len() && after[i].tick == t;
        lemma_volume_map_at(after, i);
        if i != p {
            let bi = if i < p { i } else { i - 1 };
            assert(levels[bi].tick == t);
            lemma_volume_map_at(levels, bi);
        }
    }
    assert(volume_map(after) =~= goal);
}

/// One more entry adds its quantity to the total of its own coarse level
/// and leaves every other level as it was.
proof fn lemma_level_total_push(levels: Seq<TickVolume>, x: TickVolume, level: int)
    ensures
        level_total(levels.push(x), level) == level_total(levels, level) + if coarse(x.tick)
            == level {
            (x.buy + x.sell) as nat
        } else {
            0
        },
{
    assert(levels.push(x).drop_last() =~= levels);
}

/// A coarse level without entries has traded nothing.
proof fn lemma_level_total_absent(levels: Seq<TickVolume>, level: int)
    requires
        forall|j: int| 0 <= j < levels.len() ==> coarse(#[trigger] levels[j].tick) != level,
    ensures
        level_total(levels, level) == 0,
    decreases levels.len(),
{
    if levels.len() > 0 {
        lemma_level_total_absent(levels.drop_last(), level);
    }
}

impl View for TickFlows {
    type V = Map<i64, (u64, u64)>;

    /// Buy and sell quantity by tick.
    open spec fn view(&self) -> Map<i64, (u64, u64)> {
        volume_map(self.levels@)
    }
}

impl Default for TickFlows {
    fn default() -> (r: Self)
        ensures
            r.wf(),
            r@ == Map::<i64, (u64, u64)>::empty(),
            r.levels@ == Seq::<TickVolume>::empty(),
    {
        let r = TickFlows { levels: Vec::new() };
        assert(r@ =~= Map::<i64, (u64, u64)>::empty());
        r
    }
}

impl TickFlows {
    /// What holds of every volume built by `new` and `trade`: one entry per
    /// traded tick, in strictly ascending order of tick.
    pub open spec fn wf(&self) -> bool {
        ascending(self.levels@)
    }

    /// Buy quantity by tick.
    pub open spec fn buy_tick_qtys(&self) -> Map<i64, u64> {
        Map::new(|t: i64| self@.dom().contains(t), |t: i64| self@[t].0)
    }

    /// Sell quantity by tick.
    pub open spec fn sell_tick_qtys(&self) -> Map<i64, u64> {
        Map::new(|t: i64| self@.dom().contains(t), |t: i64| self@[t].1)
    }

    /// The volume of a bucket opened by one trade.
    pub fn new(tick: i64, qtys: u64, side: Side) -> (r: Self)
        ensures
            r.wf(),
            r@ == Map::<i64, (u64, u64)>::empty().insert(
                tick,
                traded_entry(Map::empty(), tick, qtys, side),
            ),
            r.levels@ == traded_levels(Seq::empty(), tick, qtys, side),
    {
        let mut r = TickFlows::default();
        r.trade(tick, qtys, side);
        r
    }

    /// Index of the first entry whose tick is not below `tick`.
    fn position(&self, tick: i64) -> (p: usize)
        requires
            self.wf(),
        ensures
            p <= self.levels@.len(),
            forall|j: int| 0 <= j < p ==> self.levels@[j].tick < tick,
            forall|j: int| p <= j < self.levels@.len() ==> self.levels@[j].tick >= tick,
    {
        let mut lo: usize = 0;
        let mut hi: usize = self.levels.len();
        while lo < hi
            invariant
                self.wf(),
                lo <= hi <= self.levels@.len(),
                forall|j: int| 0 <= j < lo ==> self.levels@[j].tick < tick,
                forall|j: int| hi <= j < self.levels@.len() ==> self.levels@[j].tick >= tick,
            decreases hi - lo,
        {
            let mid: usize = lo + (hi - lo) / 2;
            if self.levels[mid].tick < tick {
                lo = mid + 1;
            } else {
                hi = mid;
            }
        }
        lo
    }

    /// Adds a trade to the volume at its tick: to the buy quantity for a buy,
    /// to the sell quantity otherwise.
    pub fn trade(&mut self, tick: i64, qty: u64, side: Side)
        requires
            old(self).wf(),
        ensures
            final(self).wf(),
            final(self)@ == old(self)@.insert(tick, traded_entry(old(self)@, tick, qty, side)),
            final(self).levels@ == traded_levels(old(self).levels@, tick, qty, side),
    {
        let p = self.position(tick);
        let ghost before = self.levels@;
        proof {
            lemma_slot(before, tick, p as int);
            if !(p < before.len() && before[p as int].tick == tick) {
                assert(!has_tick(before, tick));
            }
        }
        if p < self.levels.len() && self.levels[p].tick == tick {
            let held = self.levels[p];
            let entry = if side == Side::Buy {
                TickVolume { tick, buy: add_lots(held.buy, qty), sell: held.sell }
            } else {
                TickVolume { tick, buy: held.buy, sell: add_lots(held.sell, qty) }
            };
            self.levels[p] = entry;
            proof {
                lemma_volume_map_at(before, p as int);
                lemma_entry_replaced(before, p as int, entry);
            }
        } else {
            let entry = if side == Side::Buy {
                TickVolume { tick, buy: qty, sell: 0 }
            } else {
                TickVolume { tick, buy: 0, sell: qty }
            };
            self.levels.insert(p, entry);
            proof {
                lemma_entry_inserted(before, p as int, entry);
            }
        }
    }

    /// Buy quantity traded at `tick`, if the tick has traded at all.
    pub fn buy_qty(&self, tick: i64) -> (r: Option<u64>)
        requires
            self.wf(),
        ensures
            r == if self@.dom().contains(tick) {
                Some(self@[tick].0)
            } else {
                None
            },
    {
        let p = self.position(tick);
        if p < self.levels.len() && self.levels[p].tick == tick {
            proof {
                lemma_volume_map_at(self.levels@, p as int);
            }
            Some(self.levels[p].buy)
        } else {
            None
        }
    }

    /// Sell quantity traded at `tick`, if the tick has traded at all.
    pub fn sell_qty(&self, tick: i64) -> (r: Option<u64>)
        requires
            self.wf(),
        ensures
            r == if self@.dom().contains(tick) {
                Some(self@[tick].1)
            } else {
                None
            },
    {
        let p = self.position(tick);
        if p < self.levels.len() && self.levels[p].tick == tick {
            proof {
                lemma_volume_map_at(self.levels@, p as int);
            }
            Some(self.levels[p].sell)
        } else {
            None
        }
    }

    /// Point of control, its quantity, the sell rate at the bottom of the
    /// range and the buy rate at its top. With fewer than two traded ticks
    /// there is nothing to compare and every part is zero.
    pub fn cal_poc_sellrate_buyrate(&self) -> (r: (i64, u64, Rate, Rate))
        requires
            self.wf(),
        ensures
            r == poc_rates(self.levels@),
            self.levels@.len() < 2 ==> r == (0i64, 0u64, Rate::spec_zero(), Rate::spec_zero()),
            self.levels@.len() >= 2 ==> {
                &&& is_poc(self.levels@, r.0, r.1)
                &&& r.2 == bottom_sell_rate(self.levels@)
                &&& r.3 == top_buy_rate(self.levels@)
            },
    {
        let n = self.levels.len();
        if n < 2 {
            return (0, 0, Rate::zero(), Rate::zero());
        }
        let low = self.levels[0].sell;
        let sell_rate = Rate {
            num: self.levels[1].sell,
            den: if low > RATE_FLOOR { low } else { RATE_FLOOR },
        };
        let top = self.levels[n - 1].buy;
        let buy_rate = Rate {
            num: self.levels[n - 2].buy,
            den: if top > RATE_FLOOR { top } else { RATE_FLOOR },
        };
        let mut poc_tick: i64 = 0;
        let mut poc_qty: u64 = 0;
        let mut cur: i64 = 0;
        let mut run: u64 = 0;
        let mut i: usize = 0;
        while i < n
            invariant
                self.wf(),
                n == self.levels@.len(),
                i <= n,
                i > 0 ==> cur == coarse(self.levels@[i - 1].tick),
                i > 0 ==> run == coarse_volume(self.levels@.take(i as int), cur as int),
                forall|c: int| #[trigger] coarse_volume(self.levels@.take(i as int), c) <= poc_qty,
                poc_qty > 0 ==> coarse_volume(self.levels@.take(i as int), poc_tick as int)
                    == poc_qty,
                poc_qty > 0 ==> forall|c: int|
                    c < poc_tick ==> #[trigger] coarse_volume(self.levels@.take(i as int), c)
                        < poc_qty,
                poc_qty > 0 ==> i > 0 && poc_tick <= cur,
                poc_qty == 0 ==> poc_tick == 0,
            decreases n - i,
        {
            let x = self.levels[i];
            let c = floor_div(x.tick, COARSE_TICKS);
            let v = add_lots(x.buy, x.sell);
            let ghost before = self.levels@.take(i as int);
            let ghost after = self.levels@.take(i + 1);
            proof {
                assert(after =~= before.push(x));
                assert forall|l: int|
                    coarse_volume(after, l) == if l == c {
                        capped_sum(coarse_volume(before, l), v as int)
                    } else {
                        coarse_volume(before, l)
                    } by {
                    lemma_level_total_push(before, x, l);
                }
                if i > 0 {
                    vstd::arithmetic::div_mod::lemma_div_is_ordered(
                        self.levels@[i - 1].tick as int,
                        x.tick as int,
                        COARSE_TICKS as int,
                    );
                }
                if i == 0 || c != cur {
                    assert forall|j: int| 0 <= j < before.len() implies coarse(
                        #[trigger] before[j].tick,
                    ) != c by {
                        assert(before[j] == self.levels@[j]);
                        vstd::arithmetic::div_mod::lemma_div_is_ordered(
                            self.levels@[j].tick as int,
                            self.levels@[i - 1].tick as int,
                            COARSE_TICKS as int,
                        );
                    }
                    lemma_level_total_absent(before, c as int);
                }
            }
            if i > 0 && c == cur {
                run = add_lots(run, v);
            } else {
                run = v;
                cur = c;
            }
            if run > poc_qty {
                poc_qty = run;
                poc_tick = cur;
            }
            i += 1;
        }
        proof {
            assert(self.levels@.take(n as int) =~= self.levels@);
            lemma_poc_unique(self.levels@, poc_tick, poc_qty);
        }
        (poc_tick, poc_qty, sell_rate, buy_rate)
    }
}

/// Every tick that has traded has both a buy and a sell quantity, possibly
/// zero.
pub proof fn lemma_both_sides_present(flows: TickFlows)
    ensures
        flows.buy_tick_qtys().dom() =~= flows.sell_tick_qtys().dom(),
        forall|t: i64|
            flows@.dom().contains(t) ==> flows.buy_tick_qtys().dom().contains(t)
                && flows.sell_tick_qtys().dom().contains(t),
{
}

} // verus!
