//! A rolling tracker of buy and sell quantity at the most recently traded
//! price ticks, and the ticks where one side outweighs the other.

use std::collections::HashMap;
use vstd::prelude::*;
use crate::arith::{add_lots, capped_sum};
use crate::listing::lemma_listing_push;
use crate::types::{Side, LOTS_PER_UNIT};

verus! {

broadcast use vstd::std_specs::hash::group_hash_axioms;

/// Least buy quantity at a tick for it to count as imbalanced: 0.05 unit.
pub const MIN_BUY_LOTS: u64 = LOTS_PER_UNIT / 20;

/// Least sell quantity one tick below for a tick to count as imbalanced:
/// 0.02 unit.
pub const MIN_SELL_LOTS: u64 = LOTS_PER_UNIT / 50;

/// How many times one side must outweigh the other.
pub const IMBALANCE_RATIO: u64 = 3;

/// Buy and sell quantity at the most recently traded ticks. When a new tick
/// arrives at full capacity, the tick that has gone longest without a trade
/// leaves, and its quantities with it.
#[derive(Debug)]
pub struct Imbalance {
    /// The tracked ticks in ascending order.
    pub ticks: Vec<i64>,
    /// The tracked ticks in order of their last trade, oldest first.
    pub seen: Vec<i64>,
    pub buy_qtys: HashMap<i64, u64>,
    pub sell_qtys: HashMap<i64, u64>,
    pub ticks_max_len: usize,
}

/// The mathematical value of the tracker.
pub struct ImbalanceView {
    /// The tracked ticks in order of their last trade, oldest first.
    pub order: Seq<i64>,
    pub buy: Map<i64, u64>,
    pub sell: Map<i64, u64>,
    pub capacity: nat,
}

/// Whether the ticks are in strictly ascending order.
pub open spec fn ascending(ticks: Seq<i64>) -> bool {
    forall|i: int, j: int| 0 <= i < j < ticks.len() ==> ticks[i] < ticks[j]
}

/// The quantity recorded at `tick`, zero where none is.
pub open spec fn qty_at(qtys: Map<i64, u64>, tick: int) -> u64 {
    if i64::MIN <= tick <= i64::MAX && qtys.dom().contains(tick as i64) {
        qtys[tick as i64]
    } else {
        0
    }
}

impl ImbalanceView {
    /// A tracker that follows no tick yet.
    pub open spec fn empty(capacity: nat) -> ImbalanceView {
        ImbalanceView { order: Seq::empty(), buy: Map::empty(), sell: Map::empty(), capacity }
    }

    /// The tracker with the oldest tick dropped if it is full.
    pub open spec fn with_room(self) -> ImbalanceView {
        if self.order.len() > 0 && self.order.len() == self.capacity {
            ImbalanceView {
                order: self.order.drop_first(),
                buy: self.buy.remove(self.order[0]),
                sell: self.sell.remove(self.order[0]),
                ..self
            }
        } else {
            self
        }
    }

    /// The tracker after a trade of `qty` at `tick`. A tick already tracked
    /// becomes the newest and gains the quantity on the trade's side; a new
    /// tick enters as the newest with that quantity, after the oldest has
    /// left a full tracker. A trade that is neither a buy nor a sell changes
    /// nothing.
    pub open spec fn pushed(self, tick: i64, qty: u64, side: Side) -> ImbalanceView {
        if side != Side::Buy && side != Side::Sell {
            self
        } else if self.order.contains(tick) {
            let order = self.order.remove(self.order.index_of(tick)).push(tick);
            if side == Side::Buy {
                ImbalanceView {
                    order,
                    buy: self.buy.insert(
                        tick,
                        capped_sum(qty_at(self.buy, tick as int) as int, qty as int) as u64,
                    ),
                    ..self
                }
            } else {
                ImbalanceView {
                    order,
                    sell: self.sell.insert(
                        tick,
                        capped_sum(qty_at(self.sell, tick as int) as int, qty as int) as u64,
                    ),
                    ..self
                }
            }
        } else {
            let room = self.with_room();
            if side == Side::Buy {
                ImbalanceView {
                    order: room.order.push(tick),
                    buy: room.buy.insert(tick, qty),
                    ..room
                }
            } else {
                ImbalanceView {
                    order: room.order.push(tick),
                    sell: room.sell.insert(tick, qty),
                    ..room
                }
            }
        }
    }

    /// Whether buyers at `tick` outweigh sellers one tick below.
    pub open spec fn buy_heavy(self, tick: i64) -> bool {
        let buy = qty_at(self.buy, tick as int);
        let sell = qty_at(self.sell, tick - 1);
        buy >= MIN_BUY_LOTS && sell >= MIN_SELL_LOTS && buy > IMBALANCE_RATIO * sell
    }

    /// Whether sellers one tick below `tick` outweigh buyers at it.
    pub open spec fn sell_heavy(self, tick: i64) -> bool {
        let buy = qty_at(self.buy, tick as int);
        let sell = qty_at(self.sell, tick - 1);
        buy >= MIN_BUY_LOTS && sell >= MIN_SELL_LOTS && sell > IMBALANCE_RATIO * buy
    }
}

impl View for Imbalance {
    type V = ImbalanceView;

    open spec fn view(&self) -> ImbalanceView {
        ImbalanceView {
            order: self.seen@,
            buy: self.buy_qtys@,
            sell: self.sell_qtys@,
            capacity: self.ticks_max_len as nat,
        }
    }
}

proof fn lemma_ascending_distinct(s: Seq<i64>)
    requires
        ascending(s),
    ensures
        s.no_duplicates(),
{
    assert forall|i: int, j: int| 0 <= i < s.len() && 0 <= j < s.len() && i != j implies s[i]
        != s[j] by {
        if i < j {
            assert(s[i] < s[j]);
        } else {
            assert(s[j] < s[i]);
        }
    }
}

/// Removing one element of a sequence without repeats removes exactly that
/// value.
proof fn lemma_remove_members(s: Seq<i64>, i: int)
    requires
        s.no_duplicates(),
        0 <= i < s.len(),
    ensures
        s.remove(i).no_duplicates(),
        !s.remove(i).contains(s[i]),
        forall|t: i64| #[trigger] s.remove(i).contains(t) == (s.contains(t) && t != s[i]),
{
    let r = s.remove(i);
    assert forall|a: int, b: int| 0 <= a < r.len() && 0 <= b < r.len() && a != b implies r[a]
        != r[b] by {
        let sa = if a < i { a } else { a + 1 };
        let sb = if b < i { b } else { b + 1 };
        assert(r[a] == s[sa] && r[b] == s[sb]);
    }
    assert forall|t: i64| #[trigger] r.contains(t) == (s.contains(t) && t != s[i]) by {
        if r.contains(t) {
            let a = choose|a: int| 0 <= a < r.len() && r[a] == t;
            let sa = if a < i { a } else { a + 1 };
            assert(s[sa] == t);
        }
        if s.contains(t) && t != s[i] {
            let a = choose|a: int| 0 <= a < s.len() && s[a] == t;
            let ra = if a < i { a } else { a - 1 };
            assert(r[ra] == t);
        }
    }
}

proof fn lemma_remove_ascending(s: Seq<i64>, i: int)
    requires
        ascending(s),
        0 <= i < s.len(),
    ensures
        ascending(s.remove(i)),
{
    let r = s.remove(i);
    assert forall|a: int, b: int| 0 <= a < b < r.len() implies r[a] < r[b] by {
        let sa = if a < i { a } else { a + 1 };
        let sb = if b < i { b } else { b + 1 };
        assert(s[sa] < s[sb]);
    }
}

/// Inserting a new tick at its place keeps the order and adds exactly that
/// tick.
proof fn lemma_insert_ascending(s: Seq<i64>, p: int, v: i64)
    requires
        ascending(s),
        0 <= p <= s.len(),
        forall|j: int| 0 <= j < p ==> s[j] < v,
        forall|j: int| p <= j < s.len() ==> s[j] > v,
    ensures
        ascending(s.insert(p, v)),
        forall|t: i64| #[trigger] s.insert(p, v).contains(t) == (s.contains(t) || t == v),
{
    let r = s.insert(p, v);
    assert forall|a: int, b: int| 0 <= a < b < r.len() implies r[a] < r[b] by {
        let sa = if a < p { a } else { a - 1 };
        let sb = if b < p { b } else { b - 1 };
        if a != p && b != p {
            assert(s[sa] < s[sb]);
        }
    }
    assert forall|t: i64| #[trigger] r.contains(t) == (s.contains(t) || t == v) by {
        if r.contains(t) && t != v {
            let a = choose|a: int| 0 <= a < r.len() && r[a] == t;
            let sa = if a < p { a } else { a - 1 };
            assert(s[sa] == t);
        }
        if s.contains(t) {
            let a = choose|a: int| 0 <= a < s.len() && s[a] == t;
            let ra = if a < p { a } else { a + 1 };
            assert(r[ra] == t);
        }
        if t == v {
            assert(r[p] == t);
        }
    }
}

impl Default for Imbalance {
    /// A tracker without capacity: it takes no trade until `ticks_max_len`
    /// is set.
    fn default() -> (r: Self)
        ensures
            r.wf(),
            r@ == ImbalanceView::empty(0),
            r.ticks@ == Seq::<i64>::empty(),
    {
        Imbalance::new(0)
    }
}

/// Index of the first tick that is not below `tick`.
fn position(ticks: &Vec<i64>, tick: i64) -> (p: usize)
    requires
        ascending(ticks@),
    ensures
        p <= ticks@.len(),
        forall|j: int| 0 <= j < p ==> ticks@[j] < tick,
        forall|j: int| p <= j < ticks@.len() ==> ticks@[j] >= tick,
        ticks@.contains(tick) <==> p < ticks@.len() && ticks@[p as int] == tick,
{
    let mut lo: usize = 0;
    let mut hi: usize = ticks.len();
    while lo < hi
        invariant
            ascending(ticks@),
            lo <= hi <= ticks@.len(),
            forall|j: int| 0 <= j < lo ==> ticks@[j] < tick,
            forall|j: int| hi <= j < ticks@.len() ==> ticks@[j] >= tick,
        decreases hi - lo,
    {
        let mid: usize = lo + (hi - lo) / 2;
        if ticks[mid] < tick {
            lo = mid + 1;
        } else {
            hi = mid;
        }
    }
    proof {
        if ticks@.contains(tick) {
            let a = choose|a: int| 0 <= a < ticks@.len() && ticks@[a] == tick;
            if a > lo {
                assert(ticks@[lo as int] < ticks@[a]);
            }
        }
    }
    lo
}

/// Index of `tick` among the ticks in order of last trade.
fn recency_index(seen: &Vec<i64>, tick: i64) -> (p: usize)
    requires
        seen@.no_duplicates(),
        seen@.contains(tick),
    ensures
        p < seen@.len(),
        seen@[p as int] == tick,
        p == seen@.index_of(tick),
{
    let n = seen.len();
    let mut i: usize = 0;
    while seen[i] != tick
        invariant
            n == seen@.len(),
            i < seen@.len(),
            seen@.contains(tick),
            forall|j: int| 0 <= j < i ==> seen@[j] != tick,
        decreases seen@.len() - i,
    {
        proof {
            let a = choose|a: int| 0 <= a < seen@.len() && seen@[a] == tick;
            assert(a > i);
        }
        i += 1;
    }
    i
}

impl Imbalance {
    /// What holds of every tracker built by `new` and `push`: the ascending
    /// ticks and the ticks in order of last trade are the same ticks, at
    /// most `ticks_max_len` of them, and only they have quantities.
    pub open spec fn wf(&self) -> bool {
        &&& ascending(self.ticks@)
        &&& self.seen@.no_duplicates()
        &&& self.ticks@.len() == self.seen@.len()
        &&& self.ticks@.len() <= self.ticks_max_len
        &&& forall|t: i64| self.ticks@.contains(t) == self.seen@.contains(t)
        &&& forall|t: i64| self.buy_qtys@.dom().contains(t) ==> self.seen@.contains(t)
        &&& forall|t: i64| self.sell_qtys@.dom().contains(t) ==> self.seen@.contains(t)
    }

    pub fn new(ticks_max_len: usize) -> (r: Self)
        ensures
            r.wf(),
            r@ == ImbalanceView::empty(ticks_max_len as nat),
            r.ticks@ == Seq::<i64>::empty(),
    {
        Imbalance {
            ticks: Vec::new(),
            seen: Vec::new(),
            buy_qtys: HashMap::new(),
            sell_qtys: HashMap::new(),
            ticks_max_len,
        }
    }

    /// Drops the tick that has gone longest without a trade, if the tracker
    /// is full.
    fn make_room(&mut self)
        requires
            old(self).wf(),
            old(self).ticks_max_len > 0,
        ensures
            final(self).wf(),
            final(self)@ == old(self)@.with_room(),
            final(self).ticks@.len() < final(self).ticks_max_len,
    {
        if self.seen.len() == self.ticks_max_len {
            let oldest: i64 = self.seen[0];
            let ghost seen0 = self.seen@;
            let ghost ticks0 = self.ticks@;
            self.seen.remove(0);
            assert(ticks0.contains(oldest)) by {
                assert(seen0[0] == oldest);
            }
            let p = position(&self.ticks, oldest);
            self.ticks.remove(p);
            self.buy_qtys.remove(&oldest);
            self.sell_qtys.remove(&oldest);
            proof {
                lemma_remove_members(seen0, 0);
                lemma_ascending_distinct(ticks0);
                lemma_remove_members(ticks0, p as int);
                lemma_remove_ascending(ticks0, p as int);
            }
        }
    }

    /// Records a trade of `qty` at `tick`.
    pub fn push(&mut self, tick: i64, qty: u64, side: Side)
        requires
            old(self).wf(),
            old(self).ticks_max_len > 0 || (side != Side::Buy && side != Side::Sell),
        ensures
            final(self).wf(),
            final(self)@ == old(self)@.pushed(tick, qty, side),
    {
        if side != Side::Buy && side != Side::Sell {
            return ;
        }
        let p = position(&self.ticks, tick);
        if p < self.ticks.len() && self.ticks[p] == tick {
            let ghost seen0 = self.seen@;
            let at = recency_index(&self.seen, tick);
            self.seen.remove(at);
            self.seen.push(tick);
            proof {
                lemma_remove_members(seen0, at as int);
                lemma_listing_push(seen0.remove(at as int), tick);
            }
            if side == Side::Buy {
                let held: u64 = match self.buy_qtys.get(&tick) {
                    Some(q) => *q,
                    None => 0,
                };
                self.buy_qtys.insert(tick, add_lots(held, qty));
            } else {
                let held: u64 = match self.sell_qtys.get(&tick) {
                    Some(q) => *q,
                    None => 0,
                };
                self.sell_qtys.insert(tick, add_lots(held, qty));
            }
        } else {
            self.make_room();
            let ghost seen1 = self.seen@;
            let ghost ticks1 = self.ticks@;
            assert(!ticks1.contains(tick)) by {
                assert(!old(self).seen@.contains(tick));
            }
            let q = position(&self.ticks, tick);
            self.ticks.insert(q, tick);
            self.seen.push(tick);
            proof {
                lemma_insert_ascending(ticks1, q as int, tick);
                lemma_listing_push(seen1, tick);
            }
            if side == Side::Buy {
                self.buy_qtys.insert(tick, qty);
            } else {
                self.sell_qtys.insert(tick, qty);
            }
        }
    }

    /// The ticks where buyers outweigh sellers one tick below, and the ticks
    /// where those sellers outweigh the buyers, each in ascending order.
    pub fn cal_imbalance(&self) -> (r: (Vec<i64>, Vec<i64>))
        ensures
            r.0@ == self.ticks@.filter(|t: i64| self@.buy_heavy(t)),
            r.1@ == self.ticks@.filter(|t: i64| self@.sell_heavy(t)),
    {
        let mut buy_imbalance: Vec<i64> = Vec::new();
        let mut sell_imbalance: Vec<i64> = Vec::new();
        let ghost buy_pred = |t: i64| self@.buy_heavy(t);
        let ghost sell_pred = |t: i64| self@.sell_heavy(t);
        let n = self.ticks.len();
        let mut i: usize = 0;
        proof {
            Seq::<i64>::empty().lemma_all_neg_filter_empty(buy_pred);
            Seq::<i64>::empty().lemma_all_neg_filter_empty(sell_pred);
        }
        while i < n
            invariant
                n == self.ticks@.len(),
                i <= n,
                buy_pred == (|t: i64| self@.buy_heavy(t)),
                sell_pred == (|t: i64| self@.sell_heavy(t)),
                buy_imbalance@ == self.ticks@.take(i as int).filter(buy_pred),
                sell_imbalance@ == self.ticks@.take(i as int).filter(sell_pred),
            decreases n - i,
        {
            let tick: i64 = self.ticks[i];
            let buy: u64 = match self.buy_qtys.get(&tick) {
                Some(q) => *q,
                None => 0,
            };
            let sell: u64 = if tick == i64::MIN {
                0
            } else {
                let below: i64 = tick - 1;
                match self.sell_qtys.get(&below) {
                    Some(q) => *q,
                    None => 0,
                }
            };
            proof {
                assert(self.ticks@.take(i + 1) =~= self.ticks@.take(i as int).push(tick));
                self.ticks@.take(i as int).lemma_filter_push(tick, buy_pred);
                self.ticks@.take(i as int).lemma_filter_push(tick, sell_pred);
            }
            if buy >= MIN_BUY_LOTS && sell >= MIN_SELL_LOTS {
                if buy as u128 > IMBALANCE_RATIO as u128 * sell as u128 {
                    buy_imbalance.push(tick);
                }
                if sell as u128 > IMBALANCE_RATIO as u128 * buy as u128 {
                    sell_imbalance.push(tick);
                }
            }
            i += 1;
        }
        assert(self.ticks@.take(n as int) =~= self.ticks@);
        (buy_imbalance, sell_imbalance)
    }
}

/// The tracker never holds more ticks than its capacity. When a trade at a
/// new tick meets a full tracker, the tick that traded longest ago leaves,
/// and with it its quantity on either side.
pub proof fn lemma_evicted_tick_forgotten(
    before: Imbalance,
    after: Imbalance,
    tick: i64,
    qty: u64,
    side: Side,
)
    requires
        before.wf(),
        after.wf(),
        after@ == before@.pushed(tick, qty, side),
        side == Side::Buy || side == Side::Sell,
        !before@.order.contains(tick),
        before@.order.len() == before@.capacity,
        before@.capacity > 0,
    ensures
        after.ticks@.len() <= after.ticks_max_len,
        !after@.order.contains(before@.order[0]),
        !after.ticks@.contains(before@.order[0]),
        !after@.buy.dom().contains(before@.order[0]),
        !after@.sell.dom().contains(before@.order[0]),
        after@.order.contains(tick),
{
    let gone = before@.order[0];
    assert(before@.order.contains(gone));
    lemma_remove_members(before@.order, 0);
    assert(before@.order.drop_first() =~= before@.order.remove(0));
    lemma_listing_push(before@.order.drop_first(), tick);
}

} // verus!
