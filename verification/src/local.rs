//! The local side of the order round trip: it sends requests to the
//! exchange after a latency, applies the responses in order of delivery,
//! keeps the position, and passes the trade feed on to the price-action
//! model.

use std::collections::HashMap;
use vstd::prelude::*;
use crate::arith::{clip_i64, clip_wide};
use crate::listing::{
    lemma_listing_ends, lemma_listing_push, lemma_listing_step, listed_before, listed_from,
};
use crate::order::{appended, BacktestError, OrdType, Order, OrderBus, Status, TimeInForce};
use crate::price_action::PriceAction;
use crate::types::Side;

verus! {

broadcast use vstd::std_specs::hash::group_hash_axioms;

/// What a feed event reports.
#[derive(Debug, Clone, Copy, PartialEq, Eq, Structural)]
pub enum EventKind {
    /// The quantity resting at one price changed.
    Depth,
    /// A trade was executed.
    Trade,
    /// The book was cleared up to a price.
    DepthClear,
    /// One level of a snapshot of the book.
    DepthSnapshot,
    Other,
}

/// One event of the market feed: prices in ticks, quantities in lots.
#[derive(Debug, Clone, Copy, PartialEq, Eq, Structural)]
pub struct Event {
    pub kind: EventKind,
    /// The side of the book, or the aggressor side of a trade.
    pub side: Side,
    /// Whether the local side sees this event.
    pub local: bool,
    pub exch_ts: i64,
    pub local_ts: i64,
    pub px_tick: i64,
    /// The price rounded down to a whole number.
    pub px_floor: i64,
    pub qty: u64,
}

/// The running totals of the fills.
#[derive(Debug, Clone, Copy, PartialEq, Eq, Structural)]
pub struct StateValues {
    /// Lots bought minus lots sold.
    pub position: i128,
    pub num_trades: u64,
    /// Lots bought plus lots sold.
    pub trading_volume: u128,
}

/// The delay between sending a request and its arrival. A negative value
/// means that the request is refused for technical reasons, and that the
/// refusal arrives after the absolute value.
pub trait LatencyModel {
    /// Whether the model `before`, asked at `timestamp` about `order`, can
    /// answer `latency` and become `after`. A model that does not say
    /// otherwise can answer anything.
    open spec fn answered(
        before: &Self,
        after: &Self,
        timestamp: i64,
        order: Order,
        latency: i64,
    ) -> bool {
        true
    }

    fn entry(&mut self, timestamp: i64, order: &Order) -> (latency: i64)
        ensures
            Self::answered(old(self), final(self), timestamp, *order, latency),
    ;
}

/// The order book as the local side sees it.
pub trait MarketDepth {
    /// Whether `after` is the book `before` cleared on `side` up to a price.
    /// A book that does not say otherwise may become anything.
    open spec fn cleared(before: &Self, after: &Self, side: Side, clear_upto_tick: i64) -> bool {
        true
    }

    /// Whether `after` is the book `before` with `qty` bid at a price.
    open spec fn bid_updated(
        before: &Self,
        after: &Self,
        price_tick: i64,
        qty: u64,
        timestamp: i64,
    ) -> bool {
        true
    }

    /// Whether `after` is the book `before` with `qty` asked at a price.
    open spec fn ask_updated(
        before: &Self,
        after: &Self,
        price_tick: i64,
        qty: u64,
        timestamp: i64,
    ) -> bool {
        true
    }

    /// Clears one side of the book up to a price, or the whole book for a
    /// side that is neither buy nor sell.
    fn clear_depth(&mut self, side: Side, clear_upto_tick: i64)
        ensures
            Self::cleared(old(self), final(self), side, clear_upto_tick),
    ;

    fn update_bid_depth(&mut self, price_tick: i64, qty: u64, timestamp: i64)
        ensures
            Self::bid_updated(old(self), final(self), price_tick, qty, timestamp),
    ;

    fn update_ask_depth(&mut self, price_tick: i64, qty: u64, timestamp: i64)
        ensures
            Self::ask_updated(old(self), final(self), price_tick, qty, timestamp),
    ;

    /// The best bid in ticks, `INVALID_MIN` while there is none.
    fn best_bid_tick(&self) -> i64;

    /// The best ask in ticks, `INVALID_MAX` while there is none.
    fn best_ask_tick(&self) -> i64;
}

/// The best bid of a book without bids.
pub const INVALID_MIN: i64 = i64::MIN;

/// The best ask of a book without asks.
pub const INVALID_MAX: i64 = i64::MAX;

/// `+1` for a buy, `-1` for a sell, zero otherwise.
pub open spec fn direction(side: Side) -> int {
    match side {
        Side::Buy => 1,
        Side::Sell => -1,
        _ => 0,
    }
}

/// `value` brought into the range of a position.
pub open spec fn clip_position(value: int) -> i128 {
    if value < i128::MIN {
        i128::MIN
    } else if value > i128::MAX {
        i128::MAX
    } else {
        value as i128
    }
}

/// The totals after the fill that `order` reports. Each total saturates at
/// the end of its range.
pub open spec fn filled(state: StateValues, order: Order) -> StateValues {
    StateValues {
        position: clip_position(state.position + direction(order.side) * order.exec_qty),
        num_trades: if state.num_trades < u64::MAX {
            (state.num_trades + 1) as u64
        } else {
            state.num_trades
        },
        trading_volume: if state.trading_volume + order.exec_qty > u128::MAX {
            u128::MAX
        } else {
            (state.trading_volume + order.exec_qty) as u128
        },
    }
}

/// When a message sent at `now` with the given latency is delivered: after
/// the latency, or after its absolute value for a refusal.
pub open spec fn delivery_time(now: i64, latency: i64) -> i64 {
    if latency < 0 {
        clip_i64(now - latency)
    } else {
        clip_i64(now + latency)
    }
}

/// The queues to the exchange and back after a request has been sent: with
/// a negative latency the refusal is queued for the local side, otherwise
/// the request is queued for the exchange.
pub open spec fn routed(
    to: Seq<(Order, i64)>,
    from: Seq<(Order, i64)>,
    request: Order,
    refusal: Order,
    now: i64,
    latency: i64,
) -> (Seq<(Order, i64)>, Seq<(Order, i64)>) {
    if latency < 0 {
        (to, appended(from, refusal, delivery_time(now, latency)))
    } else {
        (appended(to, request, delivery_time(now, latency)), from)
    }
}

/// The known orders after a response has arrived. A refusal resolves the
/// request it answers: a refused new order expires, any other refused
/// request is dropped and the order stays as it was. Any other response
/// brings the order up to date, or makes it known.
pub open spec fn responded(orders: Map<u64, Order>, response: Order) -> Map<u64, Order> {
    let id = response.order_id;
    if orders.dom().contains(id) {
        let held = orders[id];
        if response.req == Status::Rejected {
            if response.local_timestamp == held.local_timestamp {
                if held.req == Status::New {
                    orders.insert(id, Order { req: Status::Unset, status: Status::Expired, ..held })
                } else {
                    orders.insert(id, Order { req: Status::Unset, ..held })
                }
            } else {
                orders
            }
        } else {
            orders.insert(id, held.updated(response))
        }
    } else if response.req != Status::Rejected {
        orders.insert(id, response)
    } else {
        orders
    }
}

/// The orders that have not reached the end of their life.
pub open spec fn active(orders: Map<u64, Order>) -> Map<u64, Order> {
    Map::new(|id: u64| orders.dom().contains(id) && !orders[id].is_inactive(), |id: u64| orders[id])
}

/// The request that sends a new order at `now`.
pub open spec fn new_request(
    order_id: u64,
    side: Side,
    price_tick: i64,
    qty: u64,
    order_type: OrdType,
    time_in_force: TimeInForce,
    now: i64,
) -> Order {
    Order {
        req: Status::New,
        local_timestamp: now,
        ..Order::spec_new(order_id, price_tick, qty, side, order_type, time_in_force)
    }
}

/// The request that asks at `now` for another price and quantity of the
/// order `held`.
pub open spec fn change_request(held: Order, price_tick: i64, qty: u64, now: i64) -> Order {
    Order { price_tick, qty, req: Status::Replaced, local_timestamp: now, ..held }
}

/// The request that asks for the cancellation of the order `held`.
pub open spec fn cancel_request(held: Order) -> Order {
    Order { req: Status::Canceled, ..held }
}

/// The refusal of a request.
pub open spec fn refusal_of(request: Order) -> Order {
    Order { req: Status::Rejected, ..request }
}

/// The refusal of a request for another price and quantity: it carries the
/// price and quantity that the order `held` had.
pub open spec fn change_refusal(held: Order, request: Order) -> Order {
    Order { req: Status::Rejected, price_tick: held.price_tick, qty: held.qty, ..request }
}

/// The part of the local side that is plain data.
pub struct LocalView {
    pub orders: Map<u64, Order>,
    pub orders_to: Seq<(Order, i64)>,
    pub orders_from: Seq<(Order, i64)>,
    pub state: StateValues,
    pub trades: Seq<Event>,
    pub last_feed_latency: Option<(i64, i64)>,
    pub last_order_latency: Option<(i64, i64, i64)>,
}

impl LocalView {
    /// The local side after `request` has been sent at `now` and the latency
    /// model has answered `latency`: the order is known as the request
    /// describes it, and the request travels to the exchange or, with a
    /// negative latency, `refusal` travels back.
    pub open spec fn asked(
        self,
        request: Order,
        refusal: Order,
        now: i64,
        latency: i64,
    ) -> LocalView {
        let queues = routed(self.orders_to, self.orders_from, request, refusal, now, latency);
        LocalView {
            orders: self.orders.insert(request.order_id, request),
            orders_to: queues.0,
            orders_from: queues.1,
            ..self
        }
    }

    /// The local side after one response, delivered at `recv_timestamp`, has
    /// been taken off the queue and applied.
    pub open spec fn received(self, response: Order, recv_timestamp: i64) -> LocalView {
        LocalView {
            orders: responded(self.orders, response),
            state: if response.status == Status::Filled {
                filled(self.state, response)
            } else {
                self.state
            },
            last_order_latency: if response.exch_timestamp > 0 {
                Some((response.local_timestamp, response.exch_timestamp, recv_timestamp))
            } else {
                self.last_order_latency
            },
            ..self
        }
    }

    /// The local side after every response that is due at `timestamp` has
    /// been applied, first to last, and whether one of them was for the
    /// order `wait`.
    pub open spec fn drained(self, timestamp: i64, wait: Option<u64>) -> (LocalView, bool)
        decreases self.orders_from.len(),
    {
        if self.orders_from.len() > 0 && self.orders_from[0].1 == timestamp {
            let response = self.orders_from[0].0;
            let next = LocalView {
                orders_from: self.orders_from.drop_first(),
                ..self
            }.received(response, timestamp);
            let rest = next.drained(timestamp, wait);
            (rest.0, rest.1 || wait == Some(response.order_id))
        } else {
            (self, false)
        }
    }
}

/// The local model of one instrument.
pub struct Local<LM, MD, PA> where LM: LatencyModel, MD: MarketDepth, PA: PriceAction {
    pub orders: HashMap<u64, Order>,
    /// The ids of the known orders.
    pub order_ids: Vec<u64>,
    /// Requests on their way to the exchange.
    pub orders_to: OrderBus,
    /// Responses on their way back.
    pub orders_from: OrderBus,
    pub depth: MD,
    pub state: StateValues,
    pub order_latency: LM,
    /// The trades seen since they were last cleared, if they are kept.
    pub trades: Vec<Event>,
    /// Trades are kept only if this is not zero.
    pub last_trades_cap: usize,
    /// Exchange and local timestamp of the last feed event.
    pub last_feed_latency: Option<(i64, i64)>,
    /// Local, exchange and receipt timestamp of the last response.
    pub last_order_latency: Option<(i64, i64, i64)>,
    pub price_action: PA,
}

impl<LM, MD, PA> View for Local<LM, MD, PA> where
    LM: LatencyModel,
    MD: MarketDepth,
    PA: PriceAction,
{
    type V = LocalView;

    open spec fn view(&self) -> LocalView {
        LocalView {
            orders: self.orders@,
            orders_to: self.orders_to@,
            orders_from: self.orders_from@,
            state: self.state,
            trades: self.trades@,
            last_feed_latency: self.last_feed_latency,
            last_order_latency: self.last_order_latency,
        }
    }
}

/// Whether the event is a trade that the local side sees.
pub open spec fn is_local_trade(ev: Event) -> bool {
    ev.local && ev.kind == EventKind::Trade
}

/// Whether the event clears the book that the local side sees.
pub open spec fn is_local_clear(ev: Event) -> bool {
    ev.local && ev.kind == EventKind::DepthClear
}

/// Whether the event changes a quantity in the book that the local side
/// sees.
pub open spec fn is_local_depth(ev: Event) -> bool {
    ev.local && (ev.kind == EventKind::Depth || ev.kind == EventKind::DepthSnapshot)
}

/// The side of a trade or of the book that an event names, if it names one.
pub open spec fn named_side(ev: Event) -> Side {
    match ev.side {
        Side::Buy => Side::Buy,
        Side::Sell => Side::Sell,
        _ => Side::Neither,
    }
}

/// The side under which a trade enters the price-action model: a trade that
/// is not a buy counts as a sell.
pub open spec fn flow_side(ev: Event) -> Side {
    if ev.side == Side::Buy {
        Side::Buy
    } else {
        Side::Sell
    }
}

impl<LM, MD, PA> Local<LM, MD, PA> where LM: LatencyModel, MD: MarketDepth, PA: PriceAction {
    /// What holds of every local side built by `new`: both queues are in
    /// order of delivery, the list of ids names exactly the known orders,
    /// every order is filed under its own id, and the price-action model is
    /// sound.
    pub open spec fn wf(&self) -> bool {
        &&& self.orders_to.wf()
        &&& self.orders_from.wf()
        &&& self.order_ids@.no_duplicates()
        &&& forall|id: u64| self.order_ids@.contains(id) == self.orders@.dom().contains(id)
        &&& forall|id: u64|
            self.orders@.dom().contains(id) ==> (#[trigger] self.orders@[id]).order_id == id
        &&& self.price_action.ready()
    }

    /// Whether the two differ in nothing but their plain data.
    pub open spec fn same_parts(&self, other: &Self) -> bool {
        &&& self.depth == other.depth
        &&& self.order_latency == other.order_latency
        &&& self.price_action == other.price_action
        &&& self.last_trades_cap == other.last_trades_cap
    }

    /// Whether `after` is this local side after `request` has been sent at
    /// `now`: the latency model was asked about the request and answered
    /// `latency`, and the plain data is what that answer makes of it.
    pub open spec fn sent(
        &self,
        after: &Self,
        request: Order,
        refusal: Order,
        now: i64,
        latency: i64,
    ) -> bool {
        &&& LM::answered(&self.order_latency, &after.order_latency, now, request, latency)
        &&& after@ == self@.asked(request, refusal, now, latency)
    }

    /// Constructs the local side. Trades are kept for `last_trades` only if
    /// `last_trades_cap` is not zero.
    pub fn new(
        depth: MD,
        state: StateValues,
        order_latency: LM,
        last_trades_cap: usize,
        orders_to: OrderBus,
        orders_from: OrderBus,
        price_action: PA,
    ) -> (r: Self)
        requires
            orders_to.wf(),
            orders_from.wf(),
            price_action.ready(),
        ensures
            r.wf(),
            r@ == (LocalView {
                orders: Map::empty(),
                orders_to: orders_to@,
                orders_from: orders_from@,
                state,
                trades: Seq::empty(),
                last_feed_latency: None,
                last_order_latency: None,
            }),
            r.depth == depth,
            r.order_latency == order_latency,
            r.price_action == price_action,
            r.last_trades_cap == last_trades_cap,
    {
        Local {
            orders: HashMap::new(),
            order_ids: Vec::new(),
            orders_to,
            orders_from,
            depth,
            state,
            order_latency,
            trades: Vec::new(),
            last_trades_cap,
            last_feed_latency: None,
            last_order_latency: None,
            price_action,
        }
    }

    /// Queues a request that was sent at `now` and takes `latency` to arrive:
    /// for the exchange, or, with a negative latency, its refusal for the
    /// local side.
    pub fn dispatch(&mut self, request: Order, refusal: Order, now: i64, latency: i64)
        requires
            old(self).wf(),
        ensures
            final(self).wf(),
            final(self).same_parts(old(self)),
            final(self).order_ids == old(self).order_ids,
            (final(self)@.orders_to, final(self)@.orders_from) == routed(
                old(self)@.orders_to,
                old(self)@.orders_from,
                request,
                refusal,
                now,
                latency,
            ),
            final(self)@ == (LocalView {
                orders_to: final(self)@.orders_to,
                orders_from: final(self)@.orders_from,
                ..old(self)@
            }),
    {
        if latency < 0 {
            self.orders_from.append(refusal, clip_wide(now as i128 - latency as i128));
        } else {
            self.orders_to.append(request, clip_wide(now as i128 + latency as i128));
        }
    }

    /// Records an order under its id.
    fn keep(&mut self, order: Order)
        requires
            old(self).wf(),
        ensures
            final(self).wf(),
            final(self).same_parts(old(self)),
            final(self)@ == (LocalView {
                orders: old(self)@.orders.insert(order.order_id, order),
                ..old(self)@
            }),
    {
        let ghost ids = self.order_ids@;
        let known = self.orders.contains_key(&order.order_id);
        self.orders.insert(order.order_id, order);
        if !known {
            self.order_ids.push(order.order_id);
            proof {
                lemma_listing_push(ids, order.order_id);
            }
        } else {
            assert forall|id: u64|
                self.order_ids@.contains(id) == self.orders@.dom().contains(id) by {
                assert(ids.contains(id) == old(self).orders@.dom().contains(id));
            }
        }
    }

    /// Sends a new order to the exchange. An id that is already known is
    /// refused. Otherwise the order becomes known with the request `New`, and
    /// the latency model decides whether the order travels to the exchange or
    /// its refusal travels back.
    pub fn submit_order(
        &mut self,
        order_id: u64,
        side: Side,
        price_tick: i64,
        qty: u64,
        order_type: OrdType,
        time_in_force: TimeInForce,
        current_timestamp: i64,
    ) -> (r: Result<(), BacktestError>)
        requires
            old(self).wf(),
        ensures
            final(self).wf(),
            final(self).depth == old(self).depth,
            final(self).price_action == old(self).price_action,
            final(self).last_trades_cap == old(self).last_trades_cap,
            old(self)@.orders.dom().contains(order_id) ==> r == Err::<(), BacktestError>(
                BacktestError::OrderIdExist,
            ),
            !old(self)@.orders.dom().contains(order_id) ==> r is Ok,
            r is Err ==> final(self)@ == old(self)@ && final(self).order_latency == old(
                self,
            ).order_latency,
            r is Ok ==> exists|latency: i64| #[trigger]
                old(self).sent(
                    final(self),
                    new_request(
                        order_id,
                        side,
                        price_tick,
                        qty,
                        order_type,
                        time_in_force,
                        current_timestamp,
                    ),
                    refusal_of(
                        new_request(
                            order_id,
                            side,
                            price_tick,
                            qty,
                            order_type,
                            time_in_force,
                            current_timestamp,
                        ),
                    ),
                    current_timestamp,
                    latency,
                ),
    {
        if self.orders.contains_key(&order_id) {
            return Err(BacktestError::OrderIdExist);
        }
        let mut order = Order::new(order_id, price_tick, qty, side, order_type, time_in_force);
        order.req = Status::New;
        order.local_timestamp = current_timestamp;
        self.keep(order);
        let latency: i64 = self.order_latency.entry(current_timestamp, &order);
        let mut refusal = order;
        refusal.req = Status::Rejected;
        self.dispatch(order, refusal, current_timestamp, latency);
        assert(old(self).sent(self, order, refusal, current_timestamp, latency));
        Ok(())
    }

    /// Asks the exchange to change the price and quantity of an order. An
    /// unknown id is refused, and so is an order that has a request in
    /// flight.
    pub fn modify(
        &mut self,
        order_id: u64,
        price_tick: i64,
        qty: u64,
        current_timestamp: i64,
    ) -> (r: Result<(), BacktestError>)
        requires
            old(self).wf(),
        ensures
            final(self).wf(),
            final(self).depth == old(self).depth,
            final(self).price_action == old(self).price_action,
            final(self).last_trades_cap == old(self).last_trades_cap,
            !old(self)@.orders.dom().contains(order_id) ==> r == Err::<(), BacktestError>(
                BacktestError::OrderNotFound,
            ),
            old(self)@.orders.dom().contains(order_id) && old(self)@.orders[order_id].req
                != Status::Unset ==> r == Err::<(), BacktestError>(
                BacktestError::OrderRequestInProcess,
            ),
            old(self)@.orders.dom().contains(order_id) && old(self)@.orders[order_id].req
                == Status::Unset ==> r is Ok,
            r is Err ==> final(self)@ == old(self)@ && final(self).order_latency == old(
                self,
            ).order_latency,
            r is Ok ==> exists|latency: i64| #[trigger]
                old(self).sent(
                    final(self),
                    change_request(
                        old(self)@.orders[order_id],
                        price_tick,
                        qty,
                        current_timestamp,
                    ),
                    change_refusal(
                        old(self)@.orders[order_id],
                        change_request(
                            old(self)@.orders[order_id],
                            price_tick,
                            qty,
                            current_timestamp,
                        ),
                    ),
                    current_timestamp,
                    latency,
                ),
    {
        let held: Order = match self.orders.get(&order_id) {
            Some(order) => *order,
            None => {
                return Err(BacktestError::OrderNotFound);
            },
        };
        if held.req != Status::Unset {
            return Err(BacktestError::OrderRequestInProcess);
        }
        let mut order = held;
        order.price_tick = price_tick;
        order.qty = qty;
        order.req = Status::Replaced;
        order.local_timestamp = current_timestamp;
        self.keep(order);
        let latency: i64 = self.order_latency.entry(current_timestamp, &order);
        let mut refusal = order;
        refusal.req = Status::Rejected;
        refusal.price_tick = held.price_tick;
        refusal.qty = held.qty;
        self.dispatch(order, refusal, current_timestamp, latency);
        assert(old(self).sent(self, order, refusal, current_timestamp, latency));
        Ok(())
    }

    /// Asks the exchange to cancel an order. An unknown id is refused, and
    /// so is an order that has a request in flight.
    pub fn cancel(&mut self, order_id: u64, current_timestamp: i64) -> (r: Result<
        (),
        BacktestError,
    >)
        requires
            old(self).wf(),
        ensures
            final(self).wf(),
            final(self).depth == old(self).depth,
            final(self).price_action == old(self).price_action,
            final(self).last_trades_cap == old(self).last_trades_cap,
            !old(self)@.orders.dom().contains(order_id) ==> r == Err::<(), BacktestError>(
                BacktestError::OrderNotFound,
            ),
            old(self)@.orders.dom().contains(order_id) && old(self)@.orders[order_id].req
                != Status::Unset ==> r == Err::<(), BacktestError>(
                BacktestError::OrderRequestInProcess,
            ),
            old(self)@.orders.dom().contains(order_id) && old(self)@.orders[order_id].req
                == Status::Unset ==> r is Ok,
            r is Err ==> final(self)@ == old(self)@ && final(self).order_latency == old(
                self,
            ).order_latency,
            r is Ok ==> exists|latency: i64| #[trigger]
                old(self).sent(
                    final(self),
                    cancel_request(old(self)@.orders[order_id]),
                    refusal_of(cancel_request(old(self)@.orders[order_id])),
                    current_timestamp,
                    latency,
                ),
    {
        let held: Order = match self.orders.get(&order_id) {
            Some(order) => *order,
            None => {
                return Err(BacktestError::OrderNotFound);
            },
        };
        if held.req != Status::Unset {
            return Err(BacktestError::OrderRequestInProcess);
        }
        let mut order = held;
        order.req = Status::Canceled;
        self.keep(order);
        let latency: i64 = self.order_latency.entry(current_timestamp, &order);
        let mut refusal = order;
        refusal.req = Status::Rejected;
        self.dispatch(order, refusal, current_timestamp, latency);
        assert(old(self).sent(self, order, refusal, current_timestamp, latency));
        Ok(())
    }

    /// Adds the fill that `order` reports to the running totals.
    fn apply_fill(&mut self, order: &Order)
        ensures
            final(self).state == filled(old(self).state, *order),
            final(self).same_parts(old(self)),
            final(self).order_ids == old(self).order_ids,
            final(self)@ == (LocalView { state: final(self).state, ..old(self)@ }),
    {
        let qty = order.exec_qty as i128;
        let position = self.state.position;
        self.state.position = match order.side {
            Side::Buy => if position > i128::MAX - qty {
                i128::MAX
            } else {
                position + qty
            },
            Side::Sell => if position < i128::MIN + qty {
                i128::MIN
            } else {
                position - qty
            },
            _ => position,
        };
        if self.state.num_trades < u64::MAX {
            self.state.num_trades = self.state.num_trades + 1;
        }
        let volume = self.state.trading_volume;
        self.state.trading_volume = if volume > u128::MAX - order.exec_qty as u128 {
            u128::MAX
        } else {
            volume + order.exec_qty as u128
        };
    }

    /// Applies one response of the exchange to the known orders and, for a
    /// fill, to the running totals.
    pub fn process_recv_order_(&mut self, order: Order) -> (r: Result<(), BacktestError>)
        requires
            old(self).wf(),
        ensures
            r is Ok,
            final(self).wf(),
            final(self).same_parts(old(self)),
            final(self)@ == (LocalView {
                orders: responded(old(self)@.orders, order),
                state: if order.status == Status::Filled {
                    filled(old(self)@.state, order)
                } else {
                    old(self)@.state
                },
                ..old(self)@
            }),
    {
        if order.status == Status::Filled {
            self.apply_fill(&order);
        }
        let held: Option<Order> = match self.orders.get(&order.order_id) {
            Some(o) => Some(*o),
            None => None,
        };
        match held {
            Some(local_order) => {
                let mut local_order = local_order;
                if order.req == Status::Rejected {
                    if order.local_timestamp == local_order.local_timestamp {
                        if local_order.req == Status::New {
                            local_order.req = Status::Unset;
                            local_order.status = Status::Expired;
                        } else {
                            local_order.req = Status::Unset;
                        }
                        self.keep(local_order);
                    }
                } else {
                    local_order.update(&order);
                    self.keep(local_order);
                }
            },
            None => {
                if order.req != Status::Rejected {
                    self.keep(order);
                }
            },
        }
        Ok(())
    }

    /// Applies every response that is due at `timestamp`, in order of
    /// delivery, and tells whether one of them was for the order waited for.
    /// Responses due later stay queued. No response may be overdue.
    pub fn process_recv_order(&mut self, timestamp: i64, wait_resp_order_id: Option<u64>) -> (r:
        Result<bool, BacktestError>)
        requires
            old(self).wf(),
            old(self)@.orders_from.len() > 0 ==> old(self)@.orders_from[0].1 >= timestamp,
        ensures
            final(self).wf(),
            final(self).same_parts(old(self)),
            r == Ok::<bool, BacktestError>(old(self)@.drained(timestamp, wait_resp_order_id).1),
            final(self)@ == old(self)@.drained(timestamp, wait_resp_order_id).0,
            final(self)@.orders_from.len() > 0 ==> final(self)@.orders_from[0].1 > timestamp,
    {
        let mut wait_resp_order_received = false;
        while !self.orders_from.is_empty()
            invariant
                self.wf(),
                self.same_parts(old(self)),
                self@.orders_from.len() > 0 ==> self@.orders_from[0].1 >= timestamp,
                old(self)@.drained(timestamp, wait_resp_order_id).0 == self@.drained(
                    timestamp,
                    wait_resp_order_id,
                ).0,
                old(self)@.drained(timestamp, wait_resp_order_id).1 == (self@.drained(
                    timestamp,
                    wait_resp_order_id,
                ).1 || wait_resp_order_received),
            ensures
                self.wf(),
                self.same_parts(old(self)),
                self@.orders_from.len() > 0 ==> self@.orders_from[0].1 > timestamp,
                old(self)@.drained(timestamp, wait_resp_order_id).0 == self@,
                old(self)@.drained(timestamp, wait_resp_order_id).1 == wait_resp_order_received,
            decreases self@.orders_from.len(),
        {
            let recv_timestamp: i64 = match self.orders_from.earliest_timestamp() {
                Some(t) => t,
                None => {
                    break ;
                },
            };
            if timestamp != recv_timestamp {
                break ;
            }
            let ghost before = self@;
            let order: Order = match self.orders_from.pop_front() {
                Some(message) => message.0,
                None => {
                    break ;
                },
            };
            proof {
                let rest = before.orders_from.drop_first();
                if rest.len() > 0 {
                    assert(rest[0] == before.orders_from[1]);
                }
            }
            // A response that never reached the matching engine carries no
            // exchange timestamp and leaves the measured latency as it is.
            if order.exch_timestamp > 0 {
                self.last_order_latency = Some(
                    (order.local_timestamp, order.exch_timestamp, recv_timestamp),
                );
            }
            match wait_resp_order_id {
                Some(id) => {
                    if order.order_id == id {
                        wait_resp_order_received = true;
                    }
                },
                None => {},
            }
            let _ = self.process_recv_order_(order);
            proof {
                let popped = LocalView { orders_from: before.orders_from.drop_first(), ..before };
                assert(self@ == popped.received(order, timestamp));
            }
        }
        Ok(wait_resp_order_received)
    }

    /// Applies one event of the market feed: a change of the book goes to the
    /// depth, a trade to the kept trades and to the price-action model. Every
    /// event, whatever its kind, sets the measured feed latency.
    pub fn process(&mut self, ev: &Event) -> (r: Result<(), BacktestError>)
        requires
            old(self).wf(),
            is_local_trade(*ev) ==> old(self).price_action.accepts(ev.local_ts),
        ensures
            r is Ok,
            final(self).wf(),
            final(self).order_latency == old(self).order_latency,
            final(self).last_trades_cap == old(self).last_trades_cap,
            is_local_clear(*ev) ==> MD::cleared(
                &old(self).depth,
                &final(self).depth,
                named_side(*ev),
                if named_side(*ev) == Side::Neither {
                    0
                } else {
                    ev.px_tick
                },
            ),
            is_local_depth(*ev) && ev.side == Side::Buy ==> MD::bid_updated(
                &old(self).depth,
                &final(self).depth,
                ev.px_tick,
                ev.qty,
                ev.local_ts,
            ),
            is_local_depth(*ev) && ev.side == Side::Sell ==> MD::ask_updated(
                &old(self).depth,
                &final(self).depth,
                ev.px_tick,
                ev.qty,
                ev.local_ts,
            ),
            !is_local_clear(*ev) && !(is_local_depth(*ev) && named_side(*ev) != Side::Neither)
                ==> final(self).depth == old(self).depth,
            !is_local_trade(*ev) ==> final(self).price_action == old(self).price_action,
            is_local_trade(*ev) ==> PA::flowed(
                &old(self).price_action,
                &final(self).price_action,
                ev.px_tick,
                ev.px_floor,
                ev.qty,
                ev.local_ts,
                flow_side(*ev),
            ),
            final(self)@ == (LocalView {
                trades: if is_local_trade(*ev) && old(self).last_trades_cap > 0 {
                    old(self)@.trades.push(*ev)
                } else {
                    old(self)@.trades
                },
                last_feed_latency: Some((ev.exch_ts, ev.local_ts)),
                ..old(self)@
            }),
    {
        if ev.local {
            match ev.kind {
                EventKind::DepthClear => {
                    match ev.side {
                        Side::Buy => {
                            self.depth.clear_depth(Side::Buy, ev.px_tick);
                        },
                        Side::Sell => {
                            self.depth.clear_depth(Side::Sell, ev.px_tick);
                        },
                        _ => {
                            self.depth.clear_depth(Side::Neither, 0);
                        },
                    }
                },
                EventKind::Depth | EventKind::DepthSnapshot => {
                    match ev.side {
                        Side::Buy => {
                            self.depth.update_bid_depth(ev.px_tick, ev.qty, ev.local_ts);
                        },
                        Side::Sell => {
                            self.depth.update_ask_depth(ev.px_tick, ev.qty, ev.local_ts);
                        },
                        _ => {},
                    }
                },
                EventKind::Trade => {
                    if self.last_trades_cap > 0 {
                        self.trades.push(*ev);
                    }
                    let side = match ev.side {
                        Side::Buy => Side::Buy,
                        _ => Side::Sell,
                    };
                    self.price_action.order_flow(
                        ev.px_tick,
                        ev.px_floor,
                        ev.qty,
                        ev.local_ts,
                        side,
                    );
                },
                EventKind::Other => {},
            }
        }
        self.last_feed_latency = Some((ev.exch_ts, ev.local_ts));
        Ok(())
    }

    /// The time at which the local side sees the event, if it does.
    pub fn event_seen_timestamp(&self, event: &Event) -> (r: Option<i64>)
        ensures
            r == if event.local {
                Some(event.local_ts)
            } else {
                None
            },
    {
        if event.local {
            Some(event.local_ts)
        } else {
            None
        }
    }

    /// Delivery time of the next response, `i64::MAX` when none is queued.
    pub fn earliest_recv_order_timestamp(&self) -> (r: i64)
        ensures
            r == if self@.orders_from.len() > 0 {
                self@.orders_from[0].1
            } else {
                i64::MAX
            },
    {
        match self.orders_from.earliest_timestamp() {
            Some(t) => t,
            None => i64::MAX,
        }
    }

    /// Delivery time of the next request, `i64::MAX` when none is queued.
    pub fn earliest_send_order_timestamp(&self) -> (r: i64)
        ensures
            r == if self@.orders_to.len() > 0 {
                self@.orders_to[0].1
            } else {
                i64::MAX
            },
    {
        match self.orders_to.earliest_timestamp() {
            Some(t) => t,
            None => i64::MAX,
        }
    }

    pub fn position(&self) -> (r: i128)
        ensures
            r == self@.state.position,
    {
        self.state.position
    }

    pub fn state_values(&self) -> (r: &StateValues)
        ensures
            *r == self@.state,
    {
        &self.state
    }

    pub fn depth(&self) -> (r: &MD)
        ensures
            *r == self.depth,
    {
        &self.depth
    }

    pub fn price_action(&self) -> (r: &PA)
        ensures
            *r == self.price_action,
    {
        &self.price_action
    }

    /// The known orders by id. An order that has reached the end of its life
    /// stays known until `clear_inactive_orders` is called.
    pub fn orders(&self) -> (r: &HashMap<u64, Order>)
        ensures
            r@ == self@.orders,
    {
        &self.orders
    }

    pub fn last_trades(&self) -> (r: &[Event])
        ensures
            r@ == self@.trades,
    {
        self.trades.as_slice()
    }

    pub fn clear_last_trades(&mut self)
        ensures
            final(self).same_parts(old(self)),
            final(self).order_ids == old(self).order_ids,
            final(self)@ == (LocalView { trades: Seq::empty(), ..old(self)@ }),
    {
        self.trades.clear();
    }

    pub fn feed_latency(&self) -> (r: Option<(i64, i64)>)
        ensures
            r == self@.last_feed_latency,
    {
        self.last_feed_latency
    }

    pub fn order_latency(&self) -> (r: Option<(i64, i64, i64)>)
        ensures
            r == self@.last_order_latency,
    {
        self.last_order_latency
    }

    /// Forgets the orders that have expired, are filled or are canceled.
    pub fn clear_inactive_orders(&mut self)
        requires
            old(self).wf(),
        ensures
            final(self).wf(),
            final(self).same_parts(old(self)),
            final(self)@ == (LocalView { orders: active(old(self)@.orders), ..old(self)@ }),
    {
        let ghost orders = self.orders@;
        let ghost ids = self.order_ids@;
        let n = self.order_ids.len();
        let mut kept: Vec<u64> = Vec::new();
        let mut i: usize = 0;
        proof {
            lemma_listing_ends(ids);
        }
        while i < n
            invariant
                n == ids.len(),
                i <= n,
                self.order_ids@ == ids,
                ids.no_duplicates(),
                forall|id: u64| ids.contains(id) == orders.dom().contains(id),
                kept@.no_duplicates(),
                forall|id: u64|
                    #![trigger kept@.contains(id)]
                    kept@.contains(id) <==> listed_before(ids, i as int, id) && active(
                        orders,
                    ).dom().contains(id),
                forall|id: u64|
                    #![trigger self.orders@.dom().contains(id)]
                    self.orders@.dom().contains(id) <==> orders.dom().contains(id) && (active(
                        orders,
                    ).dom().contains(id) || listed_from(ids, i as int, id)),
                forall|id: u64|
                    #![trigger self.orders@[id]]
                    self.orders@.dom().contains(id) ==> self.orders@[id] == orders[id],
                self.same_parts(old(self)),
                self.orders_to == old(self).orders_to,
                self.orders_from == old(self).orders_from,
                self.state == old(self).state,
                self.trades == old(self).trades,
                self.last_feed_latency == old(self).last_feed_latency,
                self.last_order_latency == old(self).last_order_latency,
            decreases n - i,
        {
            let id: u64 = self.order_ids[i];
            let ghost kept0 = kept@;
            proof {
                lemma_listing_step(ids, i as int);
            }
            let keep = match self.orders.get(&id) {
                Some(order) => !order.is_inactive(),
                None => false,
            };
            if keep {
                kept.push(id);
                proof {
                    lemma_listing_push(kept0, id);
                }
            } else {
                self.orders.remove(&id);
            }
            i += 1;
        }
        self.order_ids = kept;
        proof {
            assert(self.orders@ =~= active(orders));
        }
    }
}

/// An order with a request on its way is known as that request describes
/// it, whatever the latency model answered. A new order that has just been
/// sent is therefore known with a request in flight: sending it again is
/// refused, and so is a change or a cancellation before a response has
/// resolved the request.
pub proof fn lemma_request_in_flight(
    before: LocalView,
    request: Order,
    refusal: Order,
    now: i64,
    latency: i64,
)
    ensures
        before.asked(request, refusal, now, latency).orders.dom().contains(request.order_id),
        before.asked(request, refusal, now, latency).orders[request.order_id] == request,
        forall|
            order_id: u64,
            side: Side,
            price_tick: i64,
            qty: u64,
            order_type: OrdType,
            time_in_force: TimeInForce,
        |
            (#[trigger] new_request(
                order_id,
                side,
                price_tick,
                qty,
                order_type,
                time_in_force,
                now,
            )).req == Status::New,
        forall|held: Order, price_tick: i64, qty: u64| #[trigger]
            change_request(held, price_tick, qty, now).req == Status::Replaced,
        forall|held: Order| #[trigger] cancel_request(held).req == Status::Canceled,
{
}

} // verus!
