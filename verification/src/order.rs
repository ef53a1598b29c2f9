//! Orders, their life cycle, and the queues that carry them between the
//! local side and the exchange in order of delivery.

use std::collections::VecDeque;
use vstd::prelude::*;
use crate::types::Side;

verus! {

/// Where an order stands, and what is being asked of it.
///
/// As the status of an order: `Unset` until the exchange has answered, `New`
/// once the order is accepted and rests at the exchange, then
/// `PartiallyFilled`, `Filled`, `Canceled` or `Expired`. As the request in
/// flight: `New`, `Replaced` or `Canceled` on the way to the exchange,
/// `Rejected` on a refusal on its way back, and `Unset` when none is in
/// flight.
#[derive(Debug, Clone, Copy, PartialEq, Eq, Structural)]
pub enum Status {
    Unset,
    New,
    Expired,
    Filled,
    Canceled,
    PartiallyFilled,
    Rejected,
    Replaced,
    Unsupported,
}

#[derive(Debug, Clone, Copy, PartialEq, Eq, Structural)]
pub enum TimeInForce {
    /// Good till canceled.
    GTC,
    /// Post only.
    GTX,
    /// Fill or kill.
    FOK,
    /// Immediate or cancel.
    IOC,
    Unsupported,
}

#[derive(Debug, Clone, Copy, PartialEq, Eq, Structural)]
pub enum OrdType {
    Limit,
    Market,
    Unsupported,
}

/// Why the local side refused a request.
#[derive(Debug, Clone, Copy, PartialEq, Eq, Structural)]
pub enum BacktestError {
    /// An order with this id is already known.
    OrderIdExist,
    /// The order has a request in flight that is not resolved yet.
    OrderRequestInProcess,
    /// No order with this id is known.
    OrderNotFound,
}

/// An order: prices in ticks, quantities in lots.
#[derive(Debug, Clone, Copy, PartialEq, Eq, Structural)]
pub struct Order {
    pub order_id: u64,
    pub price_tick: i64,
    pub qty: u64,
    pub leaves_qty: u64,
    pub exec_qty: u64,
    pub exec_price_tick: i64,
    pub side: Side,
    pub order_type: OrdType,
    pub time_in_force: TimeInForce,
    pub status: Status,
    /// The request in flight, `Unset` when none is.
    pub req: Status,
    pub local_timestamp: i64,
    pub exch_timestamp: i64,
    pub maker: bool,
}

impl Order {
    /// A new order that nothing has been asked of yet.
    pub open spec fn spec_new(
        order_id: u64,
        price_tick: i64,
        qty: u64,
        side: Side,
        order_type: OrdType,
        time_in_force: TimeInForce,
    ) -> Order {
        Order {
            order_id,
            price_tick,
            qty,
            leaves_qty: qty,
            exec_qty: 0,
            exec_price_tick: 0,
            side,
            order_type,
            time_in_force,
            status: Status::Unset,
            req: Status::Unset,
            local_timestamp: 0,
            exch_timestamp: 0,
            maker: false,
        }
    }

    #[verifier::when_used_as_spec(spec_new)]
    pub fn new(
        order_id: u64,
        price_tick: i64,
        qty: u64,
        side: Side,
        order_type: OrdType,
        time_in_force: TimeInForce,
    ) -> (r: Order)
        ensures
            r == Order::spec_new(order_id, price_tick, qty, side, order_type, time_in_force),
    {
        Order {
            order_id,
            price_tick,
            qty,
            leaves_qty: qty,
            exec_qty: 0,
            exec_price_tick: 0,
            side,
            order_type,
            time_in_force,
            status: Status::Unset,
            req: Status::Unset,
            local_timestamp: 0,
            exch_timestamp: 0,
            maker: false,
        }
    }

    /// This order brought up to date with a response: everything is taken
    /// from the response but the id, and a timestamp that the response does
    /// not carry (zero or less) is kept.
    pub open spec fn updated(self, response: Order) -> Order {
        Order {
            order_id: self.order_id,
            exch_timestamp: if response.exch_timestamp > 0 {
                response.exch_timestamp
            } else {
                self.exch_timestamp
            },
            local_timestamp: if response.local_timestamp > 0 {
                response.local_timestamp
            } else {
                self.local_timestamp
            },
            ..response
        }
    }

    /// Brings this order up to date with a response.
    pub fn update(&mut self, response: &Order)
        ensures
            *final(self) == old(self).updated(*response),
    {
        self.qty = response.qty;
        self.leaves_qty = response.leaves_qty;
        self.price_tick = response.price_tick;
        self.side = response.side;
        self.time_in_force = response.time_in_force;
        if response.exch_timestamp > 0 {
            self.exch_timestamp = response.exch_timestamp;
        }
        self.status = response.status;
        if response.local_timestamp > 0 {
            self.local_timestamp = response.local_timestamp;
        }
        self.req = response.req;
        self.exec_price_tick = response.exec_price_tick;
        self.exec_qty = response.exec_qty;
        self.maker = response.maker;
        self.order_type = response.order_type;
    }

    /// Whether the order has reached the end of its life.
    pub open spec fn spec_is_inactive(&self) -> bool {
        self.status == Status::Expired || self.status == Status::Filled || self.status
            == Status::Canceled
    }

    #[verifier::when_used_as_spec(spec_is_inactive)]
    pub fn is_inactive(&self) -> (r: bool)
        ensures
            r == self.spec_is_inactive(),
    {
        self.status == Status::Expired || self.status == Status::Filled || self.status
            == Status::Canceled
    }
}

/// A queue of order messages, each with the time at which it is delivered,
/// in order of delivery.
#[derive(Debug)]
pub struct OrderBus {
    pub queue: VecDeque<(Order, i64)>,
}

/// Whether the messages are in order of delivery time.
pub open spec fn in_delivery_order(queue: Seq<(Order, i64)>) -> bool {
    forall|i: int, j: int| 0 <= i < j < queue.len() ==> queue[i].1 <= queue[j].1
}

/// The queue with one more message. A message never overtakes the one
/// before it: it is delivered no earlier than the last message in the queue.
pub open spec fn appended(queue: Seq<(Order, i64)>, order: Order, timestamp: i64) -> Seq<
    (Order, i64),
> {
    if queue.len() > 0 && queue.last().1 > timestamp {
        queue.push((order, queue.last().1))
    } else {
        queue.push((order, timestamp))
    }
}

impl View for OrderBus {
    type V = Seq<(Order, i64)>;

    open spec fn view(&self) -> Seq<(Order, i64)> {
        self.queue@
    }
}

impl OrderBus {
    pub open spec fn wf(&self) -> bool {
        in_delivery_order(self@)
    }

    pub fn new() -> (r: Self)
        ensures
            r@ == Seq::<(Order, i64)>::empty(),
            r.wf(),
    {
        OrderBus { queue: VecDeque::new() }
    }

    pub fn len(&self) -> (r: usize)
        ensures
            r == self@.len(),
    {
        self.queue.len()
    }

    pub fn is_empty(&self) -> (r: bool)
        ensures
            r == (self@.len() == 0),
    {
        self.queue.len() == 0
    }

    /// Delivery time of the first message.
    pub fn earliest_timestamp(&self) -> (r: Option<i64>)
        ensures
            r == if self@.len() > 0 {
                Some(self@[0].1)
            } else {
                None
            },
    {
        if self.queue.len() == 0 {
            None
        } else {
            Some(self.queue[0].1)
        }
    }

    /// Queues a message for delivery at `timestamp`, or right after the last
    /// message if that one is delivered later.
    pub fn append(&mut self, order: Order, timestamp: i64)
        requires
            old(self).wf(),
        ensures
            final(self).wf(),
            final(self)@ == appended(old(self)@, order, timestamp),
    {
        let n = self.queue.len();
        let at: i64 = if n > 0 && self.queue[n - 1].1 > timestamp {
            self.queue[n - 1].1
        } else {
            timestamp
        };
        self.queue.push_back((order, at));
    }

    /// Takes the first message off the queue.
    pub fn pop_front(&mut self) -> (r: Option<(Order, i64)>)
        requires
            old(self).wf(),
        ensures
            final(self).wf(),
            old(self)@.len() == 0 ==> r is None && final(self)@ == old(self)@,
            old(self)@.len() > 0 ==> r == Some(old(self)@[0]) && final(self)@ == old(
                self,
            )@.drop_first(),
    {
        let r = self.queue.pop_front();
        proof {
            if old(self)@.len() > 0 {
            }
        }
        r
    }
}

} // verus!
