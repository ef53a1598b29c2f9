use hftbacktest::local::{
    Event, EventKind, LatencyModel, Local, MarketDepth, StateValues, INVALID_MAX, INVALID_MIN,
};
use hftbacktest::kline::KLine;
use hftbacktest::order::{BacktestError, OrdType, Order, OrderBus, Status, TimeInForce};
use std::collections::HashMap;
use hftbacktest::price_action::{HkPriceAction, PriceAction};
use hftbacktest::types::Side;

const MIN5: i64 = 300_000_000_000;
const NOW: i64 = 1_725_754_200_000_000_000;

/// A latency model that answers with the values it was given, in turn, and
/// repeats the last one.
struct Scripted {
    answers: Vec<i64>,
    asked: usize,
    seen: Vec<(i64, Order)>,
}

impl LatencyModel for Scripted {
    fn entry(&mut self, timestamp: i64, order: &Order) -> i64 {
        self.seen.push((timestamp, *order));
        let at = self.asked.min(self.answers.len() - 1);
        self.asked += 1;
        self.answers[at]
    }
}

/// A book that only writes down what it is told.
#[derive(Default)]
struct Book {
    cleared: Vec<(Side, i64)>,
    bids: Vec<(i64, u64, i64)>,
    asks: Vec<(i64, u64, i64)>,
}

impl MarketDepth for Book {
    fn clear_depth(&mut self, side: Side, clear_upto_tick: i64) {
        self.cleared.push((side, clear_upto_tick));
    }

    fn update_bid_depth(&mut self, price_tick: i64, qty: u64, timestamp: i64) {
        self.bids.push((price_tick, qty, timestamp));
    }

    fn update_ask_depth(&mut self, price_tick: i64, qty: u64, timestamp: i64) {
        self.asks.push((price_tick, qty, timestamp));
    }

    fn best_bid_tick(&self) -> i64 {
        self.bids.last().map(|b| b.0).unwrap_or(INVALID_MIN)
    }

    fn best_ask_tick(&self) -> i64 {
        self.asks.last().map(|a| a.0).unwrap_or(INVALID_MAX)
    }
}

/// A price-action model that only counts the lots it is fed.
struct Tally {
    lots: u64,
    last: (i64, u64, i64, Side),
}

impl PriceAction for Tally {
    fn order_flow(&mut self, tick: i64, _price: i64, qty: u64, timestamp: i64, side: Side) {
        self.lots += qty;
        self.last = (tick, qty, timestamp, side);
    }

    fn swings(&self, _nums: usize) -> Vec<(i64, i64)> {
        Vec::new()
    }

    fn kmaps(&self, _interval: i64, _nums: usize) -> (HashMap<i64, &KLine>, i64) {
        (HashMap::new(), 0)
    }

    fn last_acc_trades(&self) -> (i64, u64, i64, Side) {
        self.last
    }
}

impl Default for Scripted {
    fn default() -> Self {
        Scripted { answers: vec![0], asked: 0, seen: vec![] }
    }
}

fn local_with(answers: Vec<i64>, cap: usize) -> Local<Scripted, Book, HkPriceAction> {
    Local::new(
        Book::default(),
        StateValues { position: 0, num_trades: 0, trading_volume: 0 },
        Scripted { answers, asked: 0, seen: vec![] },
        cap,
        OrderBus::new(),
        OrderBus::new(),
        HkPriceAction::new(vec![MIN5], vec![6, 12, 24]),
    )
}

fn local(latency: i64) -> Local<Scripted, Book, HkPriceAction> {
    local_with(vec![latency], 0)
}

fn submit(
    l: &mut Local<Scripted, Book, HkPriceAction>,
    id: u64,
    now: i64,
) -> Result<(), BacktestError> {
    l.submit_order(id, Side::Buy, 1000, 5, OrdType::Limit, TimeInForce::GTC, now)
}

fn sent(id: u64, now: i64) -> Order {
    let mut order = Order::new(id, 1000, 5, Side::Buy, OrdType::Limit, TimeInForce::GTC);
    order.req = Status::New;
    order.local_timestamp = now;
    order
}

/// The acknowledgement of a request: the order as the exchange holds it.
fn accepted(request: Order, exch_timestamp: i64) -> Order {
    let mut order = request;
    order.req = Status::Unset;
    order.status = Status::New;
    order.exch_timestamp = exch_timestamp;
    order
}

/// A local side whose order 1 rests at the exchange.
fn resting() -> Local<Scripted, Book, HkPriceAction> {
    let mut l = local(10);
    submit(&mut l, 1, NOW).unwrap();
    let request = l.orders_to.pop_front().unwrap().0;
    l.orders_from.append(accepted(request, NOW + 10), NOW + 25);
    assert_eq!(l.process_recv_order(NOW + 25, None), Ok(false));
    l
}

fn trade_event(side: Side, tick: i64, qty: u64, local_ts: i64) -> Event {
    Event {
        kind: EventKind::Trade,
        side,
        local: true,
        exch_ts: local_ts - 3,
        local_ts,
        px_tick: tick,
        px_floor: tick / 10,
        qty,
    }
}

fn depth_event(kind: EventKind, side: Side, tick: i64, qty: u64) -> Event {
    Event {
        kind,
        side,
        local: true,
        exch_ts: NOW,
        local_ts: NOW + 4,
        px_tick: tick,
        px_floor: tick / 10,
        qty,
    }
}

#[test]
fn new_order_has_nothing_asked_of_it() {
    let order = Order::new(7, 1000, 5, Side::Sell, OrdType::Market, TimeInForce::IOC);
    assert_eq!(order.order_id, 7);
    assert_eq!(order.price_tick, 1000);
    assert_eq!(order.qty, 5);
    assert_eq!(order.leaves_qty, 5);
    assert_eq!(order.exec_qty, 0);
    assert_eq!(order.exec_price_tick, 0);
    assert_eq!(order.side, Side::Sell);
    assert_eq!(order.order_type, OrdType::Market);
    assert_eq!(order.time_in_force, TimeInForce::IOC);
    assert_eq!(order.status, Status::Unset);
    assert_eq!(order.req, Status::Unset);
    assert_eq!(order.local_timestamp, 0);
    assert_eq!(order.exch_timestamp, 0);
    assert!(!order.maker);
    assert!(!order.is_inactive());
}

#[test]
fn order_update_keeps_id_and_known_timestamps() {
    let mut order = sent(1, NOW);
    order.exch_timestamp = NOW + 10;
    let mut response = Order::new(99, 1200, 8, Side::Sell, OrdType::Market, TimeInForce::FOK);
    response.status = Status::PartiallyFilled;
    response.leaves_qty = 3;
    response.exec_qty = 5;
    response.exec_price_tick = 1201;
    response.maker = true;
    order.update(&response);
    let mut expected = response;
    expected.order_id = 1;
    expected.local_timestamp = NOW;
    expected.exch_timestamp = NOW + 10;
    assert_eq!(order, expected);
    response.local_timestamp = NOW + 50;
    response.exch_timestamp = NOW + 60;
    order.update(&response);
    assert_eq!(order.local_timestamp, NOW + 50);
    assert_eq!(order.exch_timestamp, NOW + 60);
}

#[test]
fn inactive_orders_are_expired_filled_or_canceled() {
    let mut order = sent(1, NOW);
    for (status, inactive) in [
        (Status::Unset, false),
        (Status::New, false),
        (Status::PartiallyFilled, false),
        (Status::Rejected, false),
        (Status::Replaced, false),
        (Status::Unsupported, false),
        (Status::Expired, true),
        (Status::Filled, true),
        (Status::Canceled, true),
    ] {
        order.status = status;
        assert_eq!(order.is_inactive(), inactive);
    }
}

#[test]
fn bus_delivers_in_order_of_arrival() {
    let mut bus = OrderBus::new();
    assert!(bus.is_empty());
    assert_eq!(bus.earliest_timestamp(), None);
    assert_eq!(bus.pop_front(), None);
    bus.append(sent(1, 0), 100);
    bus.append(sent(2, 0), 150);
    assert_eq!(bus.len(), 2);
    assert_eq!(bus.earliest_timestamp(), Some(100));
    assert_eq!(bus.pop_front(), Some((sent(1, 0), 100)));
    assert_eq!(bus.pop_front(), Some((sent(2, 0), 150)));
    assert!(bus.is_empty());
}

#[test]
fn bus_message_never_overtakes_the_one_before() {
    let mut bus = OrderBus::new();
    bus.append(sent(1, 0), 100);
    bus.append(sent(2, 0), 40);
    bus.append(sent(3, 0), 100);
    bus.append(sent(4, 0), 101);
    assert_eq!(bus.pop_front(), Some((sent(1, 0), 100)));
    assert_eq!(bus.pop_front(), Some((sent(2, 0), 100)));
    assert_eq!(bus.pop_front(), Some((sent(3, 0), 100)));
    assert_eq!(bus.pop_front(), Some((sent(4, 0), 101)));
}

#[test]
fn new_local_side_is_empty() {
    let l = local(10);
    assert!(l.orders().is_empty());
    assert_eq!(l.position(), 0);
    assert_eq!(*l.state_values(), StateValues { position: 0, num_trades: 0, trading_volume: 0 });
    assert!(l.last_trades().is_empty());
    assert_eq!(l.feed_latency(), None);
    assert_eq!(l.order_latency(), None);
    assert_eq!(l.earliest_recv_order_timestamp(), i64::MAX);
    assert_eq!(l.earliest_send_order_timestamp(), i64::MAX);
    assert_eq!(l.depth().best_bid_tick(), INVALID_MIN);
    assert_eq!(l.depth().best_ask_tick(), INVALID_MAX);
    assert_eq!(l.price_action().last_acc_trades(), (0, 0, 0, Side::Neither));
}

#[test]
fn submitted_order_travels_to_the_exchange() {
    let mut l = local(10);
    assert_eq!(submit(&mut l, 1, NOW), Ok(()));
    assert_eq!(l.orders().get(&1), Some(&sent(1, NOW)));
    assert_eq!(l.orders().len(), 1);
    assert_eq!(l.earliest_send_order_timestamp(), NOW + 10);
    assert_eq!(l.earliest_recv_order_timestamp(), i64::MAX);
    assert_eq!(l.orders_to.pop_front(), Some((sent(1, NOW), NOW + 10)));
    assert_eq!(l.order_latency.seen, vec![(NOW, sent(1, NOW))]);
}

#[test]
fn submit_with_zero_latency_arrives_at_once() {
    let mut l = local(0);
    assert_eq!(submit(&mut l, 1, NOW), Ok(()));
    assert_eq!(l.earliest_send_order_timestamp(), NOW);
    assert!(l.orders_from.is_empty());
}

#[test]
fn submit_twice_is_refused() {
    let mut l = local(10);
    assert_eq!(submit(&mut l, 1, NOW), Ok(()));
    assert_eq!(submit(&mut l, 1, NOW + 1), Err(BacktestError::OrderIdExist));
    assert_eq!(l.orders().len(), 1);
    assert_eq!(l.orders().get(&1), Some(&sent(1, NOW)));
    assert_eq!(l.orders_to.len(), 1);
    assert_eq!(l.order_latency.asked, 1);
    assert_eq!(submit(&mut l, 2, NOW + 1), Ok(()));
    assert_eq!(l.orders().len(), 2);
}

#[test]
fn modify_right_after_submit_is_refused() {
    let mut l = local(10);
    assert_eq!(submit(&mut l, 1, NOW), Ok(()));
    assert_eq!(l.modify(1, 1001, 6, NOW + 1), Err(BacktestError::OrderRequestInProcess));
    assert_eq!(l.orders().get(&1), Some(&sent(1, NOW)));
    assert_eq!(l.orders_to.len(), 1);
    assert_eq!(l.order_latency.asked, 1);
}

#[test]
fn cancel_right_after_submit_is_refused() {
    let mut l = local(10);
    assert_eq!(submit(&mut l, 1, NOW), Ok(()));
    assert_eq!(l.cancel(1, NOW + 1), Err(BacktestError::OrderRequestInProcess));
    assert_eq!(l.orders().get(&1), Some(&sent(1, NOW)));
    assert_eq!(l.orders_to.len(), 1);
}

#[test]
fn unknown_order_is_not_found() {
    let mut l = local(10);
    assert_eq!(l.modify(1, 1001, 6, NOW), Err(BacktestError::OrderNotFound));
    assert_eq!(l.cancel(1, NOW), Err(BacktestError::OrderNotFound));
    assert_eq!(submit(&mut l, 1, NOW), Ok(()));
    assert_eq!(l.modify(2, 1001, 6, NOW), Err(BacktestError::OrderNotFound));
    assert_eq!(l.cancel(2, NOW), Err(BacktestError::OrderNotFound));
    assert_eq!(l.order_latency.asked, 1);
}

#[test]
fn negative_latency_refuses_the_order() {
    let mut l = local(-30);
    assert_eq!(submit(&mut l, 1, NOW), Ok(()));
    assert_eq!(l.orders().get(&1), Some(&sent(1, NOW)));
    assert!(l.orders_to.is_empty());
    let mut refusal = sent(1, NOW);
    refusal.req = Status::Rejected;
    assert_eq!(l.orders_from.queue.front(), Some(&(refusal, NOW + 30)));
    assert_eq!(l.earliest_recv_order_timestamp(), NOW + 30);
    // The refusal arrives after the absolute value of the latency.
    assert_eq!(l.process_recv_order(NOW + 29, Some(1)), Ok(false));
    assert_eq!(l.orders().get(&1).unwrap().req, Status::New);
    assert_eq!(l.process_recv_order(NOW + 30, Some(1)), Ok(true));
    let mut expired = sent(1, NOW);
    expired.req = Status::Unset;
    expired.status = Status::Expired;
    assert_eq!(l.orders().get(&1), Some(&expired));
    assert!(l.orders_from.is_empty());
    assert_eq!(l.order_latency(), None);
    l.clear_inactive_orders();
    assert!(l.orders().is_empty());
    assert_eq!(submit(&mut l, 1, NOW + 40), Ok(()));
}

#[test]
fn delivery_time_saturates() {
    let mut l = local_with(vec![i64::MAX, i64::MIN], 0);
    assert_eq!(submit(&mut l, 1, 10), Ok(()));
    assert_eq!(l.earliest_send_order_timestamp(), i64::MAX);
    assert_eq!(submit(&mut l, 2, 10), Ok(()));
    assert_eq!(l.earliest_recv_order_timestamp(), i64::MAX);
    let mut l = local_with(vec![5], 0);
    assert_eq!(submit(&mut l, 1, i64::MIN), Ok(()));
    assert_eq!(l.earliest_send_order_timestamp(), i64::MIN + 5);
}

#[test]
fn acknowledgement_lets_the_order_rest() {
    let l = resting();
    let order = l.orders().get(&1).unwrap();
    assert_eq!(order.req, Status::Unset);
    assert_eq!(order.status, Status::New);
    assert_eq!(order.exch_timestamp, NOW + 10);
    assert_eq!(order.local_timestamp, NOW);
    assert_eq!(l.order_latency(), Some((NOW, NOW + 10, NOW + 25)));
    assert!(l.orders_from.is_empty());
}

#[test]
fn modify_sends_the_new_price_and_quantity() {
    let mut l = resting();
    assert_eq!(l.modify(1, 1001, 6, NOW + 100), Ok(()));
    let mut expected = accepted(sent(1, NOW), NOW + 10);
    expected.price_tick = 1001;
    expected.qty = 6;
    expected.req = Status::Replaced;
    expected.local_timestamp = NOW + 100;
    assert_eq!(l.orders().get(&1), Some(&expected));
    assert_eq!(l.orders_to.pop_front(), Some((expected, NOW + 110)));
    assert_eq!(l.modify(1, 1002, 7, NOW + 101), Err(BacktestError::OrderRequestInProcess));
    assert_eq!(l.cancel(1, NOW + 101), Err(BacktestError::OrderRequestInProcess));
}

#[test]
fn refused_modify_carries_the_old_price_and_quantity() {
    let mut l = resting();
    l.order_latency.answers = vec![-7];
    assert_eq!(l.modify(1, 1001, 6, NOW + 100), Ok(()));
    assert!(l.orders_to.is_empty());
    let mut refusal = accepted(sent(1, NOW), NOW + 10);
    refusal.req = Status::Rejected;
    refusal.local_timestamp = NOW + 100;
    assert_eq!(l.orders_from.queue.front(), Some(&(refusal, NOW + 107)));
    assert_eq!(l.process_recv_order(NOW + 107, Some(2)), Ok(false));
    // The refused request is dropped; the order keeps what was asked of it.
    let order = l.orders().get(&1).unwrap();
    assert_eq!(order.req, Status::Unset);
    assert_eq!(order.status, Status::New);
    assert_eq!((order.price_tick, order.qty), (1001, 6));
    assert_eq!(l.order_latency(), Some((NOW + 100, NOW + 10, NOW + 107)));
}

#[test]
fn cancel_asks_without_touching_the_timestamp() {
    let mut l = resting();
    assert_eq!(l.cancel(1, NOW + 100), Ok(()));
    let mut expected = accepted(sent(1, NOW), NOW + 10);
    expected.req = Status::Canceled;
    assert_eq!(l.orders().get(&1), Some(&expected));
    assert_eq!(l.orders_to.pop_front(), Some((expected, NOW + 110)));
    let mut done = expected;
    done.req = Status::Unset;
    done.status = Status::Canceled;
    done.exch_timestamp = NOW + 110;
    l.orders_from.append(done, NOW + 120);
    assert_eq!(l.process_recv_order(NOW + 120, Some(1)), Ok(true));
    assert_eq!(l.orders().get(&1), Some(&done));
    // A canceled order stays known until the sweep.
    assert_eq!(l.cancel(1, NOW + 130), Ok(()));
    assert_eq!(l.orders().len(), 1);
    l.clear_inactive_orders();
    assert!(l.orders().is_empty());
    assert_eq!(l.cancel(1, NOW + 140), Err(BacktestError::OrderNotFound));
}

#[test]
fn refused_cancel_with_another_timestamp_is_ignored() {
    let mut l = resting();
    l.order_latency.answers = vec![-7];
    assert_eq!(l.cancel(1, NOW + 100), Ok(()));
    let mut refusal = l.orders_from.pop_front().unwrap().0;
    assert_eq!(refusal.req, Status::Rejected);
    refusal.local_timestamp = NOW + 1;
    l.orders_from.append(refusal, NOW + 107);
    assert_eq!(l.process_recv_order(NOW + 107, None), Ok(false));
    assert_eq!(l.orders().get(&1).unwrap().req, Status::Canceled);
}

#[test]
fn refusal_of_an_unknown_order_is_dropped() {
    let mut l = local(10);
    let mut refusal = sent(9, NOW);
    refusal.req = Status::Rejected;
    assert_eq!(l.process_recv_order_(refusal), Ok(()));
    assert!(l.orders().is_empty());
    let response = accepted(sent(9, NOW), NOW + 1);
    assert_eq!(l.process_recv_order_(response), Ok(()));
    assert_eq!(l.orders().get(&9), Some(&response));
}

#[test]
fn fills_move_the_position() {
    let mut l = resting();
    let mut fill = accepted(sent(1, NOW), NOW + 200);
    fill.status = Status::Filled;
    fill.exec_qty = 5;
    fill.exec_price_tick = 1000;
    fill.leaves_qty = 0;
    l.orders_from.append(fill, NOW + 210);
    assert_eq!(l.process_recv_order(NOW + 210, Some(1)), Ok(true));
    assert_eq!(l.position(), 5);
    assert_eq!(*l.state_values(), StateValues { position: 5, num_trades: 1, trading_volume: 5 });
    assert_eq!(l.orders().get(&1).unwrap().status, Status::Filled);
    let mut sell = Order::new(2, 1010, 8, Side::Sell, OrdType::Limit, TimeInForce::GTC);
    sell.status = Status::Filled;
    sell.exec_qty = 8;
    sell.exch_timestamp = NOW + 300;
    assert_eq!(l.process_recv_order_(sell), Ok(()));
    assert_eq!(*l.state_values(), StateValues { position: -3, num_trades: 2, trading_volume: 13 });
    // A partial fill is reported but does not count as a fill.
    let mut partial = sell;
    partial.order_id = 3;
    partial.status = Status::PartiallyFilled;
    assert_eq!(l.process_recv_order_(partial), Ok(()));
    assert_eq!(l.position(), -3);
    l.clear_inactive_orders();
    assert_eq!(l.orders().len(), 1);
    assert!(l.orders().contains_key(&3));
}

#[test]
fn totals_saturate() {
    let mut l = Local::new(
        Book::default(),
        StateValues {
            position: i128::MAX - 2,
            num_trades: u64::MAX,
            trading_volume: u128::MAX - 1,
        },
        Scripted { answers: vec![1], asked: 0, seen: vec![] },
        0,
        OrderBus::new(),
        OrderBus::new(),
        HkPriceAction::new(vec![], vec![]),
    );
    let mut fill = Order::new(1, 1000, 5, Side::Buy, OrdType::Limit, TimeInForce::GTC);
    fill.status = Status::Filled;
    fill.exec_qty = 5;
    assert_eq!(l.process_recv_order_(fill), Ok(()));
    assert_eq!(
        *l.state_values(),
        StateValues { position: i128::MAX, num_trades: u64::MAX, trading_volume: u128::MAX }
    );
    l.state.position = i128::MIN + 1;
    fill.side = Side::Sell;
    fill.order_id = 2;
    assert_eq!(l.process_recv_order_(fill), Ok(()));
    assert_eq!(l.position(), i128::MIN);
    fill.side = Side::Neither;
    fill.order_id = 3;
    assert_eq!(l.process_recv_order_(fill), Ok(()));
    assert_eq!(l.position(), i128::MIN);
}

#[test]
fn responses_due_later_wait() {
    let mut l = local(10);
    for id in 1..=3 {
        submit(&mut l, id, NOW).unwrap();
    }
    l.orders_from.append(accepted(sent(1, NOW), NOW + 10), NOW + 20);
    l.orders_from.append(accepted(sent(2, NOW), NOW + 11), NOW + 20);
    l.orders_from.append(accepted(sent(3, NOW), NOW + 12), NOW + 30);
    assert_eq!(l.process_recv_order(NOW + 15, Some(1)), Ok(false));
    assert_eq!(l.orders_from.len(), 3);
    assert_eq!(l.process_recv_order(NOW + 20, Some(3)), Ok(false));
    assert_eq!(l.orders_from.len(), 1);
    assert_eq!(l.order_latency(), Some((NOW, NOW + 11, NOW + 20)));
    assert_eq!(l.orders().get(&1).unwrap().status, Status::New);
    assert_eq!(l.orders().get(&2).unwrap().status, Status::New);
    assert_eq!(l.orders().get(&3).unwrap().status, Status::Unset);
    assert_eq!(l.earliest_recv_order_timestamp(), NOW + 30);
    assert_eq!(l.process_recv_order(NOW + 30, Some(3)), Ok(true));
    assert!(l.orders_from.is_empty());
    assert_eq!(l.process_recv_order(NOW + 31, Some(3)), Ok(false));
}

#[test]
fn sweep_keeps_the_active_orders() {
    let mut l = local(10);
    for (id, status) in [
        (1, Status::New),
        (2, Status::Filled),
        (3, Status::Canceled),
        (4, Status::Expired),
        (5, Status::PartiallyFilled),
        (6, Status::Unset),
    ] {
        let mut order = sent(id, NOW);
        order.status = status;
        order.exec_qty = 0;
        l.process_recv_order_(order).unwrap();
    }
    assert_eq!(l.orders().len(), 6);
    l.clear_inactive_orders();
    let mut ids: Vec<u64> = l.orders().keys().copied().collect();
    ids.sort();
    assert_eq!(ids, vec![1, 5, 6]);
    assert_eq!(submit(&mut l, 2, NOW), Ok(()));
    assert_eq!(submit(&mut l, 1, NOW), Err(BacktestError::OrderIdExist));
    l.clear_inactive_orders();
    assert_eq!(l.orders().len(), 4);
}

#[test]
fn trade_events_feed_the_price_action() {
    let mut l = local_with(vec![10], 4);
    let buy = trade_event(Side::Buy, 1000, 5, NOW + 1);
    let sell = trade_event(Side::Sell, 1001, 7, NOW + 2);
    assert_eq!(l.process(&buy), Ok(()));
    assert_eq!(l.feed_latency(), Some((NOW - 2, NOW + 1)));
    assert_eq!(l.process(&sell), Ok(()));
    assert_eq!(l.feed_latency(), Some((NOW - 1, NOW + 2)));
    assert_eq!(l.last_trades(), &[buy, sell]);
    assert_eq!(l.price_action().last_acc_trades(), (1001, 7, NOW + 2, Side::Sell));
    let (candles, cursor) = l.price_action().kmaps(MIN5, 1);
    assert_eq!(cursor, NOW);
    assert_eq!(candles[&NOW].buy_volume, 5);
    assert_eq!(candles[&NOW].sell_volume, 7);
    assert_eq!(candles[&NOW].close_tick, 1001);
    assert_eq!(l.price_action().price_tick_qtys.get(&100), Some(&(12, NOW + 2)));
    l.clear_last_trades();
    assert!(l.last_trades().is_empty());
    assert!(l.depth().bids.is_empty());
}

#[test]
fn trade_that_is_not_a_buy_flows_as_a_sell() {
    let mut l = local(10);
    assert_eq!(l.process(&trade_event(Side::Neither, 1000, 5, NOW + 1)), Ok(()));
    assert_eq!(l.price_action().last_acc_trades(), (1000, 5, NOW + 1, Side::Sell));
}

#[test]
fn trades_are_kept_only_on_request() {
    let mut l = local(10);
    assert_eq!(l.process(&trade_event(Side::Buy, 1000, 5, NOW + 1)), Ok(()));
    assert!(l.last_trades().is_empty());
    assert_eq!(l.price_action().last_acc_trades(), (1000, 5, NOW + 1, Side::Buy));
}

#[test]
fn depth_events_reach_the_book() {
    let mut l = local(10);
    l.process(&depth_event(EventKind::Depth, Side::Buy, 999, 3)).unwrap();
    l.process(&depth_event(EventKind::DepthSnapshot, Side::Sell, 1001, 4)).unwrap();
    l.process(&depth_event(EventKind::DepthSnapshot, Side::Buy, 998, 5)).unwrap();
    l.process(&depth_event(EventKind::Depth, Side::Neither, 1000, 6)).unwrap();
    l.process(&depth_event(EventKind::DepthClear, Side::Buy, 990, 0)).unwrap();
    l.process(&depth_event(EventKind::DepthClear, Side::Sell, 1010, 0)).unwrap();
    l.process(&depth_event(EventKind::DepthClear, Side::Neither, 1000, 0)).unwrap();
    assert_eq!(l.depth().bids, vec![(999, 3, NOW + 4), (998, 5, NOW + 4)]);
    assert_eq!(l.depth().asks, vec![(1001, 4, NOW + 4)]);
    assert_eq!(
        l.depth().cleared,
        vec![(Side::Buy, 990), (Side::Sell, 1010), (Side::Neither, 0)]
    );
    assert_eq!(l.depth().best_bid_tick(), 998);
    assert_eq!(l.feed_latency(), Some((NOW, NOW + 4)));
    assert_eq!(l.price_action().last_acc_trades(), (0, 0, 0, Side::Neither));
}

#[test]
fn events_of_the_exchange_side_only_set_the_latency() {
    let mut l = local_with(vec![10], 4);
    let mut ev = trade_event(Side::Buy, 1000, 5, NOW + 1);
    ev.local = false;
    assert_eq!(l.event_seen_timestamp(&ev), None);
    assert_eq!(l.process(&ev), Ok(()));
    assert!(l.last_trades().is_empty());
    assert_eq!(l.price_action().last_acc_trades(), (0, 0, 0, Side::Neither));
    assert_eq!(l.feed_latency(), Some((NOW - 2, NOW + 1)));
    let mut other = depth_event(EventKind::Other, Side::Buy, 1000, 1);
    assert_eq!(l.event_seen_timestamp(&other), Some(NOW + 4));
    assert_eq!(l.process(&other), Ok(()));
    other.kind = EventKind::Depth;
    other.local = false;
    assert_eq!(l.process(&other), Ok(()));
    assert!(l.depth().bids.is_empty());
}

#[test]
fn dispatch_routes_by_the_sign_of_the_latency() {
    let mut l = local(10);
    let request = sent(1, NOW);
    let mut refusal = request;
    refusal.req = Status::Rejected;
    l.dispatch(request, refusal, NOW, 0);
    l.dispatch(request, refusal, NOW, -1);
    l.dispatch(request, refusal, NOW, 1);
    assert_eq!(l.orders_to.pop_front(), Some((request, NOW)));
    assert_eq!(l.orders_to.pop_front(), Some((request, NOW + 1)));
    assert_eq!(l.orders_from.pop_front(), Some((refusal, NOW + 1)));
    assert!(l.orders().is_empty());
}

#[test]
fn local_side_feeds_any_price_action_model() {
    let mut l = Local::new(
        Book::default(),
        StateValues { position: 0, num_trades: 0, trading_volume: 0 },
        Scripted::default(),
        0,
        OrderBus::new(),
        OrderBus::new(),
        Tally { lots: 0, last: (0, 0, 0, Side::Neither) },
    );
    l.process(&trade_event(Side::Buy, 1000, 5, NOW + 1)).unwrap();
    l.process(&trade_event(Side::Sell, 1001, 7, i64::MAX)).unwrap();
    l.process(&depth_event(EventKind::Depth, Side::Buy, 999, 3)).unwrap();
    assert_eq!(l.price_action().lots, 12);
    assert_eq!(l.price_action().last_acc_trades(), (1001, 7, i64::MAX, Side::Sell));
    assert!(l.price_action().swings(3).is_empty());
    assert_eq!(l.price_action().kmaps(MIN5, 3).1, 0);
}
