use orderbook::engine::service::match_order;
use orderbook::inputs::{Order, OrderBook, OrderType, Symbol};

fn order(id: u64, price: u64, qty: u64, is_buy: bool, order_type: OrderType) -> Order {
    Order { id, price, qty, is_buy, order_type, time: String::from("2024-01-01 00:00:00 UTC") }
}

fn limit(id: u64, price: u64, qty: u64, is_buy: bool) -> Order {
    order(id, price, qty, is_buy, OrderType::Limit)
}

fn fills(trades: &[Order]) -> Vec<(u64, u64, u64, bool)> {
    trades.iter().map(|t| (t.id, t.price, t.qty, t.is_buy)).collect()
}

fn resting_book() -> OrderBook {
    let mut book = OrderBook::new(Symbol::BTCUSD, 10_000);
    assert!(match_order(&mut book, &limit(1, 10_000, 5, true), OrderType::Limit).is_empty());
    assert!(match_order(&mut book, &limit(2, 10_100, 3, false), OrderType::Limit).is_empty());
    book
}

#[test]
fn resting_buy_and_sell_do_not_cross() {
    let book = resting_book();
    assert_eq!(book.current_best_bid, Some(10_000));
    assert_eq!(book.current_best_ask, Some(10_100));
    let depth = book.get_depth(10);
    assert_eq!(depth.bids, vec![(10_000, 5)]);
    assert_eq!(depth.asks, vec![(10_100, 3)]);
    assert_eq!(book.last_trade_price, None);
    assert_eq!(book.current_price, Some(10_000));
}

#[test]
fn limit_buy_crosses_one_level() {
    let mut book = resting_book();
    let trades = match_order(&mut book, &limit(3, 10_100, 2, true), OrderType::Limit);
    assert_eq!(fills(&trades), vec![(2, 10_100, 2, false)]);
    assert_eq!(trades[0].order_type, OrderType::Limit);
    assert_eq!(book.current_best_ask, Some(10_100));
    assert_eq!(book.get_depth(10).asks, vec![(10_100, 1)]);
    assert_eq!(book.get_depth(10).bids, vec![(10_000, 5)]);
    assert_eq!(book.last_trade_price, Some(10_100));
    assert_eq!(book.current_price, Some(10_100));
}

#[test]
fn limit_buy_sweeps_and_rests_residual() {
    let mut book = OrderBook::new(Symbol::ETHUSD, 10_000);
    match_order(&mut book, &limit(1, 10_100, 2, false), OrderType::Limit);
    match_order(&mut book, &limit(2, 10_200, 3, false), OrderType::Limit);
    let trades = match_order(&mut book, &limit(3, 10_200, 10, true), OrderType::Limit);
    assert_eq!(fills(&trades), vec![(1, 10_100, 2, false), (2, 10_200, 3, false)]);
    let filled: u64 = trades.iter().map(|t| t.qty).sum();
    assert_eq!(10 - filled, 5);
    assert_eq!(book.current_best_bid, Some(10_200));
    assert_eq!(book.current_best_ask, None);
    assert!(book.asks.is_empty());
    let resting = &book.bids[&10_200];
    assert_eq!(resting.len(), 1);
    assert_eq!((resting[0].id, resting[0].qty, resting[0].is_buy), (3, 5, true));
    assert_eq!(resting[0].time, "2024-01-01 00:00:00 UTC");
}

#[test]
fn market_buy_against_empty_asks() {
    let mut book = OrderBook::new(Symbol::SOLUSD, 10_000);
    let trades = match_order(&mut book, &order(1, 0, 4, true, OrderType::Market), OrderType::Market);
    assert!(trades.is_empty());
    assert!(book.bids.is_empty());
    assert!(book.asks.is_empty());
    assert_eq!(book.current_best_ask, None);
    assert_eq!(book.current_best_bid, None);
    assert_eq!(book.current_price, Some(10_000));
}

#[test]
fn market_sell_partial_fill() {
    let mut book = OrderBook::new(Symbol::BTCUSD, 10_000);
    match_order(&mut book, &limit(1, 9_900, 1, true), OrderType::Limit);
    match_order(&mut book, &limit(2, 9_800, 2, true), OrderType::Limit);
    let trades = match_order(&mut book, &order(3, 0, 5, false, OrderType::Market), OrderType::Market);
    assert_eq!(fills(&trades), vec![(1, 9_900, 1, true), (2, 9_800, 2, true)]);
    let filled: u64 = trades.iter().map(|t| t.qty).sum();
    assert_eq!(5 - filled, 2);
    assert!(book.bids.is_empty());
    assert!(book.asks.is_empty());
    assert_eq!(book.last_trade_price, Some(9_800));
    assert_eq!(book.current_price, Some(9_800));
    assert_eq!(book.current_best_bid, None);
}

#[test]
fn time_priority_at_one_price() {
    let mut book = OrderBook::new(Symbol::BTCUSD, 10_000);
    match_order(&mut book, &limit(11, 10_000, 1, false), OrderType::Limit);
    match_order(&mut book, &limit(12, 10_000, 1, false), OrderType::Limit);
    match_order(&mut book, &limit(13, 10_000, 1, false), OrderType::Limit);
    let trades = match_order(&mut book, &limit(14, 10_000, 2, true), OrderType::Limit);
    assert_eq!(fills(&trades), vec![(11, 10_000, 1, false), (12, 10_000, 1, false)]);
    let level = &book.asks[&10_000];
    assert_eq!(level.len(), 1);
    assert_eq!(level[0].id, 13);
    assert!(book.bids.is_empty());
}
