use orderbook::engine::ladder::{highest_price, ladder_prices, lowest_price};
use orderbook::engine::service::{add_order, match_order, update_best_prices};
use orderbook::inputs::{Order, OrderBook, OrderType, Symbol};

fn limit(id: u64, price: u64, qty: u64, is_buy: bool) -> Order {
    Order { id, price, qty, is_buy, order_type: OrderType::Limit, time: String::from("t") }
}

fn market(id: u64, qty: u64, is_buy: bool) -> Order {
    Order { id, price: 0, qty, is_buy, order_type: OrderType::Market, time: String::from("t") }
}

fn assert_book_invariants(book: &OrderBook) {
    assert_eq!(book.current_best_bid, book.bids.keys().max().copied());
    assert_eq!(book.current_best_ask, book.asks.keys().min().copied());
    for (price, level) in book.bids.iter() {
        assert!(!level.is_empty());
        for o in level {
            assert!(o.qty > 0);
            assert!(o.is_buy);
            assert_eq!(o.price, *price);
        }
    }
    for (price, level) in book.asks.iter() {
        assert!(!level.is_empty());
        for o in level {
            assert!(o.qty > 0);
            assert!(!o.is_buy);
            assert_eq!(o.price, *price);
        }
    }
    if let (Some(bid), Some(ask)) = (book.current_best_bid, book.current_best_ask) {
        assert!(bid < ask);
    }
}

#[test]
fn new_book_is_empty_with_seed_price() {
    let book = OrderBook::new(Symbol::ETHUSD, 250_000);
    assert_eq!(book.symbol, Symbol::ETHUSD);
    assert_eq!(book.current_price, Some(250_000));
    assert_eq!(book.last_trade_price, None);
    assert_eq!(book.current_best_bid, None);
    assert_eq!(book.current_best_ask, None);
    assert!(book.bids.is_empty() && book.asks.is_empty());
    let state = book.snapshot();
    assert_eq!(state.symbol, Symbol::ETHUSD);
    assert_eq!(state.current_price, Some(250_000));
    assert_eq!(state.best_bid, None);
    assert_eq!(state.best_ask, None);
    assert_eq!(state.last_trade_price, None);
}

#[test]
fn add_order_rests_without_matching() {
    let mut book = OrderBook::new(Symbol::BTCUSD, 100);
    book.add_order(limit(1, 100, 5, false));
    book.add_order(limit(2, 105, 1, true));
    assert_eq!(book.current_best_bid, Some(105));
    assert_eq!(book.current_best_ask, Some(100));
    assert_eq!(book.asks[&100][0].qty, 5);
    assert_eq!(book.bids[&105][0].qty, 1);
}

#[test]
fn add_order_appends_in_arrival_order() {
    let mut book = OrderBook::new(Symbol::BTCUSD, 100);
    add_order(&mut book, limit(1, 100, 5, true));
    add_order(&mut book, limit(2, 100, 7, true));
    add_order(&mut book, limit(3, 99, 1, true));
    let ids: Vec<u64> = book.bids[&100].iter().map(|o| o.id).collect();
    assert_eq!(ids, vec![1, 2]);
    assert_eq!(book.current_best_bid, Some(100));
    assert_eq!(book.get_depth(5).bids, vec![(100, 12), (99, 1)]);
    assert_book_invariants(&book);
}

#[test]
fn top_of_book_follows_every_operation() {
    let mut book = OrderBook::new(Symbol::BTCUSD, 100);
    let steps = vec![
        (limit(1, 100, 5, true), OrderType::Limit),
        (limit(2, 103, 4, false), OrderType::Limit),
        (limit(3, 101, 2, true), OrderType::Limit),
        (limit(4, 102, 6, false), OrderType::Limit),
        (limit(5, 102, 9, true), OrderType::Limit),
        (market(6, 3, false), OrderType::Market),
        (limit(7, 90, 20, false), OrderType::Limit),
        (market(8, 100, true), OrderType::Market),
    ];
    for (incoming, kind) in steps {
        match_order(&mut book, &incoming, kind);
        assert_book_invariants(&book);
    }
}

#[test]
fn matching_conserves_quantity() {
    let mut book = OrderBook::new(Symbol::BTCUSD, 100);
    match_order(&mut book, &limit(1, 101, 4, false), OrderType::Limit);
    match_order(&mut book, &limit(2, 102, 6, false), OrderType::Limit);
    match_order(&mut book, &limit(3, 104, 1, false), OrderType::Limit);
    let incoming = limit(4, 103, 25, true);
    let trades = match_order(&mut book, &incoming, OrderType::Limit);
    let filled: u64 = trades.iter().map(|t| t.qty).sum();
    assert_eq!(filled, 10);
    assert!(filled <= incoming.qty);
    for t in &trades {
        assert!(t.qty <= incoming.qty);
        assert!(t.price <= incoming.price);
    }
    assert_eq!(trades[0].qty, 4);
    assert_eq!(trades[1].qty, 6);
    assert_eq!(book.bids[&103][0].qty, 15);
    assert_eq!(book.current_best_ask, Some(104));
    assert_book_invariants(&book);
}

#[test]
fn partial_fill_leaves_resting_order_at_head() {
    let mut book = OrderBook::new(Symbol::BTCUSD, 100);
    match_order(&mut book, &limit(1, 100, 10, true), OrderType::Limit);
    match_order(&mut book, &limit(2, 100, 10, true), OrderType::Limit);
    let trades = match_order(&mut book, &limit(3, 100, 4, false), OrderType::Limit);
    assert_eq!(trades.len(), 1);
    assert_eq!((trades[0].id, trades[0].qty, trades[0].is_buy), (1, 4, true));
    let level = &book.bids[&100];
    assert_eq!((level[0].id, level[0].qty), (1, 6));
    assert_eq!((level[1].id, level[1].qty), (2, 10));
    assert!(book.asks.is_empty());
}

#[test]
fn limit_sell_stops_at_its_price() {
    let mut book = OrderBook::new(Symbol::BTCUSD, 100);
    match_order(&mut book, &limit(1, 100, 1, true), OrderType::Limit);
    match_order(&mut book, &limit(2, 99, 1, true), OrderType::Limit);
    match_order(&mut book, &limit(3, 98, 1, true), OrderType::Limit);
    let trades = match_order(&mut book, &limit(4, 99, 5, false), OrderType::Limit);
    let prices: Vec<u64> = trades.iter().map(|t| t.price).collect();
    assert_eq!(prices, vec![100, 99]);
    assert_eq!(book.current_best_bid, Some(98));
    assert_eq!(book.current_best_ask, Some(99));
    assert_eq!(book.asks[&99][0].qty, 3);
    assert_eq!(book.asks[&99][0].id, 4);
}

#[test]
fn market_order_never_rests() {
    let mut book = OrderBook::new(Symbol::BTCUSD, 100);
    match_order(&mut book, &limit(1, 101, 2, false), OrderType::Limit);
    let trades = match_order(&mut book, &market(2, 5, true), OrderType::Market);
    assert_eq!(trades.len(), 1);
    assert_eq!(trades[0].price, 101);
    assert!(book.bids.is_empty());
    assert!(book.asks.is_empty());
}

#[test]
fn incoming_without_quantity_changes_nothing() {
    let mut book = OrderBook::new(Symbol::BTCUSD, 100);
    match_order(&mut book, &limit(1, 101, 2, false), OrderType::Limit);
    let trades = match_order(&mut book, &limit(2, 101, 0, true), OrderType::Limit);
    assert!(trades.is_empty());
    assert!(book.bids.is_empty());
    assert_eq!(book.asks[&101][0].qty, 2);
    assert_eq!(book.last_trade_price, None);
}

#[test]
fn resting_limit_is_seen_in_depth() {
    let mut book = OrderBook::new(Symbol::BTCUSD, 100);
    match_order(&mut book, &limit(1, 100, 5, true), OrderType::Limit);
    match_order(&mut book, &limit(2, 105, 5, false), OrderType::Limit);
    let trades = match_order(&mut book, &limit(3, 100, 7, true), OrderType::Limit);
    assert!(trades.is_empty());
    assert_eq!(book.get_depth(10).bids, vec![(100, 12)]);
    let trades = match_order(&mut book, &limit(4, 104, 2, false), OrderType::Limit);
    assert!(trades.is_empty());
    assert_eq!(book.get_depth(10).asks, vec![(104, 2), (105, 5)]);
}

#[test]
fn depth_lists_best_levels_first_and_no_more_than_asked() {
    let mut book = OrderBook::new(Symbol::BTCUSD, 100);
    for (i, price) in [95u64, 99, 97, 98, 96].iter().enumerate() {
        book.add_order(limit(i as u64, *price, 1 + i as u64, true));
    }
    for (i, price) in [105u64, 101, 103, 102, 104].iter().enumerate() {
        book.add_order(limit(10 + i as u64, *price, 10 + i as u64, false));
    }
    let depth = book.get_depth(3);
    assert_eq!(depth.bids, vec![(99, 2), (98, 4), (97, 3)]);
    assert_eq!(depth.asks, vec![(101, 11), (102, 13), (103, 12)]);
    let none = book.get_depth(0);
    assert!(none.bids.is_empty() && none.asks.is_empty());
    let all = book.get_depth(100);
    assert_eq!(all.bids.len(), 5);
    assert_eq!(all.asks.len(), 5);
    assert_eq!(all.bids[4], (95, 1));
    assert_eq!(all.asks[4], (105, 10));
}

#[test]
fn try_get_depth_refuses_totals_beyond_64_bits() {
    let mut book = OrderBook::new(Symbol::BTCUSD, 100);
    book.add_order(limit(1, 100, u64::MAX, true));
    assert_eq!(book.try_get_depth(1).unwrap().bids, vec![(100, u64::MAX)]);
    book.add_order(limit(2, 100, 1, true));
    assert!(book.try_get_depth(1).is_none());
    book.add_order(limit(3, 101, 1, true));
    assert_eq!(book.try_get_depth(1).unwrap().bids, vec![(101, 1)]);
    assert!(book.try_get_depth(2).is_none());
}

#[test]
fn update_best_prices_recomputes_the_cache() {
    let mut book = OrderBook::new(Symbol::BTCUSD, 100);
    book.add_order(limit(1, 100, 1, true));
    book.add_order(limit(2, 110, 1, false));
    book.current_best_bid = None;
    book.current_best_ask = Some(1);
    update_best_prices(&mut book);
    assert_eq!(book.current_best_bid, Some(100));
    assert_eq!(book.current_best_ask, Some(110));
}

#[test]
fn ladder_prices_are_ascending() {
    let mut book = OrderBook::new(Symbol::BTCUSD, 100);
    for price in [7u64, 3, 9, 1] {
        book.add_order(limit(price, price, 1, true));
    }
    assert_eq!(ladder_prices(&book.bids), vec![1, 3, 7, 9]);
    assert_eq!(lowest_price(&book.bids), Some(1));
    assert_eq!(highest_price(&book.bids), Some(9));
    assert_eq!(lowest_price(&book.asks), None);
    assert_eq!(highest_price(&book.asks), None);
    assert!(ladder_prices(&book.asks).is_empty());
}

#[test]
fn order_clone_keeps_every_field() {
    let o = limit(5, 6, 7, true);
    assert_eq!(o.clone(), o);
}

#[test]
fn trades_take_the_lesser_of_wanted_and_eligible() {
    let mut book = OrderBook::new(Symbol::BTCUSD, 100);
    match_order(&mut book, &limit(1, 101, 4, false), OrderType::Limit);
    match_order(&mut book, &limit(2, 102, 6, false), OrderType::Limit);
    match_order(&mut book, &limit(3, 104, 1, false), OrderType::Limit);
    // Within 103 rest 10; the order wants 25.
    let trades = match_order(&mut book, &limit(4, 103, 25, true), OrderType::Limit);
    assert_eq!(trades.iter().map(|t| t.qty).sum::<u64>(), 10);
    // Without a limit rest 1; the order wants 1.
    let trades = match_order(&mut book, &market(5, 1, true), OrderType::Market);
    assert_eq!(trades.iter().map(|t| t.qty).sum::<u64>(), 1);
    assert!(book.asks.is_empty());

    let mut book = OrderBook::new(Symbol::BTCUSD, 100);
    match_order(&mut book, &limit(1, 101, 4, false), OrderType::Limit);
    match_order(&mut book, &limit(2, 102, 6, false), OrderType::Limit);
    // Within 102 rest 10; the order wants 7.
    let trades = match_order(&mut book, &limit(3, 102, 7, true), OrderType::Limit);
    assert_eq!(trades.iter().map(|t| t.qty).sum::<u64>(), 7);
    assert_eq!(book.get_depth(5).asks, vec![(102, 3)]);
}

#[test]
fn no_better_price_stays_and_every_trade_has_quantity() {
    let mut book = OrderBook::new(Symbol::BTCUSD, 100);
    for (id, price, qty) in [(1u64, 100u64, 2u64), (2, 99, 3), (3, 98, 4), (4, 97, 5)] {
        match_order(&mut book, &limit(id, price, qty, true), OrderType::Limit);
    }
    let trades = match_order(&mut book, &limit(9, 98, 6, false), OrderType::Limit);
    assert_eq!(trades.len(), 3);
    for t in &trades {
        assert!(t.qty > 0);
        for price in book.bids.keys() {
            assert!(*price <= t.price);
        }
    }
    // The level that was hit last keeps its tail, only its head reduced.
    let level = &book.bids[&98];
    assert_eq!((level[0].id, level[0].qty), (3, 3));
    assert_eq!(book.bids[&97][0].qty, 5);
}

#[test]
fn makers_lose_what_the_taker_gains() {
    let mut book = OrderBook::new(Symbol::BTCUSD, 100);
    for (id, price, qty) in [(1u64, 101u64, 2u64), (2, 101, 3), (3, 102, 4), (4, 105, 5)] {
        match_order(&mut book, &limit(id, price, qty, false), OrderType::Limit);
    }
    let resting = |b: &OrderBook| -> u64 { b.asks.values().flatten().map(|o| o.qty).sum() };
    let before = resting(&book);
    let trades = match_order(&mut book, &market(9, 8, true), OrderType::Market);
    let traded: u64 = trades.iter().map(|t| t.qty).sum();
    assert_eq!(traded, 8);
    assert_eq!(before, resting(&book) + traded);
}
