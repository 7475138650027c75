use crate::clock::now_string;
use crate::engine::engine::state_of;
use crate::engine::ladder::{highest_price, lowest_price};
use crate::engine::laws::{lemma_added_keeps, lemma_matched_conserves, lemma_matched_keeps};
use crate::engine::lemmas::{lemma_filled_qty_prefix, lemma_open_taker_empties_level};
use crate::engine::model::{
    beyond_limit, fill_level, filled_qty, is_trade, ladder_of, place, sweep, trades_match, Fill,
    SweepOutcome,
};
use crate::global::{slot_of, EngineError, MatchingService};
use crate::inputs::{
    CreateOrderInput, Order, OrderBook, OrderId, OrderType, Price, ProcessOrderResult, Quantity,
    Side, Symbol,
};
use std::collections::BTreeMap;
use vstd::pervasive::unreached;
use vstd::prelude::*;
use vstd::std_specs::btree::group_btree_axioms;

verus! {

/// `after` is `before` followed by one trade record for each fill, in order.
pub open spec fn trades_extended(before: Seq<Order>, after: Seq<Order>, fills: Seq<Fill>) -> bool {
    &&& after.len() == before.len() + fills.len()
    &&& forall|i: int| 0 <= i < before.len() ==> after[i] == before[i]
    &&& forall|i: int|
        0 <= i < fills.len() ==> is_trade(#[trigger] after[before.len() + i], fills[i])
}

proof fn lemma_trades_extended_again(
    first: Seq<Order>,
    second: Seq<Order>,
    third: Seq<Order>,
    early: Seq<Fill>,
    late: Seq<Fill>,
)
    requires
        trades_extended(first, second, early),
        trades_extended(second, third, late),
    ensures
        trades_extended(first, third, early + late),
{
    let fills = early + late;
    assert forall|i: int| 0 <= i < fills.len() implies is_trade(
        #[trigger] third[first.len() + i],
        fills[i],
    ) by {
        if i < early.len() {
            assert(third[first.len() + i] == second[first.len() + i]);
        } else {
            assert(third[second.len() + (i - early.len())] == third[first.len() + i]);
        }
    }
}

/// Takes up to `qty` from the head of one price level and records a trade for
/// each resting order that is hit.
fn take_from_level(
    level: &mut Vec<Order>,
    price: Price,
    taker_is_buy: bool,
    qty: Quantity,
    trades: &mut Vec<Order>,
) -> (qty_left: Quantity)
    ensures
        final(level)@ == fill_level(old(level)@, price, taker_is_buy, qty).rest,
        qty_left == fill_level(old(level)@, price, taker_is_buy, qty).qty_left,
        trades_extended(
            old(trades)@,
            final(trades)@,
            fill_level(old(level)@, price, taker_is_buy, qty).fills,
        ),
{
    let ghost whole = fill_level(level@, price, taker_is_buy, qty);
    let ghost mut done: Seq<Fill> = Seq::empty();
    let mut qty_left = qty;
    while level.len() > 0 && qty_left > 0
        invariant
            whole.fills == done + fill_level(level@, price, taker_is_buy, qty_left).fills,
            whole.rest == fill_level(level@, price, taker_is_buy, qty_left).rest,
            whole.qty_left == fill_level(level@, price, taker_is_buy, qty_left).qty_left,
            trades_extended(old(trades)@, trades@, done),
        decreases level.len(), qty_left,
    {
        let ghost queue = level@;
        let ghost rest = fill_level(queue, price, taker_is_buy, qty_left);
        let head_id = level[0].id;
        let head_qty = level[0].qty;
        if head_qty <= qty_left {
            trades.push(
                Order {
                    id: head_id,
                    price,
                    qty: head_qty,
                    is_buy: !taker_is_buy,
                    order_type: OrderType::Limit,
                    time: now_string(),
                },
            );
            level.remove(0);
            qty_left = qty_left - head_qty;
            proof {
                let fill = Fill { id: head_id, price, qty: head_qty, is_buy: !taker_is_buy };
                assert(level@ =~= queue.drop_first());
                let tail = fill_level(level@, price, taker_is_buy, qty_left);
                assert(rest.fills == seq![fill] + tail.fills);
                assert(done + rest.fills =~= done.push(fill) + tail.fills);
                done = done.push(fill);
            }
        } else {
            trades.push(
                Order {
                    id: head_id,
                    price,
                    qty: qty_left,
                    is_buy: !taker_is_buy,
                    order_type: OrderType::Limit,
                    time: now_string(),
                },
            );
            level[0].qty = head_qty - qty_left;
            proof {
                let fill = Fill { id: head_id, price, qty: qty_left, is_buy: !taker_is_buy };
                assert(rest.fills == seq![fill]);
                assert(level@ =~= rest.rest);
                assert(done + rest.fills =~= done.push(fill) + Seq::<Fill>::empty());
                done = done.push(fill);
            }
            qty_left = 0;
        }
    }
    proof {
        assert(done + Seq::<Fill>::empty() =~= done);
    }
    qty_left
}

/// Takes up to `qty` from the resting side, best price first, as far as the
/// limit reaches, and records a trade for each resting order that is hit.
fn sweep_ladder(
    ladder: &mut BTreeMap<Price, Vec<Order>>,
    taker_is_buy: bool,
    limit: Option<Price>,
    qty: Quantity,
    trades: &mut Vec<Order>,
) -> (qty_left: Quantity)
    ensures
        ladder_of(final(ladder)@) == sweep(
            ladder_of(old(ladder)@),
            taker_is_buy,
            limit,
            qty,
        ).ladder,
        qty_left == sweep(ladder_of(old(ladder)@), taker_is_buy, limit, qty).qty_left,
        trades_extended(
            old(trades)@,
            final(trades)@,
            sweep(ladder_of(old(ladder)@), taker_is_buy, limit, qty).fills,
        ),
{
    broadcast use group_btree_axioms;

    let ghost whole = sweep(ladder_of(ladder@), taker_is_buy, limit, qty);
    let ghost mut done: Seq<Fill> = Seq::empty();
    let mut qty_left = qty;
    let mut open = true;
    while open
        invariant
            ({
                let ahead = if open {
                    sweep(ladder_of(ladder@), taker_is_buy, limit, qty_left)
                } else {
                    SweepOutcome { fills: Seq::empty(), ladder: ladder_of(ladder@), qty_left }
                };
                &&& whole.fills == done + ahead.fills
                &&& whole.ladder == ahead.ladder
                &&& whole.qty_left == ahead.qty_left
            }),
            trades_extended(old(trades)@, trades@, done),
        decreases
                ladder@.dom().len() + if open {
                    1int
                } else {
                    0int
                },
    {
        let ghost resting = ladder_of(ladder@);
        let ghost ahead = sweep(resting, taker_is_buy, limit, qty_left);
        assert(resting.dom() =~= ladder@.dom());
        let best = if taker_is_buy {
            lowest_price(ladder)
        } else {
            highest_price(ladder)
        };
        match best {
            None => {
                open = false;
            },
            Some(price) => {
                let out_of_reach = match limit {
                    Some(bound) => if taker_is_buy {
                        price > bound
                    } else {
                        price < bound
                    },
                    None => false,
                };
                assert(out_of_reach == beyond_limit(price, limit, taker_is_buy));
                assert(ladder@.contains_key(price));
                if out_of_reach {
                    open = false;
                } else {
                    let ghost at = fill_level(resting[price], price, taker_is_buy, qty_left);
                    let ghost wanted = qty_left;
                    let ghost recorded = trades@;
                    match ladder.remove(&price) {
                        Some(mut level) => {
                            assert(level@ == resting[price]);
                            assert(ladder_of(ladder@) =~= resting.remove(price));
                            qty_left = take_from_level(
                                &mut level,
                                price,
                                taker_is_buy,
                                qty_left,
                                trades,
                            );
                            if qty_left == 0 {
                                if level.len() > 0 {
                                    ladder.insert(price, level);
                                    assert(ladder_of(ladder@) =~= resting.insert(price, at.rest));
                                }
                                open = false;
                                proof {
                                    assert(done + ahead.fills =~= (done + at.fills) + Seq::<
                                        Fill,
                                    >::empty());
                                }
                            } else {
                                proof {
                                    lemma_open_taker_empties_level(
                                        resting[price],
                                        price,
                                        taker_is_buy,
                                        wanted,
                                    );
                                    assert(level@.len() == 0);
                                    let beyond = sweep(
                                        resting.remove(price),
                                        taker_is_buy,
                                        limit,
                                        qty_left,
                                    );
                                    assert(done + ahead.fills =~= (done + at.fills) + beyond.fills);
                                }
                            }
                            proof {
                                lemma_trades_extended_again(
                                    old(trades)@,
                                    recorded,
                                    trades@,
                                    done,
                                    at.fills,
                                );
                                done = done + at.fills;
                            }
                        },
                        None => unreached(),
                    }
                }
            },
        }
    }
    proof {
        assert(done + Seq::<Fill>::empty() =~= done);
    }
    qty_left
}

/// Puts the order at the tail of the queue of its price, opening the level if
/// the ladder has none there.
fn rest_on(ladder: &mut BTreeMap<Price, Vec<Order>>, order: Order)
    ensures
        ladder_of(final(ladder)@) == place(ladder_of(old(ladder)@), order),
{
    broadcast use group_btree_axioms;

    let price = order.price;
    let mut queue = match ladder.remove(&price) {
        Some(queue) => queue,
        None => Vec::new(),
    };
    queue.push(order);
    ladder.insert(price, queue);
    assert(ladder_of(ladder@) =~= place(ladder_of(old(ladder)@), order));
}

/// Rests the order on its side of the book, without matching, and refreshes
/// the top of book.
pub fn add_order(orderbook: &mut OrderBook, order: Order)
    ensures
        final(orderbook)@ == old(orderbook)@.added(order),
        old(orderbook).wf() ==> final(orderbook).wf(),
        old(orderbook).wf() && old(orderbook)@.positive() && order.qty > 0
            ==> final(orderbook)@.positive(),
        old(orderbook).wf() && old(orderbook)@.uncrossed() && !old(orderbook)@.crossed_by(order)
            ==> final(orderbook)@.uncrossed(),
{
    proof {
        if orderbook.wf() {
            lemma_added_keeps(orderbook@, order);
        }
    }
    if order.is_buy {
        rest_on(&mut orderbook.bids, order);
    } else {
        rest_on(&mut orderbook.asks, order);
    }
    update_best_prices(orderbook);
}

/// Matches the incoming order against the other side of the book in
/// price-time priority and returns one trade record for each resting order
/// that is hit, in the order they were hit.
///
/// A `Limit` order takes only prices within its own and rests what is left
/// under its own id; a `Market` order takes any price and rests nothing. Each
/// trade is made at the resting order's price.
pub fn match_order(
    orderbook: &mut OrderBook,
    incoming_order: &Order,
    order_type: OrderType,
) -> (trades: Vec<Order>)
    ensures
        final(orderbook)@ == old(orderbook)@.matched(*incoming_order, order_type).book,
        trades_match(trades@, old(orderbook)@.matched(*incoming_order, order_type).fills),
        old(orderbook).wf() ==> final(orderbook).wf(),
        old(orderbook).wf() && old(orderbook)@.positive() ==> final(orderbook)@.positive(),
        old(orderbook).wf() && old(orderbook)@.uncrossed() ==> final(orderbook)@.uncrossed(),
{
    proof {
        if orderbook.wf() {
            lemma_matched_keeps(orderbook@, *incoming_order, order_type);
        }
    }
    let ghost outcome = orderbook@.matched(*incoming_order, order_type);
    let mut trades: Vec<Order> = Vec::new();
    let limit = match order_type {
        OrderType::Limit => Some(incoming_order.price),
        OrderType::Market => None,
    };
    let qty_left = if incoming_order.is_buy {
        sweep_ladder(&mut orderbook.asks, true, limit, incoming_order.qty, &mut trades)
    } else {
        sweep_ladder(&mut orderbook.bids, false, limit, incoming_order.qty, &mut trades)
    };
    assert(trades_match(trades@, outcome.fills)) by {
        assert forall|i: int| 0 <= i < trades@.len() implies is_trade(
            #[trigger] trades@[i],
            outcome.fills[i],
        ) by {
            assert(trades@[0 + i] == trades@[i]);
        }
    }
    if trades.len() > 0 {
        let price = trades[trades.len() - 1].price;
        orderbook.last_trade_price = Some(price);
        orderbook.current_price = Some(price);
    }
    if qty_left > 0 {
        match order_type {
            OrderType::Limit => {
                let mut remaining_order = incoming_order.clone();
                remaining_order.qty = qty_left;
                add_order(orderbook, remaining_order);
            },
            OrderType::Market => {},
        }
    }
    update_best_prices(orderbook);
    trades
}

/// Sets the cached top of book to the highest bid and the lowest ask.
pub fn update_best_prices(orderbook: &mut OrderBook)
    ensures
        final(orderbook)@ == old(orderbook)@.refreshed(),
{
    orderbook.current_best_bid = highest_price(&orderbook.bids);
    orderbook.current_best_ask = lowest_price(&orderbook.asks);
    assert(ladder_of(orderbook.bids@).dom() =~= orderbook.bids@.dom());
    assert(ladder_of(orderbook.asks@).dom() =~= orderbook.asks@.dom());
}

/// The order that a submission becomes, given its number and the moment it
/// was taken in.
pub open spec fn order_of(input: CreateOrderInput, id: OrderId, time: String) -> Order {
    Order {
        id,
        price: input.price,
        qty: input.quantity as Quantity,
        is_buy: input.side == Side::Buy,
        order_type: input.order_type,
        time,
    }
}

/// What executing an order against the service's books comes to.
///
/// Without a book for the symbol the order is turned down and no book
/// changes. With one, that book alone is matched against the order, and the
/// result reports the order's id, one trade for each fill, the quantity that
/// found no counterparty, and the state of the book after matching.
pub open spec fn settled(
    before: MatchingService,
    after: MatchingService,
    symbol: Symbol,
    order: Order,
    kind: OrderType,
    result: Result<ProcessOrderResult, EngineError>,
) -> bool {
    &&& after.books@.len() == before.books@.len()
    &&& match slot_of(before.books@, symbol) {
        None => {
            &&& result == Err::<ProcessOrderResult, EngineError>(EngineError::InvalidSymbol)
            &&& after.books@ == before.books@
        },
        Some(slot) => {
            let outcome = before.books@[slot]@.matched(order, kind);
            &&& after.books@ == before.books@.update(slot, after.books@[slot])
            &&& after.books@[slot]@ == outcome.book
            &&& result matches Ok(done)
            &&& done.order_id == order.id
            &&& trades_match(done.trades@, outcome.fills)
            &&& done.remaining_quantity == outcome.qty_left
            &&& done.remaining_quantity == order.qty - filled_qty(outcome.fills)
            &&& done.orderbook_state == state_of(outcome.book)
        },
    }
}

/// The quantity that the trades filled together.
fn traded_quantity(trades: &Vec<Order>, Ghost(fills): Ghost<Seq<Fill>>, bound: Quantity) -> (total:
    Quantity)
    requires
        trades_match(trades@, fills),
        filled_qty(fills) <= bound,
    ensures
        total == filled_qty(fills),
{
    let mut total: Quantity = 0;
    let mut i: usize = 0;
    while i < trades.len()
        invariant
            i <= trades@.len(),
            trades_match(trades@, fills),
            filled_qty(fills) <= bound,
            total == filled_qty(fills.take(i as int)),
        decreases trades@.len() - i,
    {
        proof {
            lemma_filled_qty_prefix(fills, i + 1);
            assert(fills.take(i + 1).drop_last() =~= fills.take(i as int));
        }
        total = total + trades[i].qty;
        i = i + 1;
    }
    assert(fills.take(i as int) =~= fills);
    total
}

/// Matches the order against the book of its symbol and reports what came of
/// it, or turns it down if the symbol has no book.
pub fn execute_order(
    service: &mut MatchingService,
    symbol: Symbol,
    order: &Order,
    order_type: OrderType,
) -> (result: Result<ProcessOrderResult, EngineError>)
    ensures
        settled(*old(service), *final(service), symbol, *order, order_type, result),
        final(service).next_order_id == old(service).next_order_id,
        old(service).wf() ==> final(service).wf(),
{
    broadcast use group_btree_axioms;

    let slot = match service.find(symbol) {
        Some(slot) => slot,
        None => {
            return Err(EngineError::InvalidSymbol);
        },
    };
    let ghost outcome = service.books@[slot as int]@.matched(*order, order_type);
    proof {
        service.books@[slot as int].lemma_finite();
        lemma_matched_conserves(service.books@[slot as int]@, *order, order_type);
    }
    let trades = match_order(&mut service.books[slot], order, order_type);
    let filled_quantity = traded_quantity(&trades, Ghost(outcome.fills), order.qty);
    let remaining_quantity = order.qty - filled_quantity;
    let orderbook_state = service.books[slot].snapshot();
    Ok(ProcessOrderResult { order_id: order.id, trades, remaining_quantity, orderbook_state })
}

/// The submission gets the number `id`, and the counter moves on by one.
pub open spec fn allocates(before: OrderId, after: OrderId, id: OrderId) -> bool {
    id == before && after == before + 1
}

/// What processing one submission comes to: the submission takes the
/// counter's value as its number and moves the counter on by one, whether or
/// not its symbol has a book; and the order it becomes, stamped with some
/// moment, is settled against the books.
pub open spec fn processed(
    before: MatchingService,
    after: MatchingService,
    input: CreateOrderInput,
    result: Result<ProcessOrderResult, EngineError>,
) -> bool {
    &&& allocates(before.next_order_id, after.next_order_id, before.next_order_id)
    &&& exists|time: String|
        settled(
            before,
            after,
            input.symbol,
            #[trigger] order_of(input, before.next_order_id, time),
            input.order_type,
            result,
        )
}

/// Numbers the submission, stamps it with the moment of the call, and matches
/// it against the book of its symbol.
///
/// The number is taken whether or not the symbol has a book.
pub fn process_order(service: &mut MatchingService, order_data: &CreateOrderInput) -> (result:
    Result<ProcessOrderResult, EngineError>)
    requires
        old(service).next_order_id < u64::MAX,
    ensures
        processed(*old(service), *final(service), *order_data, result),
        result matches Ok(done) ==> done.order_id == old(service).next_order_id,
        old(service).wf() ==> final(service).wf(),
{
    let order_id = service.next_order_id;
    service.next_order_id = service.next_order_id + 1;
    let order = Order {
        id: order_id,
        price: order_data.price,
        qty: order_data.quantity as u64,
        is_buy: order_data.side == Side::Buy,
        order_type: order_data.order_type,
        time: now_string(),
    };
    let result = execute_order(service, order_data.symbol, &order, order_data.order_type);
    proof {
        assert(order == order_of(*order_data, order_id, order.time));
    }
    result
}

} // verus!
