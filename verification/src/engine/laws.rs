use crate::engine::lemmas::{
    lemma_best_of_finite, lemma_fill_level, lemma_filled_qty_concat, lemma_filled_qty_one,
    lemma_level_total_nonnegative, lemma_open_taker_empties_level, lemma_place_wf, lemma_sweep,
};
use crate::engine::model::{
    best_for, beyond_limit, depth_rows, eligible_total, fill_level, filled_qty, is_highest,
    is_lowest, ladder_positive, ladder_wf, level_total, place, sweep, BookModel, Fill, Ladder,
};
use crate::engine::service::{allocates, processed};
use crate::global::{EngineError, MatchingService};
use crate::inputs::{
    CreateOrderInput, Order, OrderId, OrderType, Price, ProcessOrderResult, Quantity,
};
use vstd::prelude::*;

verus! {

/// The `i`-th order of the fill's price level is the one the fill was made
/// against, and held at least the quantity filled.
pub open spec fn hit_at(ladder: Ladder, fill: Fill, i: int) -> bool {
    &&& 0 <= i < ladder[fill.price].len()
    &&& ladder[fill.price][i].id == fill.id
    &&& fill.qty <= ladder[fill.price][i].qty
}

/// The fill was made against an order resting in the ladder at the fill's
/// price, for no more than that order held.
pub open spec fn hits(ladder: Ladder, fill: Fill) -> bool {
    &&& ladder.contains_key(fill.price)
    &&& exists|i: int| hit_at(ladder, fill, i)
}

/// The best bid is below the best ask, where the book has both.
pub open spec fn top_uncrossed(book: BookModel) -> bool {
    match (book.current_best_bid, book.current_best_ask) {
        (Some(bid), Some(ask)) => bid < ask,
        _ => true,
    }
}

/// In a well-formed book the best bid is the highest price of the bid ladder
/// and the best ask the lowest price of the ask ladder; each is absent exactly
/// when its ladder is empty.
pub proof fn lemma_top_of_book(book: BookModel)
    requires
        book.wf(),
    ensures
        book.current_best_bid is None <==> book.bids.dom().is_empty(),
        book.current_best_ask is None <==> book.asks.dom().is_empty(),
        book.current_best_bid matches Some(bid) ==> is_highest(book.bids.dom(), bid),
        book.current_best_ask matches Some(ask) ==> is_lowest(book.asks.dom(), ask),
{
    lemma_best_of_finite(book.bids.dom());
    lemma_best_of_finite(book.asks.dom());
}

/// In a well-formed book no bid is at or above any ask exactly when the best
/// bid is below the best ask, or one of the two is absent.
pub proof fn lemma_uncrossed_at_top(book: BookModel)
    requires
        book.wf(),
    ensures
        book.uncrossed() <==> top_uncrossed(book),
{
    lemma_top_of_book(book);
    if top_uncrossed(book) {
        assert forall|b: Price, a: Price|
            book.bids.contains_key(b) && book.asks.contains_key(a) implies b < a by {
            assert(book.bids.dom().contains(b));
            assert(book.asks.dom().contains(a));
        }
    }
    if book.uncrossed() {
        match (book.current_best_bid, book.current_best_ask) {
            (Some(bid), Some(ask)) => {
                assert(book.bids.contains_key(bid) && book.asks.contains_key(ask));
            },
            _ => {},
        }
    }
}

/// Resting an order keeps a well-formed book well formed: no level is empty,
/// every order rests at its price on its side, and the top of book is the
/// highest bid and the lowest ask. Resting quantities stay positive if the
/// order has quantity. The book stays uncrossed if the order does not reach
/// the other side.
pub proof fn lemma_added_keeps(book: BookModel, order: Order)
    requires
        book.wf(),
    ensures
        book.added(order).wf(),
        book.positive() && order.qty > 0 ==> book.added(order).positive(),
        book.uncrossed() && !book.crossed_by(order) ==> book.added(order).uncrossed(),
{
    let after = book.added(order);
    if order.is_buy {
        lemma_place_wf(book.bids, order);
    } else {
        lemma_place_wf(book.asks, order);
    }
    if book.uncrossed() && !book.crossed_by(order) {
        assert forall|b: Price, a: Price|
            after.bids.contains_key(b) && after.asks.contains_key(a) implies b < a by {
            if order.is_buy {
                if b == order.price {
                    assert(book.asks.contains_key(a));
                }
            } else {
                if a == order.price {
                    assert(book.bids.contains_key(b));
                }
            }
        }
    }
}

/// Matching keeps a well-formed book well formed: no level is empty, every
/// order rests at its price on its side, and the top of book is the highest
/// bid and the lowest ask. Resting quantities that were positive stay
/// positive, and a book that was uncrossed stays uncrossed.
pub proof fn lemma_matched_keeps(book: BookModel, incoming: Order, kind: OrderType)
    requires
        book.wf(),
    ensures
        book.matched(incoming, kind).book.wf(),
        book.positive() ==> book.matched(incoming, kind).book.positive(),
        book.uncrossed() ==> book.matched(incoming, kind).book.uncrossed(),
{
    let out = book.matched(incoming, kind);
    let limit = if kind == OrderType::Limit {
        Some(incoming.price)
    } else {
        None
    };
    let other = if incoming.is_buy {
        book.asks
    } else {
        book.bids
    };
    let swept = sweep(other, incoming.is_buy, limit, incoming.qty);
    lemma_sweep(other, incoming.is_buy, limit, incoming.qty, !incoming.is_buy);
    let residual = Order { qty: swept.qty_left, ..incoming };
    if swept.qty_left > 0 && kind == OrderType::Limit {
        if incoming.is_buy {
            lemma_place_wf(book.bids, residual);
        } else {
            lemma_place_wf(book.asks, residual);
        }
    }
    if book.uncrossed() {
        assert forall|b: Price, a: Price|
            out.book.bids.contains_key(b) && out.book.asks.contains_key(a) implies b < a by {
            if incoming.is_buy {
                assert(book.asks.dom().contains(a));
                if !book.bids.contains_key(b) {
                    assert(b == incoming.price);
                    assert(swept.ladder.contains_key(a));
                    assert(beyond_limit(a, limit, true));
                }
            } else {
                assert(book.bids.dom().contains(b));
                if !book.asks.contains_key(a) {
                    assert(a == incoming.price);
                    assert(swept.ladder.contains_key(b));
                    assert(beyond_limit(b, limit, false));
                }
            }
        }
    }
}

/// Every fill of a sweep is made against an order that rested in the ladder,
/// at that order's price, for no more than it held and no more than the taker
/// wanted, and at a price within the taker's limit.
pub proof fn lemma_sweep_fills(
    ladder: Ladder,
    taker_is_buy: bool,
    limit: Option<Price>,
    qty: Quantity,
)
    requires
        ladder.dom().finite(),
    ensures
        forall|k: int|
            0 <= k < sweep(ladder, taker_is_buy, limit, qty).fills.len() ==> {
                let fill = #[trigger] sweep(ladder, taker_is_buy, limit, qty).fills[k];
                &&& hits(ladder, fill)
                &&& fill.qty <= qty
                &&& fill.is_buy == !taker_is_buy
                &&& !beyond_limit(fill.price, limit, taker_is_buy)
            },
    decreases ladder.dom().len(),
{
    let out = sweep(ladder, taker_is_buy, limit, qty);
    lemma_best_of_finite(ladder.dom());
    match best_for(ladder.dom(), taker_is_buy) {
        None => {},
        Some(price) => {
            if !beyond_limit(price, limit, taker_is_buy) {
                let at = fill_level(ladder[price], price, taker_is_buy, qty);
                lemma_fill_level(ladder[price], price, taker_is_buy, qty);
                let fewer = ladder.remove(price);
                if at.qty_left > 0 {
                    lemma_sweep_fills(fewer, taker_is_buy, limit, at.qty_left);
                }
                assert forall|k: int| 0 <= k < out.fills.len() implies {
                    let fill = #[trigger] out.fills[k];
                    &&& hits(ladder, fill)
                    &&& fill.qty <= qty
                    &&& fill.is_buy == !taker_is_buy
                    &&& !beyond_limit(fill.price, limit, taker_is_buy)
                } by {
                    let fill = out.fills[k];
                    if k < at.fills.len() {
                        assert(fill == at.fills[k]);
                        assert(hit_at(ladder, fill, k));
                    } else {
                        let beyond = sweep(fewer, taker_is_buy, limit, at.qty_left);
                        assert(fill == beyond.fills[k - at.fills.len()]);
                        assert(hits(fewer, fill));
                        let i = choose|i: int| hit_at(fewer, fill, i);
                        assert(hit_at(ladder, fill, i));
                    }
                }
            }
        },
    }
}

/// In a well-formed ladder a fill is made at the price of the order it hits,
/// and carries that order's side.
pub proof fn lemma_fill_at_resting_price(ladder: Ladder, resting_is_buy: bool, fill: Fill, i: int)
    requires
        ladder_wf(ladder, resting_is_buy),
        ladder.contains_key(fill.price),
        hit_at(ladder, fill, i),
    ensures
        ladder[fill.price][i].price == fill.price,
        ladder[fill.price][i].is_buy == resting_is_buy,
{
}

/// Whether the first price is met no later than the second by a taker on
/// that side: not above it for a buyer, not below it for a seller.
pub open spec fn met_first(first: Price, second: Price, taker_is_buy: bool) -> bool {
    if taker_is_buy {
        first <= second
    } else {
        first >= second
    }
}

/// A sweep takes the best price first: its fills run from the best price
/// outward, never back to a better one.
pub proof fn lemma_sweep_best_price_first(
    ladder: Ladder,
    taker_is_buy: bool,
    limit: Option<Price>,
    qty: Quantity,
)
    requires
        ladder.dom().finite(),
    ensures
        forall|i: int, j: int|
            0 <= i <= j < sweep(ladder, taker_is_buy, limit, qty).fills.len() ==> met_first(
                (#[trigger] sweep(ladder, taker_is_buy, limit, qty).fills[i]).price,
                (#[trigger] sweep(ladder, taker_is_buy, limit, qty).fills[j]).price,
                taker_is_buy,
            ),
    decreases ladder.dom().len(),
{
    let out = sweep(ladder, taker_is_buy, limit, qty);
    lemma_best_of_finite(ladder.dom());
    match best_for(ladder.dom(), taker_is_buy) {
        None => {},
        Some(price) => {
            if !beyond_limit(price, limit, taker_is_buy) {
                let at = fill_level(ladder[price], price, taker_is_buy, qty);
                lemma_fill_level(ladder[price], price, taker_is_buy, qty);
                let fewer = ladder.remove(price);
                let beyond = sweep(fewer, taker_is_buy, limit, at.qty_left);
                if at.qty_left > 0 {
                    lemma_sweep_best_price_first(fewer, taker_is_buy, limit, at.qty_left);
                    lemma_sweep_fills(fewer, taker_is_buy, limit, at.qty_left);
                }
                assert forall|i: int, j: int| 0 <= i <= j < out.fills.len() implies met_first(
                    (#[trigger] out.fills[i]).price,
                    (#[trigger] out.fills[j]).price,
                    taker_is_buy,
                ) by {
                    if j < at.fills.len() {
                        assert(out.fills[i] == at.fills[i] && out.fills[j] == at.fills[j]);
                    } else {
                        let late = beyond.fills[j - at.fills.len()];
                        assert(out.fills[j] == late);
                        assert(hits(fewer, late));
                        assert(ladder.dom().contains(late.price));
                        if i < at.fills.len() {
                            assert(out.fills[i] == at.fills[i]);
                        } else {
                            assert(out.fills[i] == beyond.fills[i - at.fills.len()]);
                        }
                    }
                }
            }
        },
    }
}

/// Within one price level a taker hits the orders in the order they came:
/// the fills go down the queue from its head, one for each order, and every
/// order before the last one hit is filled whole.
pub proof fn lemma_time_priority(level: Seq<Order>, price: Price, taker_is_buy: bool, qty: Quantity)
    ensures
        fill_level(level, price, taker_is_buy, qty).fills.len() <= level.len(),
        forall|i: int|
            0 <= i < fill_level(level, price, taker_is_buy, qty).fills.len() ==> (
            #[trigger] fill_level(level, price, taker_is_buy, qty).fills[i]).id == level[i].id,
        forall|i: int|
            0 <= i < fill_level(level, price, taker_is_buy, qty).fills.len() - 1 ==> (
            #[trigger] fill_level(level, price, taker_is_buy, qty).fills[i]).qty == level[i].qty,
    decreases level.len(),
{
    lemma_fill_level(level, price, taker_is_buy, qty);
    if level.len() > 0 && qty > 0 && level[0].qty <= qty {
        let open = (qty - level[0].qty) as Quantity;
        let out = fill_level(level, price, taker_is_buy, qty);
        let tail = fill_level(level.drop_first(), price, taker_is_buy, open);
        lemma_time_priority(level.drop_first(), price, taker_is_buy, open);
        assert forall|i: int| 0 <= i < out.fills.len() - 1 implies (#[trigger] out.fills[i]).qty
            == level[i].qty by {
            if i > 0 {
                assert(out.fills[i] == tail.fills[i - 1]);
                assert(level.drop_first()[i - 1] == level[i]);
            }
        }
    }
}

/// The depth of a ladder lists as many levels as were asked for, or all the
/// ladder has if it has fewer; each row is a level of the ladder with its
/// total; and the rows run from the best price outward.
pub proof fn lemma_depth_shape(ladder: Ladder, levels: nat, ascending: bool)
    requires
        ladder.dom().finite(),
    ensures
        depth_rows(ladder, levels, ascending).len() == if levels <= ladder.dom().len() {
            levels
        } else {
            ladder.dom().len()
        },
        forall|i: int|
            0 <= i < depth_rows(ladder, levels, ascending).len() ==> {
                let row = #[trigger] depth_rows(ladder, levels, ascending)[i];
                ladder.contains_key(row.0) && row.1 == level_total(ladder[row.0])
            },
        forall|i: int, j: int|
            0 <= i < j < depth_rows(ladder, levels, ascending).len() ==> (#[trigger] depth_rows(
                ladder,
                levels,
                ascending,
            )[i]).0 != (#[trigger] depth_rows(ladder, levels, ascending)[j]).0 && met_first(
                depth_rows(ladder, levels, ascending)[i].0,
                depth_rows(ladder, levels, ascending)[j].0,
                ascending,
            ),
    decreases levels,
{
    lemma_best_of_finite(ladder.dom());
    let rows = depth_rows(ladder, levels, ascending);
    if levels > 0 {
        match best_for(ladder.dom(), ascending) {
            None => {},
            Some(first) => {
                let fewer = ladder.remove(first);
                let later = depth_rows(fewer, (levels - 1) as nat, ascending);
                lemma_depth_shape(fewer, (levels - 1) as nat, ascending);
                assert(rows == seq![(first, level_total(ladder[first]))] + later);
                assert forall|i: int| 0 <= i < rows.len() implies {
                    let row = #[trigger] rows[i];
                    ladder.contains_key(row.0) && row.1 == level_total(ladder[row.0])
                } by {
                    if i > 0 {
                        assert(rows[i] == later[i - 1]);
                    }
                }
                assert forall|i: int, j: int| 0 <= i < j < rows.len() implies (#[trigger] rows[i]).0
                    != (#[trigger] rows[j]).0 && met_first(rows[i].0, rows[j].0, ascending) by {
                    assert(rows[j] == later[j - 1]);
                    assert(ladder.dom().contains(later[j - 1].0));
                    if i > 0 {
                        assert(rows[i] == later[i - 1]);
                    }
                }
            },
        }
    }
}

/// `rest` is what a taker left of `level`: the orders at its tail, the first
/// of them with no more quantity than it had and the others as they were.
pub open spec fn is_tail_of(rest: Seq<Order>, level: Seq<Order>) -> bool {
    &&& rest.len() <= level.len()
    &&& forall|i: int|
        0 <= i < rest.len() ==> {
            let stays = #[trigger] rest[i];
            let was = level[level.len() - rest.len() + i];
            &&& stays == Order { qty: stays.qty, ..was }
            &&& stays.qty <= was.qty
            &&& i > 0 ==> stays == was
        }
}

/// The total of a queue is the quantity of its first order and the total of
/// the rest.
pub proof fn lemma_level_total_first(queue: Seq<Order>)
    requires
        queue.len() > 0,
    ensures
        level_total(queue) == queue[0].qty + level_total(queue.drop_first()),
    decreases queue.len(),
{
    if queue.len() == 1 {
        assert(queue.drop_last() =~= Seq::<Order>::empty());
        assert(queue.drop_first() =~= Seq::<Order>::empty());
        assert(level_total(Seq::<Order>::empty()) == 0);
    } else {
        lemma_level_total_first(queue.drop_last());
        assert(queue.drop_last().drop_first() =~= queue.drop_first().drop_last());
        assert(queue.drop_first().last() == queue.last());
        assert(queue.drop_last()[0] == queue[0]);
    }
}

/// What taking from one level does to the orders that rest in it. Every
/// order with quantity that is hit gives a fill with quantity. The orders
/// that stay are the tail of the queue, only the first of them changed. The
/// quantity that rested is what still rests and what was filled, and what
/// was filled is the lesser of what the taker wanted and what rested.
pub proof fn lemma_fill_level_makers(
    level: Seq<Order>,
    price: Price,
    taker_is_buy: bool,
    qty: Quantity,
)
    ensures
        ({
            let out = fill_level(level, price, taker_is_buy, qty);
            &&& forall|i: int|
                0 <= i < out.fills.len() && level[i].qty > 0 ==> (#[trigger] out.fills[i]).qty > 0
            &&& is_tail_of(out.rest, level)
            &&& level_total(level) == level_total(out.rest) + filled_qty(out.fills)
            &&& filled_qty(out.fills) == if qty <= level_total(level) {
                qty as int
            } else {
                level_total(level)
            }
        }),
    decreases level.len(),
{
    let out = fill_level(level, price, taker_is_buy, qty);
    lemma_fill_level(level, price, taker_is_buy, qty);
    lemma_open_taker_empties_level(level, price, taker_is_buy, qty);
    lemma_level_total_nonnegative(out.rest);
    if level.len() == 0 || qty == 0 {
        assert(out.fills =~= Seq::<Fill>::empty());
        lemma_level_total_nonnegative(level);
    } else if level[0].qty <= qty {
        let head = level[0];
        let fill = Fill { id: head.id, price, qty: head.qty, is_buy: !taker_is_buy };
        let open = (qty - head.qty) as Quantity;
        let tail = fill_level(level.drop_first(), price, taker_is_buy, open);
        lemma_fill_level_makers(level.drop_first(), price, taker_is_buy, open);
        lemma_fill_level(level.drop_first(), price, taker_is_buy, open);
        lemma_filled_qty_concat(seq![fill], tail.fills);
        lemma_filled_qty_one(fill);
        lemma_level_total_first(level);
        assert forall|i: int| 0 <= i < out.fills.len() && level[i].qty > 0 implies (
        #[trigger] out.fills[i]).qty > 0 by {
            if i > 0 {
                assert(out.fills[i] == tail.fills[i - 1]);
                assert(level.drop_first()[i - 1] == level[i]);
            }
        }
        assert forall|i: int| 0 <= i < out.rest.len() implies {
            let stays = #[trigger] out.rest[i];
            let was = level[level.len() - out.rest.len() + i];
            &&& stays == Order { qty: stays.qty, ..was }
            &&& stays.qty <= was.qty
            &&& i > 0 ==> stays == was
        } by {
            let shift = level.drop_first().len() - tail.rest.len();
            assert(out.rest[i] == tail.rest[i]);
            assert(level.drop_first()[shift + i] == level[shift + i + 1]);
        }
    } else {
        let head = level[0];
        let fill = Fill { id: head.id, price, qty, is_buy: !taker_is_buy };
        let reduced = Order { qty: (head.qty - qty) as Quantity, ..head };
        lemma_filled_qty_one(fill);
        lemma_level_total_first(level);
        lemma_level_total_first(level.update(0, reduced));
        assert(level.update(0, reduced).drop_first() =~= level.drop_first());
        lemma_level_total_nonnegative(level.drop_first());
    }
}

/// What a sweep does to the orders that rest in the ladder. Every order with
/// quantity that is hit gives a fill with quantity. No price that stays in
/// the ladder is better than the price of any fill. Each level that stays is
/// the tail of what it was, only its first order changed. The quantity that
/// rested within the taker's limit is what still rests there and what was
/// filled; and what was filled is the lesser of what the taker wanted and
/// what rested within its limit.
pub proof fn lemma_sweep_makers(
    ladder: Ladder,
    taker_is_buy: bool,
    limit: Option<Price>,
    qty: Quantity,
)
    requires
        ladder.dom().finite(),
    ensures
        ({
            let out = sweep(ladder, taker_is_buy, limit, qty);
            let eligible = eligible_total(ladder, taker_is_buy, limit);
            &&& ladder_positive(ladder) ==> forall|k: int|
                0 <= k < out.fills.len() ==> (#[trigger] out.fills[k]).qty > 0
            &&& forall|k: int, p: Price|
                0 <= k < out.fills.len() && #[trigger] out.ladder.contains_key(p) ==> met_first(
                    (#[trigger] out.fills[k]).price,
                    p,
                    taker_is_buy,
                )
            &&& forall|p: Price| #[trigger]
                out.ladder.contains_key(p) ==> ladder.contains_key(p) && is_tail_of(
                    out.ladder[p],
                    ladder[p],
                )
            &&& 0 <= eligible_total(out.ladder, taker_is_buy, limit)
            &&& eligible == eligible_total(out.ladder, taker_is_buy, limit) + filled_qty(out.fills)
            &&& filled_qty(out.fills) == if qty <= eligible {
                qty as int
            } else {
                eligible
            }
        }),
    decreases ladder.dom().len(),
{
    let out = sweep(ladder, taker_is_buy, limit, qty);
    lemma_best_of_finite(ladder.dom());
    lemma_sweep(ladder, taker_is_buy, limit, qty, !taker_is_buy);
    assert forall|p: Price| #[trigger] ladder.contains_key(p) implies is_tail_of(
        ladder[p],
        ladder[p],
    ) by {}
    match best_for(ladder.dom(), taker_is_buy) {
        None => {
            assert(out.fills =~= Seq::<Fill>::empty());
        },
        Some(price) => {
            assert(ladder.contains_key(price));
            let fewer = ladder.remove(price);
            if beyond_limit(price, limit, taker_is_buy) {
                assert(out.fills =~= Seq::<Fill>::empty());
            } else {
                let at = fill_level(ladder[price], price, taker_is_buy, qty);
                lemma_fill_level(ladder[price], price, taker_is_buy, qty);
                lemma_fill_level_makers(ladder[price], price, taker_is_buy, qty);
                lemma_open_taker_empties_level(ladder[price], price, taker_is_buy, qty);
                lemma_eligible_nonnegative(fewer, taker_is_buy, limit);
                if at.qty_left == 0 {
                    if at.rest.len() > 0 {
                        assert(out.ladder.dom() =~= ladder.dom());
                        assert(out.ladder.remove(price) =~= fewer);
                    } else {
                        assert(level_total(at.rest) == 0);
                    }
                    lemma_eligible_nonnegative(out.ladder, taker_is_buy, limit);
                    assert forall|k: int, p: Price|
                        0 <= k < out.fills.len() && #[trigger] out.ladder.contains_key(
                            p,
                        ) implies met_first((#[trigger] out.fills[k]).price, p, taker_is_buy) by {
                        assert(ladder.dom().contains(p));
                    }
                    assert forall|p: Price| #[trigger]
                        out.ladder.contains_key(p) implies is_tail_of(out.ladder[p], ladder[p]) by {
                        if p != price {
                            assert(out.ladder[p] == ladder[p]);
                        }
                    }
                } else {
                    let beyond = sweep(fewer, taker_is_buy, limit, at.qty_left);
                    lemma_sweep_makers(fewer, taker_is_buy, limit, at.qty_left);
                    lemma_sweep(fewer, taker_is_buy, limit, at.qty_left, !taker_is_buy);
                    lemma_sweep_fills(fewer, taker_is_buy, limit, at.qty_left);
                    lemma_filled_qty_concat(at.fills, beyond.fills);
                    assert(level_total(at.rest) == 0);
                    if ladder_positive(ladder) {
                        assert(ladder_positive(fewer));
                        assert forall|k: int| 0 <= k < out.fills.len() implies (
                        #[trigger] out.fills[k]).qty > 0 by {
                            if k < at.fills.len() {
                                assert(out.fills[k] == at.fills[k]);
                                assert(ladder[price][k].qty > 0);
                            } else {
                                assert(out.fills[k] == beyond.fills[k - at.fills.len()]);
                            }
                        }
                    }
                    assert forall|k: int, p: Price|
                        0 <= k < out.fills.len() && #[trigger] out.ladder.contains_key(
                            p,
                        ) implies met_first((#[trigger] out.fills[k]).price, p, taker_is_buy) by {
                        assert(fewer.contains_key(p));
                        assert(ladder.dom().contains(p));
                        if k < at.fills.len() {
                            assert(out.fills[k] == at.fills[k]);
                        } else {
                            assert(out.fills[k] == beyond.fills[k - at.fills.len()]);
                        }
                    }
                    assert forall|p: Price| #[trigger]
                        out.ladder.contains_key(p) implies ladder.contains_key(p) && is_tail_of(
                        out.ladder[p],
                        ladder[p],
                    ) by {
                        assert(fewer.contains_key(p));
                        assert(fewer[p] == ladder[p]);
                    }
                }
                if ladder_positive(ladder) && at.qty_left == 0 {
                    assert forall|k: int| 0 <= k < out.fills.len() implies (
                    #[trigger] out.fills[k]).qty > 0 by {
                        assert(ladder[price][k].qty > 0);
                    }
                }
            }
        },
    }
}

/// No negative quantity rests within a taker's limit.
pub proof fn lemma_eligible_nonnegative(ladder: Ladder, taker_is_buy: bool, limit: Option<Price>)
    requires
        ladder.dom().finite(),
    ensures
        0 <= eligible_total(ladder, taker_is_buy, limit),
    decreases ladder.dom().len(),
{
    lemma_best_of_finite(ladder.dom());
    match best_for(ladder.dom(), taker_is_buy) {
        None => {},
        Some(price) => {
            if !beyond_limit(price, limit, taker_is_buy) {
                lemma_level_total_nonnegative(ladder[price]);
                lemma_eligible_nonnegative(ladder.remove(price), taker_is_buy, limit);
            }
        },
    }
}

/// What matching does to the other side of the book. Where every resting
/// order had quantity, every trade has quantity. No price that stays on the
/// other side is better than the price of any trade. Each level that stays
/// is the tail of what it was, only its first order changed. What rested
/// within reach of the incoming order is what still rests there and what was
/// traded; and what was traded is the lesser of the incoming quantity and
/// what rested within its reach.
pub proof fn lemma_matched_takes_the_best(book: BookModel, incoming: Order, kind: OrderType)
    requires
        book.finite(),
    ensures
        ({
            let out = book.matched(incoming, kind);
            let limit = if kind == OrderType::Limit {
                Some(incoming.price)
            } else {
                None
            };
            let other_before = if incoming.is_buy {
                book.asks
            } else {
                book.bids
            };
            let other_after = if incoming.is_buy {
                out.book.asks
            } else {
                out.book.bids
            };
            let eligible = eligible_total(other_before, incoming.is_buy, limit);
            &&& book.positive() ==> forall|k: int|
                0 <= k < out.fills.len() ==> (#[trigger] out.fills[k]).qty > 0
            &&& forall|k: int, p: Price|
                0 <= k < out.fills.len() && #[trigger] other_after.contains_key(p) ==> met_first(
                    (#[trigger] out.fills[k]).price,
                    p,
                    incoming.is_buy,
                )
            &&& forall|p: Price| #[trigger]
                other_after.contains_key(p) ==> other_before.contains_key(p) && is_tail_of(
                    other_after[p],
                    other_before[p],
                )
            &&& eligible == eligible_total(other_after, incoming.is_buy, limit) + filled_qty(
                out.fills,
            )
            &&& filled_qty(out.fills) == if incoming.qty <= eligible {
                incoming.qty as int
            } else {
                eligible
            }
        }),
{
    let limit = if kind == OrderType::Limit {
        Some(incoming.price)
    } else {
        None
    };
    let other = if incoming.is_buy {
        book.asks
    } else {
        book.bids
    };
    lemma_sweep_makers(other, incoming.is_buy, limit, incoming.qty);
}

/// Matching conserves quantity. What is filled and what found no
/// counterparty add up to the incoming quantity, so the fills together take
/// no more than the incoming order had. Each fill is made against an order
/// that rested on the other side, at that order's price, and takes no more
/// than that order held nor more than the incoming order wanted; a limit
/// order is never filled at a price beyond its own.
pub proof fn lemma_matched_conserves(book: BookModel, incoming: Order, kind: OrderType)
    requires
        book.finite(),
    ensures
        filled_qty(book.matched(incoming, kind).fills) + book.matched(incoming, kind).qty_left
            == incoming.qty,
        filled_qty(book.matched(incoming, kind).fills) <= incoming.qty,
        forall|k: int|
            0 <= k < book.matched(incoming, kind).fills.len() ==> {
                let fill = #[trigger] book.matched(incoming, kind).fills[k];
                &&& hits(
                    if incoming.is_buy {
                        book.asks
                    } else {
                        book.bids
                    },
                    fill,
                )
                &&& fill.qty <= incoming.qty
                &&& fill.is_buy == !incoming.is_buy
                &&& kind == OrderType::Limit ==> if incoming.is_buy {
                    fill.price <= incoming.price
                } else {
                    fill.price >= incoming.price
                }
            },
{
    let limit = if kind == OrderType::Limit {
        Some(incoming.price)
    } else {
        None
    };
    let other = if incoming.is_buy {
        book.asks
    } else {
        book.bids
    };
    lemma_sweep(other, incoming.is_buy, limit, incoming.qty, !incoming.is_buy);
    lemma_sweep_fills(other, incoming.is_buy, limit, incoming.qty);
}

/// A sweep that finds no price within the taker's limit fills nothing and
/// leaves the ladder as it was.
pub proof fn lemma_sweep_out_of_reach(
    ladder: Ladder,
    taker_is_buy: bool,
    limit: Option<Price>,
    qty: Quantity,
)
    requires
        ladder.dom().finite(),
        forall|p: Price| #[trigger] ladder.contains_key(p) ==> beyond_limit(p, limit, taker_is_buy),
    ensures
        sweep(ladder, taker_is_buy, limit, qty).fills == Seq::<Fill>::empty(),
        sweep(ladder, taker_is_buy, limit, qty).ladder == ladder,
        sweep(ladder, taker_is_buy, limit, qty).qty_left == qty,
{
    lemma_best_of_finite(ladder.dom());
    match best_for(ladder.dom(), taker_is_buy) {
        None => {},
        Some(price) => {
            assert(ladder.contains_key(price));
        },
    }
}

/// A market order never rests: whatever it could not take is dropped, and its
/// own side of the book stays as it was. Where the other side is empty it
/// trades nothing and all of its quantity stays open.
pub proof fn lemma_market_never_rests(book: BookModel, incoming: Order)
    requires
        book.finite(),
    ensures
        incoming.is_buy ==> book.matched(incoming, OrderType::Market).book.bids == book.bids,
        !incoming.is_buy ==> book.matched(incoming, OrderType::Market).book.asks == book.asks,
        (if incoming.is_buy {
            book.asks
        } else {
            book.bids
        }).dom().is_empty() ==> book.matched(incoming, OrderType::Market).fills.len() == 0
            && book.matched(incoming, OrderType::Market).qty_left == incoming.qty,
{
    let other = if incoming.is_buy {
        book.asks
    } else {
        book.bids
    };
    if other.dom().is_empty() {
        lemma_sweep_out_of_reach(other, incoming.is_buy, None, incoming.qty);
    }
}

/// The total of a queue with one more order at its tail is the old total
/// plus that order's quantity.
pub proof fn lemma_level_total_push(queue: Seq<Order>, order: Order)
    ensures
        level_total(queue.push(order)) == level_total(queue) + order.qty,
{
    assert(queue.push(order).drop_last() =~= queue);
    assert(queue.push(order).last() == order);
}

/// With at least as many rows asked for as the ladder has levels, every
/// level is a row of the depth, with its price and its total quantity.
pub proof fn lemma_depth_lists_level(ladder: Ladder, levels: nat, ascending: bool, price: Price)
    requires
        ladder.dom().finite(),
        ladder.contains_key(price),
        levels >= ladder.dom().len(),
    ensures
        depth_rows(ladder, levels, ascending).contains((price, level_total(ladder[price]))),
    decreases levels,
{
    lemma_best_of_finite(ladder.dom());
    assert(ladder.dom().contains(price));
    assert(ladder.dom().len() > 0);
    let first = best_for(ladder.dom(), ascending)->0;
    let rows = depth_rows(ladder, levels, ascending);
    let later = depth_rows(ladder.remove(first), (levels - 1) as nat, ascending);
    assert(rows == seq![(first, level_total(ladder[first]))] + later);
    if first == price {
        assert(rows[0] == (price, level_total(ladder[price])));
    } else {
        lemma_depth_lists_level(ladder.remove(first), (levels - 1) as nat, ascending, price);
        let k = choose|k: int|
            0 <= k < later.len() && later[k] == (price, level_total(ladder.remove(first)[price]));
        assert(rows[k + 1] == later[k]);
    }
}

/// A limit order with quantity that does not reach the other side trades
/// nothing: it rests whole at the tail of the level of its price and the
/// other side is untouched. Asked for as many rows as its side then has
/// levels, the depth of that side lists the order's price once, with the
/// order's quantity added to what rested there.
pub proof fn lemma_resting_limit_is_seen(book: BookModel, incoming: Order, levels: nat)
    requires
        book.wf(),
        incoming.qty > 0,
        !book.crossed_by(incoming),
        levels >= place(
            if incoming.is_buy {
                book.bids
            } else {
                book.asks
            },
            incoming,
        ).dom().len(),
    ensures
        ({
            let out = book.matched(incoming, OrderType::Limit);
            let own_before = if incoming.is_buy {
                book.bids
            } else {
                book.asks
            };
            let own_after = if incoming.is_buy {
                out.book.bids
            } else {
                out.book.asks
            };
            let rested_before = if own_before.contains_key(incoming.price) {
                level_total(own_before[incoming.price])
            } else {
                0
            };
            let rows = depth_rows(own_after, levels, !incoming.is_buy);
            &&& out.fills.len() == 0
            &&& out.qty_left == incoming.qty
            &&& own_after == place(own_before, incoming)
            &&& incoming.is_buy ==> out.book.asks == book.asks
            &&& !incoming.is_buy ==> out.book.bids == book.bids
            &&& own_after[incoming.price].last() == incoming
            &&& rows.contains((incoming.price, rested_before + incoming.qty))
            &&& forall|i: int|
                0 <= i < rows.len() && (#[trigger] rows[i]).0 == incoming.price ==> rows[i] == (
                    incoming.price,
                    rested_before + incoming.qty,
                )
            &&& forall|i: int, j: int|
                0 <= i < rows.len() && 0 <= j < rows.len() && (#[trigger] rows[i]).0
                    == incoming.price && (#[trigger] rows[j]).0 == incoming.price ==> i == j
        }),
{
    let out = book.matched(incoming, OrderType::Limit);
    let other = if incoming.is_buy {
        book.asks
    } else {
        book.bids
    };
    let own_before = if incoming.is_buy {
        book.bids
    } else {
        book.asks
    };
    let limit = Some(incoming.price);
    assert forall|p: Price| #[trigger] other.contains_key(p) implies beyond_limit(
        p,
        limit,
        incoming.is_buy,
    ) by {
        if !beyond_limit(p, limit, incoming.is_buy) {
            assert(book.crossed_by(incoming));
        }
    }
    lemma_sweep_out_of_reach(other, incoming.is_buy, limit, incoming.qty);
    let residual = Order { qty: incoming.qty, ..incoming };
    assert(residual == incoming);
    let own_after = place(own_before, incoming);
    assert(own_after.dom() =~= own_before.dom().insert(incoming.price));
    lemma_depth_lists_level(own_after, levels, !incoming.is_buy, incoming.price);
    lemma_depth_shape(own_after, levels, !incoming.is_buy);
    if own_before.contains_key(incoming.price) {
        lemma_level_total_push(own_before[incoming.price], incoming);
    } else {
        lemma_level_total_push(Seq::<Order>::empty(), incoming);
    }
}

/// The ids of a run of submissions come in strictly increasing order, so no
/// two orders of the run share one: where each submission is processed
/// against the service as the one before left it, whatever its symbol, side
/// and type, an earlier order has the smaller id.
pub proof fn lemma_ids_increase_over_run(
    services: Seq<MatchingService>,
    inputs: Seq<CreateOrderInput>,
    results: Seq<Result<ProcessOrderResult, EngineError>>,
)
    requires
        services.len() == results.len() + 1,
        inputs.len() == results.len(),
        forall|k: int|
            0 <= k < results.len() ==> processed(
                services[k],
                services[k + 1],
                inputs[k],
                #[trigger] results[k],
            ),
    ensures
        forall|i: int, j: int|
            0 <= i < j < results.len() ==> services[i].next_order_id < services[j].next_order_id,
        forall|i: int|
            0 <= i < results.len() ==> ((#[trigger] results[i]) matches Ok(done) ==> done.order_id
                == services[i].next_order_id),
        forall|i: int, j: int|
            0 <= i < j < results.len() ==> ((#[trigger] results[i]) matches Ok(first) ==> ((
            #[trigger] results[j]) matches Ok(second) ==> first.order_id < second.order_id)),
{
    let counters = Seq::new(services.len(), |k: int| services[k].next_order_id);
    let ids = Seq::new(results.len(), |k: int| services[k].next_order_id);
    assert forall|k: int| 0 <= k < ids.len() implies allocates(
        #[trigger] counters[k],
        counters[k + 1],
        ids[k],
    ) by {
        assert(processed(services[k], services[k + 1], inputs[k], results[k]));
    }
    lemma_order_ids_increase(counters, ids);
    assert forall|i: int, j: int| 0 <= i < j < results.len() implies services[i].next_order_id
        < services[j].next_order_id by {
        assert(ids[i] < ids[j]);
    }
    assert forall|i: int| 0 <= i < results.len() implies ((#[trigger] results[i]) matches Ok(
        done,
    ) ==> done.order_id == services[i].next_order_id) by {
        assert(processed(services[i], services[i + 1], inputs[i], results[i]));
    }
}

/// Order ids are handed out in strictly increasing order, so no two orders
/// share one: where each submission of a run takes the counter's value as its
/// id and moves the counter on by one, an earlier submission has the smaller
/// id.
pub proof fn lemma_order_ids_increase(counters: Seq<OrderId>, ids: Seq<OrderId>)
    requires
        counters.len() == ids.len() + 1,
        forall|k: int|
            0 <= k < ids.len() ==> allocates(#[trigger] counters[k], counters[k + 1], ids[k]),
    ensures
        forall|i: int, j: int| 0 <= i < j < ids.len() ==> ids[i] < ids[j],
{
    assert forall|i: int, j: int| 0 <= i < j < ids.len() implies ids[i] < ids[j] by {
        lemma_counter_advances(counters, ids, i, j);
    }
}

proof fn lemma_counter_advances(counters: Seq<OrderId>, ids: Seq<OrderId>, i: int, j: int)
    requires
        counters.len() == ids.len() + 1,
        forall|k: int|
            0 <= k < ids.len() ==> allocates(#[trigger] counters[k], counters[k + 1], ids[k]),
        0 <= i <= j < counters.len(),
    ensures
        counters[j] == counters[i] + (j - i),
    decreases j - i,
{
    if i < j {
        lemma_counter_advances(counters, ids, i, j - 1);
        assert(allocates(counters[j - 1], counters[j], ids[j - 1]));
    }
}

} // verus!
