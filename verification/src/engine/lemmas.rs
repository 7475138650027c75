use crate::engine::model::{
    best_for, beyond_limit, fill_level, filled_qty, highest, is_highest, is_lowest, ladder_positive,
    ladder_wf, level_total, lowest, place, rows_fit, rows_match, sweep, Fill, Ladder,
};
use crate::inputs::{Order, Price, Quantity};
use vstd::prelude::*;

verus! {

/// A price that is the least of a set is the one `lowest` names.
pub proof fn lemma_lowest_is(prices: Set<Price>, p: Price)
    requires
        is_lowest(prices, p),
    ensures
        lowest(prices) == Some(p),
{
    let chosen = choose|q: Price| is_lowest(prices, q);
    assert(is_lowest(prices, chosen));
    assert(chosen <= p && p <= chosen);
}

/// A price that is the greatest of a set is the one `highest` names.
pub proof fn lemma_highest_is(prices: Set<Price>, p: Price)
    requires
        is_highest(prices, p),
    ensures
        highest(prices) == Some(p),
{
    let chosen = choose|q: Price| is_highest(prices, q);
    assert(is_highest(prices, chosen));
    assert(chosen <= p && p <= chosen);
}

/// An empty set of prices has neither a lowest nor a highest.
pub proof fn lemma_no_best_of_empty(prices: Set<Price>)
    requires
        prices.is_empty(),
    ensures
        lowest(prices) is None,
        highest(prices) is None,
{
    assert forall|p: Price| !is_lowest(prices, p) by {
        assert(!prices.contains(p));
    }
    assert forall|p: Price| !is_highest(prices, p) by {
        assert(!prices.contains(p));
    }
}

/// A finite set of prices that is not empty has a lowest and a highest.
pub proof fn lemma_finite_has_best(prices: Set<Price>)
    requires
        prices.finite(),
        !prices.is_empty(),
    ensures
        exists|p: Price| is_lowest(prices, p),
        exists|p: Price| is_highest(prices, p),
    decreases prices.len(),
{
    let x = prices.choose();
    assert(prices.contains(x));
    let rest = prices.remove(x);
    if rest.is_empty() {
        assert forall|q: Price| prices.contains(q) implies q == x by {
            if q != x {
                assert(rest.contains(q));
            }
        }
        assert(is_lowest(prices, x));
        assert(is_highest(prices, x));
    } else {
        lemma_finite_has_best(rest);
        let low = choose|p: Price| is_lowest(rest, p);
        let high = choose|p: Price| is_highest(rest, p);
        let least = if x <= low {
            x
        } else {
            low
        };
        let most = if high <= x {
            x
        } else {
            high
        };
        assert forall|q: Price| prices.contains(q) implies least <= q && q <= most by {
            if q != x {
                assert(rest.contains(q));
            }
        }
        assert(is_lowest(prices, least));
        assert(is_highest(prices, most));
    }
}

/// Of a finite set of prices, `lowest` and `highest` are absent exactly when
/// the set is empty, and otherwise name its least and greatest member.
pub proof fn lemma_best_of_finite(prices: Set<Price>)
    requires
        prices.finite(),
    ensures
        lowest(prices) is None <==> prices.is_empty(),
        highest(prices) is None <==> prices.is_empty(),
        lowest(prices) matches Some(p) ==> is_lowest(prices, p),
        highest(prices) matches Some(p) ==> is_highest(prices, p),
{
    if prices.is_empty() {
        lemma_no_best_of_empty(prices);
    } else {
        lemma_finite_has_best(prices);
    }
}

/// The quantity filled by two runs of fills is the sum of what each filled.
pub proof fn lemma_filled_qty_concat(early: Seq<Fill>, late: Seq<Fill>)
    ensures
        filled_qty(early + late) == filled_qty(early) + filled_qty(late),
    decreases late.len(),
{
    if late.len() == 0 {
        assert(early + late =~= early);
    } else {
        assert((early + late).drop_last() =~= early + late.drop_last());
        lemma_filled_qty_concat(early, late.drop_last());
    }
}

/// No part of a run of fills fills more than the whole run.
pub proof fn lemma_filled_qty_prefix(fills: Seq<Fill>, n: int)
    requires
        0 <= n <= fills.len(),
    ensures
        0 <= filled_qty(fills.take(n)) <= filled_qty(fills),
    decreases fills.len() - n,
{
    if n == fills.len() {
        assert(fills.take(n) =~= fills);
        lemma_filled_qty_concat(Seq::empty(), fills);
        assert(Seq::<Fill>::empty() + fills =~= fills);
        lemma_filled_qty_nonnegative(fills);
    } else {
        lemma_filled_qty_prefix(fills, n + 1);
        assert(fills.take(n + 1).drop_last() =~= fills.take(n));
        lemma_filled_qty_nonnegative(fills.take(n));
    }
}

/// Fills fill no negative quantity.
pub proof fn lemma_filled_qty_nonnegative(fills: Seq<Fill>)
    ensures
        0 <= filled_qty(fills),
    decreases fills.len(),
{
    if fills.len() > 0 {
        lemma_filled_qty_nonnegative(fills.drop_last());
    }
}

/// A single fill fills its own quantity.
pub proof fn lemma_filled_qty_one(fill: Fill)
    ensures
        filled_qty(seq![fill]) == fill.qty,
{
    assert(seq![fill].drop_last() =~= Seq::<Fill>::empty());
    assert(filled_qty(Seq::<Fill>::empty()) == 0);
    assert(seq![fill].last() == fill);
}

/// A taker that leaves a level with quantity still open has emptied it.
pub proof fn lemma_open_taker_empties_level(
    level: Seq<Order>,
    price: Price,
    taker_is_buy: bool,
    qty: Quantity,
)
    ensures
        fill_level(level, price, taker_is_buy, qty).qty_left > 0 ==> fill_level(
            level,
            price,
            taker_is_buy,
            qty,
        ).rest.len() == 0,
    decreases level.len(),
{
    if level.len() > 0 && qty > 0 && level[0].qty <= qty {
        lemma_open_taker_empties_level(
            level.drop_first(),
            price,
            taker_is_buy,
            (qty - level[0].qty) as Quantity,
        );
    }
}

/// What taking from one level does: the fills go down the queue from its
/// head, one for each order hit, none for more than the order held or the
/// taker wanted; what is filled and what stays open add up to what was
/// wanted; and the orders that stay are the tail of the queue, unchanged but
/// for the quantity of the first.
pub proof fn lemma_fill_level(level: Seq<Order>, price: Price, taker_is_buy: bool, qty: Quantity)
    ensures
        ({
            let out = fill_level(level, price, taker_is_buy, qty);
            let gone = level.len() - out.rest.len();
            &&& filled_qty(out.fills) + out.qty_left == qty
            &&& out.qty_left <= qty
            &&& 0 <= gone <= out.fills.len() <= gone + 1
            &&& out.fills.len() <= level.len()
            &&& forall|i: int|
                0 <= i < out.fills.len() ==> {
                    let fill = #[trigger] out.fills[i];
                    &&& fill.id == level[i].id
                    &&& fill.price == price
                    &&& fill.is_buy == !taker_is_buy
                    &&& fill.qty <= level[i].qty
                    &&& fill.qty <= qty
                }
            &&& forall|i: int|
                0 <= i < out.rest.len() ==> {
                    let stays = #[trigger] out.rest[i];
                    let was = level[gone + i];
                    &&& stays == Order { qty: stays.qty, ..was }
                    &&& stays.qty <= was.qty
                    &&& was.qty > 0 ==> stays.qty > 0
                }
        }),
    decreases level.len(),
{
    let out = fill_level(level, price, taker_is_buy, qty);
    if level.len() == 0 || qty == 0 {
        assert(out.fills =~= Seq::<Fill>::empty());
    } else if level[0].qty <= qty {
        let head = level[0];
        let fill = Fill { id: head.id, price, qty: head.qty, is_buy: !taker_is_buy };
        let open = (qty - head.qty) as Quantity;
        let tail = fill_level(level.drop_first(), price, taker_is_buy, open);
        lemma_fill_level(level.drop_first(), price, taker_is_buy, open);
        lemma_filled_qty_concat(seq![fill], tail.fills);
        lemma_filled_qty_one(fill);
        let gone_tail = level.drop_first().len() - tail.rest.len();
        assert forall|i: int| 0 <= i < out.fills.len() implies {
            let f = #[trigger] out.fills[i];
            &&& f.id == level[i].id
            &&& f.price == price
            &&& f.is_buy == !taker_is_buy
            &&& f.qty <= level[i].qty
            &&& f.qty <= qty
        } by {
            if i > 0 {
                assert(out.fills[i] == tail.fills[i - 1]);
                assert(level.drop_first()[i - 1] == level[i]);
            }
        }
        assert forall|i: int| 0 <= i < out.rest.len() implies {
            let stays = #[trigger] out.rest[i];
            let was = level[level.len() - out.rest.len() + i];
            &&& stays == Order { qty: stays.qty, ..was }
            &&& stays.qty <= was.qty
            &&& was.qty > 0 ==> stays.qty > 0
        } by {
            assert(out.rest[i] == tail.rest[i]);
            assert(level.drop_first()[gone_tail + i] == level[gone_tail + i + 1]);
        }
    } else {
        let head = level[0];
        let fill = Fill { id: head.id, price, qty, is_buy: !taker_is_buy };
        lemma_filled_qty_one(fill);
    }
}

/// No part of a queue holds more than the whole queue.
pub proof fn lemma_level_total_prefix(queue: Seq<Order>, n: int)
    requires
        0 <= n <= queue.len(),
    ensures
        0 <= level_total(queue.take(n)) <= level_total(queue),
    decreases queue.len() - n,
{
    if n == queue.len() {
        assert(queue.take(n) =~= queue);
        lemma_level_total_nonnegative(queue);
    } else {
        lemma_level_total_prefix(queue, n + 1);
        assert(queue.take(n + 1).drop_last() =~= queue.take(n));
        lemma_level_total_nonnegative(queue.take(n));
    }
}

/// A queue holds no negative quantity.
pub proof fn lemma_level_total_nonnegative(queue: Seq<Order>)
    ensures
        0 <= level_total(queue),
    decreases queue.len(),
{
    if queue.len() > 0 {
        lemma_level_total_nonnegative(queue.drop_last());
    }
}

/// Levels that rows of 64-bit numbers carry have totals that fit in 64 bits.
pub proof fn lemma_rows_fit(rows: Seq<(u64, u64)>, levels: Seq<(Price, int)>)
    requires
        rows_match(rows, levels),
    ensures
        rows_fit(levels),
{
    assert forall|i: int| 0 <= i < levels.len() implies (#[trigger] levels[i]).1 <= u64::MAX by {
        assert(rows[i].1 == levels[i].1);
    }
}

/// Resting an order on its own side keeps that side's ladder well formed.
pub proof fn lemma_place_wf(ladder: Ladder, order: Order)
    requires
        ladder_wf(ladder, order.is_buy),
    ensures
        ladder_wf(place(ladder, order), order.is_buy),
        ladder_positive(ladder) && order.qty > 0 ==> ladder_positive(place(ladder, order)),
{
    let placed = place(ladder, order);
    assert(placed.dom() =~= ladder.dom().insert(order.price));
    assert forall|p: Price, i: int| placed.contains_key(p) && 0 <= i < placed[p].len() implies (
    #[trigger] placed[p][i]).price == p && placed[p][i].is_buy == order.is_buy by {
        if p == order.price && ladder.contains_key(p) && i < ladder[p].len() {
            assert(placed[p][i] == ladder[p][i]);
        } else if p != order.price {
            assert(placed[p][i] == ladder[p][i]);
        }
    }
    if ladder_positive(ladder) && order.qty > 0 {
        assert forall|p: Price, i: int|
            placed.contains_key(p) && 0 <= i < placed[p].len() implies (#[trigger] placed[p][i]).qty
            > 0 by {
            if p == order.price && ladder.contains_key(p) && i < ladder[p].len() {
                assert(placed[p][i] == ladder[p][i]);
            } else if p != order.price {
                assert(placed[p][i] == ladder[p][i]);
            }
        }
    }
}

/// What taking from a ladder keeps: the ladder stays finite and gains no
/// price; a well-formed ladder stays well formed; resting quantities that were
/// positive stay positive; what is filled and what stays open add up to what
/// was wanted; and a taker with quantity still open has left no price within
/// its limit.
pub proof fn lemma_sweep(
    ladder: Ladder,
    taker_is_buy: bool,
    limit: Option<Price>,
    qty: Quantity,
    resting_is_buy: bool,
)
    requires
        ladder.dom().finite(),
    ensures
        ({
            let out = sweep(ladder, taker_is_buy, limit, qty);
            &&& out.ladder.dom().finite()
            &&& out.ladder.dom().subset_of(ladder.dom())
            &&& filled_qty(out.fills) + out.qty_left == qty
            &&& out.qty_left <= qty
            &&& ladder_wf(ladder, resting_is_buy) ==> ladder_wf(out.ladder, resting_is_buy)
            &&& ladder_positive(ladder) ==> ladder_positive(out.ladder)
            &&& out.qty_left > 0 ==> forall|p: Price| #[trigger]
                out.ladder.contains_key(p) ==> beyond_limit(p, limit, taker_is_buy)
        }),
    decreases ladder.dom().len(),
{
    let out = sweep(ladder, taker_is_buy, limit, qty);
    lemma_best_of_finite(ladder.dom());
    match best_for(ladder.dom(), taker_is_buy) {
        None => {
            assert(out.fills =~= Seq::<Fill>::empty());
        },
        Some(price) => {
            assert(ladder.contains_key(price));
            if beyond_limit(price, limit, taker_is_buy) {
                assert(out.fills =~= Seq::<Fill>::empty());
            } else {
                let at = fill_level(ladder[price], price, taker_is_buy, qty);
                lemma_fill_level(ladder[price], price, taker_is_buy, qty);
                let gone = ladder[price].len() - at.rest.len();
                if at.qty_left == 0 {
                    if at.rest.len() > 0 {
                        assert(out.ladder.dom() =~= ladder.dom());
                        assert forall|p: Price, i: int|
                            out.ladder.contains_key(p) && 0 <= i < out.ladder[p].len() implies {
                            let stays = #[trigger] out.ladder[p][i];
                            &&& ladder_wf(ladder, resting_is_buy) ==> stays.price == p
                                && stays.is_buy == resting_is_buy
                            &&& ladder_positive(ladder) ==> stays.qty > 0
                        } by {
                            if p == price {
                                assert(out.ladder[p][i] == at.rest[i]);
                                assert(at.rest[i].qty <= ladder[price][gone + i].qty);
                            } else {
                                assert(out.ladder[p][i] == ladder[p][i]);
                            }
                        }
                    } else {
                        assert forall|p: Price, i: int|
                            out.ladder.contains_key(p) && 0 <= i < out.ladder[p].len() implies {
                            let stays = #[trigger] out.ladder[p][i];
                            &&& ladder_wf(ladder, resting_is_buy) ==> stays.price == p
                                && stays.is_buy == resting_is_buy
                            &&& ladder_positive(ladder) ==> stays.qty > 0
                        } by {
                            assert(out.ladder[p][i] == ladder[p][i]);
                        }
                    }
                } else {
                    let fewer = ladder.remove(price);
                    lemma_sweep(fewer, taker_is_buy, limit, at.qty_left, resting_is_buy);
                    let beyond = sweep(fewer, taker_is_buy, limit, at.qty_left);
                    lemma_filled_qty_concat(at.fills, beyond.fills);
                    if ladder_wf(ladder, resting_is_buy) {
                        assert(ladder_wf(fewer, resting_is_buy));
                    }
                    if ladder_positive(ladder) {
                        assert(ladder_positive(fewer));
                    }
                }
            }
        },
    }
}

} // verus!
