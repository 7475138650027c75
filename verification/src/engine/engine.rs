use crate::engine::ladder::{ladder_prices, strictly_ascending};
use crate::engine::lemmas::{
    lemma_highest_is, lemma_level_total_prefix, lemma_lowest_is, lemma_no_best_of_empty,
};
use crate::engine::model::{
    depth_rows, ladder_of, level_total, rows_fit, rows_match, BookModel, Ladder,
};
use crate::engine::service::{add_order, match_order};
use crate::global::{slot_of, EngineError, MatchingService};
use crate::inputs::{Order, OrderBook, OrderBookDepth, OrderBookState, OrderType, Price, Symbol};
use std::collections::BTreeMap;
use vstd::pervasive::unreached;
use vstd::prelude::*;
use vstd::std_specs::btree::group_btree_axioms;

verus! {

/// Whether a price is still to be listed after `k` rows of depth.
pub open spec fn unlisted(prices: Seq<Price>, ascending: bool, k: int, p: Price) -> bool {
    k < prices.len() && if ascending {
        prices[k] <= p
    } else {
        p <= prices[prices.len() - 1 - k]
    }
}

/// The total quantity resting in one level, if it fits in 64 bits.
fn level_quantity(level: &Vec<Order>) -> (total: Option<u64>)
    ensures
        match total {
            Some(sum) => sum == level_total(level@),
            None => level_total(level@) > u64::MAX,
        },
{
    let mut total: u64 = 0;
    let mut i: usize = 0;
    while i < level.len()
        invariant
            i <= level.len(),
            total == level_total(level@.take(i as int)),
        decreases level.len() - i,
    {
        proof {
            lemma_level_total_prefix(level@, i + 1);
            assert(level@.take(i + 1).drop_last() =~= level@.take(i as int));
        }
        match total.checked_add(level[i].qty) {
            Some(sum) => {
                total = sum;
            },
            None => {
                return None;
            },
        }
        i = i + 1;
    }
    assert(level@.take(i as int) =~= level@);
    Some(total)
}

/// The first `levels` levels of a ladder with their totals, from the lowest
/// price up if `ascending`, else from the highest price down; nothing if one
/// of these totals does not fit in 64 bits.
fn depth_side(ladder: &BTreeMap<Price, Vec<Order>>, levels: usize, ascending: bool) -> (rows:
    Option<Vec<(u64, u64)>>)
    ensures
        match rows {
            Some(rows) => rows_match(
                rows@,
                depth_rows(ladder_of(ladder@), levels as nat, ascending),
            ),
            None => !rows_fit(depth_rows(ladder_of(ladder@), levels as nat, ascending)),
        },
{
    broadcast use group_btree_axioms;

    let prices = ladder_prices(ladder);
    let n = prices.len();
    let ghost whole = ladder_of(ladder@);
    let ghost mut rest: Ladder = whole;
    let ghost mut listed: Seq<(Price, int)> = Seq::empty();
    let mut rows: Vec<(u64, u64)> = Vec::new();
    let mut k: usize = 0;
    assert(whole.dom() =~= ladder@.dom());
    assert forall|p: Price| whole.contains_key(p) implies unlisted(prices@, ascending, 0, p) by {
        assert(prices@.to_set().contains(p));
        let j = choose|j: int| 0 <= j < prices@.len() && prices@[j] == p;
        assert(prices@[j] == p);
    }
    while k < n && k < levels
        invariant
            n == prices@.len(),
            k <= n,
            k <= levels,
            prices@.to_set() == whole.dom(),
            strictly_ascending(prices@),
            whole == ladder_of(ladder@),
            rest.dom().finite(),
            forall|p: Price|
                rest.contains_key(p) <==> whole.contains_key(p) && unlisted(
                    prices@,
                    ascending,
                    k as int,
                    p,
                ),
            forall|p: Price| rest.contains_key(p) ==> rest[p] == whole[p],
            depth_rows(whole, levels as nat, ascending) == listed + depth_rows(
                rest,
                (levels - k) as nat,
                ascending,
            ),
            rows_match(rows@, listed),
        decreases n - k,
    {
        let price = if ascending {
            prices[k]
        } else {
            prices[n - 1 - k]
        };
        let ghost row = (price, level_total(rest[price]));
        let ghost fewer = rest.remove(price);
        let ghost later = depth_rows(fewer, (levels - k - 1) as nat, ascending);
        proof {
            assert(prices@.to_set().contains(price));
            assert(rest.contains_key(price));
            if ascending {
                lemma_lowest_is(rest.dom(), price);
            } else {
                lemma_highest_is(rest.dom(), price);
            }
            assert(listed + (seq![row] + later) =~= listed.push(row) + later);
        }
        let total = match ladder.get(&price) {
            Some(level) => level_quantity(level),
            None => unreached(),
        };
        match total {
            Some(total) => {
                rows.push((price, total));
            },
            None => {
                proof {
                    let model = depth_rows(whole, levels as nat, ascending);
                    assert(model[listed.len() as int] == row);
                }
                return None;
            },
        }
        proof {
            assert forall|p: Price| fewer.contains_key(p) <==> whole.contains_key(p) && unlisted(
                prices@,
                ascending,
                k + 1,
                p,
            ) by {
                if whole.contains_key(p) {
                    assert(prices@.to_set().contains(p));
                    let j = choose|j: int| 0 <= j < prices@.len() && prices@[j] == p;
                    assert(prices@[j] == p);
                }
            }
            listed = listed.push(row);
            rest = fewer;
        }
        k = k + 1;
    }
    proof {
        if k < levels {
            assert(rest.dom().is_empty()) by {
                assert forall|p: Price| !rest.dom().contains(p) by {
                    assert(!unlisted(prices@, ascending, k as int, p));
                }
            }
            lemma_no_best_of_empty(rest.dom());
        }
        assert(listed + Seq::<(Price, int)>::empty() =~= listed);
    }
    Some(rows)
}

impl OrderBook {
    /// The empty book of a symbol, with the seed as its current price.
    pub open spec fn new_model(symbol: Symbol, price: Price) -> BookModel {
        BookModel {
            bids: Map::empty(),
            asks: Map::empty(),
            symbol,
            current_price: Some(price),
            last_trade_price: None,
            current_best_bid: None,
            current_best_ask: None,
        }
    }

    /// An empty book for the symbol, with the seed as its current price.
    pub fn new(symbol: Symbol, price: Price) -> (book: Self)
        ensures
            book@ == Self::new_model(symbol, price),
            book.wf(),
            book@.positive(),
            book@.uncrossed(),
    {
        let book = Self {
            symbol,
            asks: BTreeMap::new(),
            bids: BTreeMap::new(),
            current_price: Some(price),
            current_best_ask: None,
            current_best_bid: None,
            last_trade_price: None,
        };
        proof {
            assert(book@.bids =~= Map::empty());
            assert(book@.asks =~= Map::empty());
            lemma_no_best_of_empty(book@.bids.dom());
            lemma_no_best_of_empty(book@.asks.dom());
        }
        book
    }

    /// Rests the order on its side of the book, without matching, and
    /// refreshes the top of book.
    pub fn add_order(&mut self, order: Order)
        ensures
            final(self)@ == old(self)@.added(order),
            old(self).wf() ==> final(self).wf(),
            old(self).wf() && old(self)@.positive() && order.qty > 0 ==> final(self)@.positive(),
            old(self).wf() && old(self)@.uncrossed() && !old(self)@.crossed_by(order)
                ==> final(self)@.uncrossed(),
    {
        add_order(self, order);
    }

    /// Matches the incoming order against the other side in price-time
    /// priority; see [`match_order`].
    pub fn match_order(&mut self, incoming_order: &Order, order_type: OrderType) -> (trades: Vec<
        Order,
    >)
        ensures
            final(self)@ == old(self)@.matched(*incoming_order, order_type).book,
            crate::engine::model::trades_match(
                trades@,
                old(self)@.matched(*incoming_order, order_type).fills,
            ),
            old(self).wf() ==> final(self).wf(),
            old(self).wf() && old(self)@.positive() ==> final(self)@.positive(),
            old(self).wf() && old(self)@.uncrossed() ==> final(self)@.uncrossed(),
    {
        match_order(self, incoming_order, order_type)
    }

    /// The top `levels` price levels of each side with the total quantity
    /// resting at each: bids from the highest price down, asks from the
    /// lowest price up.
    ///
    /// The totals asked for must fit in 64 bits each; [`Self::try_get_depth`]
    /// asks nothing.
    pub fn get_depth(&self, levels: usize) -> (depth: OrderBookDepth)
        requires
            rows_fit(depth_rows(self@.bids, levels as nat, false)),
            rows_fit(depth_rows(self@.asks, levels as nat, true)),
        ensures
            rows_match(depth.bids@, depth_rows(self@.bids, levels as nat, false)),
            rows_match(depth.asks@, depth_rows(self@.asks, levels as nat, true)),
    {
        match self.try_get_depth(levels) {
            Some(depth) => depth,
            None => unreached(),
        }
    }

    /// The depth of the book as [`Self::get_depth`] gives it, or nothing if
    /// one of the totals asked for does not fit in 64 bits.
    pub fn try_get_depth(&self, levels: usize) -> (depth: Option<OrderBookDepth>)
        ensures
            match depth {
                Some(depth) => {
                    &&& rows_match(depth.bids@, depth_rows(self@.bids, levels as nat, false))
                    &&& rows_match(depth.asks@, depth_rows(self@.asks, levels as nat, true))
                },
                None => !rows_fit(depth_rows(self@.bids, levels as nat, false)) || !rows_fit(
                    depth_rows(self@.asks, levels as nat, true),
                ),
            },
    {
        let bids = match depth_side(&self.bids, levels, false) {
            Some(rows) => rows,
            None => {
                return None;
            },
        };
        let asks = match depth_side(&self.asks, levels, true) {
            Some(rows) => rows,
            None => {
                return None;
            },
        };
        Some(OrderBookDepth { bids, asks })
    }

    /// The snapshot of the symbol's book in the service, or `SymbolNotFound`
    /// if the service has no book for the symbol.
    pub fn get_orderbook_snapshot(service: &MatchingService, symbol: Symbol) -> (result: Result<
        OrderBookState,
        EngineError,
    >)
        ensures
            match slot_of(service.books@, symbol) {
                Some(slot) => result == Ok::<OrderBookState, EngineError>(
                    state_of(service.books@[slot]@),
                ),
                None => result == Err::<OrderBookState, EngineError>(EngineError::SymbolNotFound),
            },
    {
        match service.find(symbol) {
            Some(slot) => Ok(service.books[slot].snapshot()),
            None => Err(EngineError::SymbolNotFound),
        }
    }

    /// The symbol, the prices last traded and current, and the top of book.
    pub fn snapshot(&self) -> (state: OrderBookState)
        ensures
            state == state_of(self@),
    {
        OrderBookState {
            symbol: self.symbol,
            current_price: self.current_price,
            best_bid: self.current_best_bid,
            best_ask: self.current_best_ask,
            last_trade_price: self.last_trade_price,
        }
    }
}

/// What a snapshot of the book reports.
pub open spec fn state_of(book: BookModel) -> OrderBookState {
    OrderBookState {
        symbol: book.symbol,
        current_price: book.current_price,
        best_bid: book.current_best_bid,
        best_ask: book.current_best_ask,
        last_trade_price: book.last_trade_price,
    }
}

} // verus!
