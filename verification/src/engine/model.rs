use crate::inputs::{Order, OrderBook, OrderId, OrderType, Price, Quantity, Symbol};
use vstd::prelude::*;

verus! {

/// One side of a book: each price that has resting orders, with its queue in
/// arrival order.
pub type Ladder = Map<Price, Seq<Order>>;

/// The ladder that a map of queues stands for.
pub open spec fn ladder_of(levels: Map<Price, Vec<Order>>) -> Ladder {
    Map::new(|p: Price| levels.contains_key(p), |p: Price| levels[p]@)
}

/// `p` is a price of the set and none of the set is below it.
pub open spec fn is_lowest(prices: Set<Price>, p: Price) -> bool {
    &&& prices.contains(p)
    &&& forall|q: Price| prices.contains(q) ==> p <= q
}

/// `p` is a price of the set and none of the set is above it.
pub open spec fn is_highest(prices: Set<Price>, p: Price) -> bool {
    &&& prices.contains(p)
    &&& forall|q: Price| prices.contains(q) ==> q <= p
}

/// The least price of the set, if it has one.
pub open spec fn lowest(prices: Set<Price>) -> Option<Price> {
    if exists|p: Price| is_lowest(prices, p) {
        Some(choose|p: Price| is_lowest(prices, p))
    } else {
        None
    }
}

/// The greatest price of the set, if it has one.
pub open spec fn highest(prices: Set<Price>) -> Option<Price> {
    if exists|p: Price| is_highest(prices, p) {
        Some(choose|p: Price| is_highest(prices, p))
    } else {
        None
    }
}

/// The price a taker meets first: the lowest ask for a buyer, the highest bid
/// for a seller.
pub open spec fn best_for(prices: Set<Price>, taker_is_buy: bool) -> Option<Price> {
    if taker_is_buy {
        lowest(prices)
    } else {
        highest(prices)
    }
}

/// Whether a resting price is out of reach of a taker with the given limit.
pub open spec fn beyond_limit(price: Price, limit: Option<Price>, taker_is_buy: bool) -> bool {
    match limit {
        Some(l) => if taker_is_buy {
            price > l
        } else {
            price < l
        },
        None => false,
    }
}

/// A ladder of one side holds no empty level, and every order rests at its own
/// price on its own side.
pub open spec fn ladder_wf(ladder: Ladder, is_buy: bool) -> bool {
    &&& ladder.dom().finite()
    &&& forall|p: Price| #[trigger] ladder.contains_key(p) ==> ladder[p].len() > 0
    &&& forall|p: Price, i: int|
        ladder.contains_key(p) && 0 <= i < ladder[p].len() ==> (#[trigger] ladder[p][i]).price == p
            && ladder[p][i].is_buy == is_buy
}

/// Every resting order of the ladder has quantity left.
pub open spec fn ladder_positive(ladder: Ladder) -> bool {
    forall|p: Price, i: int|
        ladder.contains_key(p) && 0 <= i < ladder[p].len() ==> (#[trigger] ladder[p][i]).qty > 0
}

/// What a trade records, apart from the moment it was made.
pub struct Fill {
    pub id: OrderId,
    pub price: Price,
    pub qty: Quantity,
    pub is_buy: bool,
}

/// A trade record carries exactly this fill.
pub open spec fn is_trade(trade: Order, fill: Fill) -> bool {
    &&& trade.id == fill.id
    &&& trade.price == fill.price
    &&& trade.qty == fill.qty
    &&& trade.is_buy == fill.is_buy
    &&& trade.order_type == OrderType::Limit
}

/// The trade records carry exactly these fills, in this order.
pub open spec fn trades_match(trades: Seq<Order>, fills: Seq<Fill>) -> bool {
    &&& trades.len() == fills.len()
    &&& forall|i: int| 0 <= i < trades.len() ==> is_trade(#[trigger] trades[i], fills[i])
}

/// The sum of the fills' quantities.
pub open spec fn filled_qty(fills: Seq<Fill>) -> int
    decreases fills.len(),
{
    if fills.len() == 0 {
        0
    } else {
        filled_qty(fills.drop_last()) + fills.last().qty
    }
}

/// What taking from one price level leaves: the fills made, the queue that
/// stays, and the taker's open quantity.
pub struct LevelOutcome {
    pub fills: Seq<Fill>,
    pub rest: Seq<Order>,
    pub qty_left: Quantity,
}

/// Takes `qty` from a level, head first. An order that is filled whole leaves
/// the queue; one that is filled in part stays at the head with what is left.
pub open spec fn fill_level(
    level: Seq<Order>,
    price: Price,
    taker_is_buy: bool,
    qty: Quantity,
) -> LevelOutcome
    decreases level.len(),
{
    if level.len() == 0 || qty == 0 {
        LevelOutcome { fills: Seq::empty(), rest: level, qty_left: qty }
    } else {
        let head = level[0];
        if head.qty <= qty {
            let fill = Fill { id: head.id, price, qty: head.qty, is_buy: !taker_is_buy };
            let tail = fill_level(
                level.drop_first(),
                price,
                taker_is_buy,
                (qty - head.qty) as Quantity,
            );
            LevelOutcome {
                fills: seq![fill] + tail.fills,
                rest: tail.rest,
                qty_left: tail.qty_left,
            }
        } else {
            let fill = Fill { id: head.id, price, qty, is_buy: !taker_is_buy };
            let reduced = Order { qty: (head.qty - qty) as Quantity, ..head };
            LevelOutcome { fills: seq![fill], rest: level.update(0, reduced), qty_left: 0 }
        }
    }
}

/// What taking from a ladder leaves: the fills made, the ladder that stays,
/// and the taker's open quantity.
pub struct SweepOutcome {
    pub fills: Seq<Fill>,
    pub ladder: Ladder,
    pub qty_left: Quantity,
}

/// Takes `qty` from the resting side, best price first, as far as the limit
/// reaches. A level that is emptied leaves the ladder.
pub open spec fn sweep(
    ladder: Ladder,
    taker_is_buy: bool,
    limit: Option<Price>,
    qty: Quantity,
) -> SweepOutcome
    decreases ladder.dom().len(),
    when ladder.dom().finite()
{
    match best_for(ladder.dom(), taker_is_buy) {
        None => SweepOutcome { fills: Seq::empty(), ladder, qty_left: qty },
        Some(price) => if beyond_limit(price, limit, taker_is_buy) {
            SweepOutcome { fills: Seq::empty(), ladder, qty_left: qty }
        } else {
            let at = fill_level(ladder[price], price, taker_is_buy, qty);
            if at.qty_left == 0 {
                SweepOutcome {
                    fills: at.fills,
                    ladder: if at.rest.len() == 0 {
                        ladder.remove(price)
                    } else {
                        ladder.insert(price, at.rest)
                    },
                    qty_left: 0,
                }
            } else {
                let beyond = sweep(ladder.remove(price), taker_is_buy, limit, at.qty_left);
                SweepOutcome {
                    fills: at.fills + beyond.fills,
                    ladder: beyond.ladder,
                    qty_left: beyond.qty_left,
                }
            }
        },
    }
}

/// The quantity that rests in a ladder within a taker's limit, added up from
/// the taker's best price outward; without a limit, all that rests in it.
pub open spec fn eligible_total(ladder: Ladder, taker_is_buy: bool, limit: Option<Price>) -> int
    decreases ladder.dom().len(),
    when ladder.dom().finite()
{
    match best_for(ladder.dom(), taker_is_buy) {
        None => 0,
        Some(price) => if beyond_limit(price, limit, taker_is_buy) {
            0
        } else {
            level_total(ladder[price]) + eligible_total(
                ladder.remove(price),
                taker_is_buy,
                limit,
            )
        },
    }
}

/// The ladder with the order at the tail of the queue of its price.
pub open spec fn place(ladder: Ladder, order: Order) -> Ladder {
    let queue = if ladder.contains_key(order.price) {
        ladder[order.price]
    } else {
        Seq::empty()
    };
    ladder.insert(order.price, queue.push(order))
}

/// The total quantity resting in a queue.
pub open spec fn level_total(queue: Seq<Order>) -> int
    decreases queue.len(),
{
    if queue.len() == 0 {
        0
    } else {
        level_total(queue.drop_last()) + queue.last().qty
    }
}

/// The first `levels` price levels of a ladder as `(price, total quantity)`,
/// from the lowest price up if `ascending`, else from the highest price down.
pub open spec fn depth_rows(ladder: Ladder, levels: nat, ascending: bool) -> Seq<(Price, int)>
    decreases levels,
{
    if levels == 0 {
        Seq::empty()
    } else {
        match best_for(ladder.dom(), ascending) {
            None => Seq::empty(),
            Some(price) => seq![(price, level_total(ladder[price]))] + depth_rows(
                ladder.remove(price),
                (levels - 1) as nat,
                ascending,
            ),
        }
    }
}

/// The book of one symbol as mathematics.
#[verifier::ext_equal]
pub struct BookModel {
    pub bids: Ladder,
    pub asks: Ladder,
    pub symbol: Symbol,
    pub current_price: Option<Price>,
    pub last_trade_price: Option<Price>,
    pub current_best_bid: Option<Price>,
    pub current_best_ask: Option<Price>,
}

/// What matching an incoming order leaves: the book, the fills in the order
/// they were made, and the quantity that found no counterparty.
pub struct MatchOutcome {
    pub book: BookModel,
    pub fills: Seq<Fill>,
    pub qty_left: Quantity,
}

/// The rows carry exactly these prices and totals, in this order.
pub open spec fn rows_match(rows: Seq<(u64, u64)>, levels: Seq<(Price, int)>) -> bool {
    &&& rows.len() == levels.len()
    &&& forall|i: int|
        0 <= i < rows.len() ==> (#[trigger] rows[i]).0 == levels[i].0 && rows[i].1 == levels[i].1
}

/// The total of every one of these levels fits in 64 bits.
pub open spec fn rows_fit(levels: Seq<(Price, int)>) -> bool {
    forall|i: int| 0 <= i < levels.len() ==> (#[trigger] levels[i]).1 <= u64::MAX
}

impl BookModel {
    /// Both ladders have finitely many levels, as every book in memory has.
    pub open spec fn finite(self) -> bool {
        self.bids.dom().finite() && self.asks.dom().finite()
    }

    /// Both ladders are well formed and the cached top of book is the highest
    /// bid and the lowest ask.
    pub open spec fn wf(self) -> bool {
        &&& ladder_wf(self.bids, true)
        &&& ladder_wf(self.asks, false)
        &&& self.current_best_bid == highest(self.bids.dom())
        &&& self.current_best_ask == lowest(self.asks.dom())
    }

    /// Every resting order has quantity left.
    pub open spec fn positive(self) -> bool {
        ladder_positive(self.bids) && ladder_positive(self.asks)
    }

    /// No bid is at or above any ask.
    pub open spec fn uncrossed(self) -> bool {
        forall|b: Price, a: Price| self.bids.contains_key(b) && self.asks.contains_key(a) ==> b < a
    }

    /// Whether resting this order would put it at or through the other side.
    pub open spec fn crossed_by(self, order: Order) -> bool {
        if order.is_buy {
            exists|a: Price| self.asks.contains_key(a) && a <= order.price
        } else {
            exists|b: Price| self.bids.contains_key(b) && order.price <= b
        }
    }

    /// The same book with its top of book computed anew.
    pub open spec fn refreshed(self) -> BookModel {
        BookModel {
            current_best_bid: highest(self.bids.dom()),
            current_best_ask: lowest(self.asks.dom()),
            ..self
        }
    }

    /// The same book with the order resting at the tail of its level; no
    /// matching is done.
    pub open spec fn rested(self, order: Order) -> BookModel {
        if order.is_buy {
            BookModel { bids: place(self.bids, order), ..self }
        } else {
            BookModel { asks: place(self.asks, order), ..self }
        }
    }

    /// The book after the order was added: it rests at the tail of its level
    /// and the top of book is computed anew.
    pub open spec fn added(self, order: Order) -> BookModel {
        self.rested(order).refreshed()
    }

    /// Matches the incoming order against the other side in price-time
    /// priority. A `Limit` order takes only prices within its own and rests
    /// what is left; a `Market` order takes any price and rests nothing.
    pub open spec fn matched(self, incoming: Order, kind: OrderType) -> MatchOutcome {
        let limit = if kind == OrderType::Limit {
            Some(incoming.price)
        } else {
            None
        };
        let swept = sweep(
            if incoming.is_buy {
                self.asks
            } else {
                self.bids
            },
            incoming.is_buy,
            limit,
            incoming.qty,
        );
        let traded_at = if swept.fills.len() > 0 {
            Some(swept.fills.last().price)
        } else {
            None
        };
        let taken = BookModel {
            bids: if incoming.is_buy {
                self.bids
            } else {
                swept.ladder
            },
            asks: if incoming.is_buy {
                swept.ladder
            } else {
                self.asks
            },
            current_price: if traded_at is Some {
                traded_at
            } else {
                self.current_price
            },
            last_trade_price: if traded_at is Some {
                traded_at
            } else {
                self.last_trade_price
            },
            ..self
        };
        let settled = if swept.qty_left > 0 && kind == OrderType::Limit {
            taken.rested(Order { qty: swept.qty_left, ..incoming })
        } else {
            taken
        };
        MatchOutcome { book: settled.refreshed(), fills: swept.fills, qty_left: swept.qty_left }
    }
}

impl View for OrderBook {
    type V = BookModel;

    open spec fn view(&self) -> BookModel {
        BookModel {
            bids: ladder_of(self.bids@),
            asks: ladder_of(self.asks@),
            symbol: self.symbol,
            current_price: self.current_price,
            last_trade_price: self.last_trade_price,
            current_best_bid: self.current_best_bid,
            current_best_ask: self.current_best_ask,
        }
    }
}

impl OrderBook {
    /// The book is well formed: see [`BookModel::wf`].
    pub open spec fn wf(&self) -> bool {
        self@.wf()
    }

    /// A book in memory has finitely many price levels.
    pub proof fn lemma_finite(&self)
        ensures
            self@.finite(),
    {
        broadcast use vstd::std_specs::btree::group_btree_axioms;

        assert(self@.bids.dom() =~= self.bids@.dom());
        assert(self@.asks.dom() =~= self.asks@.dom());
    }
}

} // verus!
