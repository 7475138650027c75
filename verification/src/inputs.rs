use std::collections::BTreeMap;
use vstd::prelude::*;
use vstd::string::StringExecFns;

verus! {

pub type OrderId = u64;

/// A price in cents: the decimal price times one hundred, truncated.
pub type Price = u64;

pub type Quantity = u64;

/// An order as it arrives at intake, with its price already in cents.
#[derive(Debug, Clone, Copy, PartialEq, Eq, Structural)]
pub struct CreateOrderInput {
    pub symbol: Symbol,
    pub price: Price,
    pub quantity: u32,
    pub user_id: u32,
    pub side: Side,
    pub order_type: OrderType,
}

#[derive(Debug, Clone, Copy, PartialEq, Eq, Structural)]
pub enum Side {
    Buy,
    Sell,
}

/// Limit orders rest on the book with what they could not match; market
/// orders never rest.
#[derive(Debug, Clone, Copy, PartialEq, Eq, Structural)]
pub enum OrderType {
    Limit,
    Market,
}

/// The closed set of tradable instruments.
#[derive(Debug, Clone, Copy, PartialEq, Eq, Hash, Structural)]
pub enum Symbol {
    BTCUSD,
    ETHUSD,
    SOLUSD,
}

impl Symbol {
    /// The name of the symbol on the wire.
    pub open spec fn name_text(self) -> Seq<char> {
        match self {
            Symbol::BTCUSD => "BTCUSD"@,
            Symbol::ETHUSD => "ETHUSD"@,
            Symbol::SOLUSD => "SOLUSD"@,
        }
    }

    /// The name of the symbol on the wire.
    pub fn name(&self) -> (text: String)
        ensures
            text@ == self.name_text(),
    {
        match self {
            Symbol::BTCUSD => String::from_str("BTCUSD"),
            Symbol::ETHUSD => String::from_str("ETHUSD"),
            Symbol::SOLUSD => String::from_str("SOLUSD"),
        }
    }

    /// The symbol of that name, if there is one.
    pub open spec fn named(name: Seq<char>) -> Option<Symbol> {
        if name == Symbol::BTCUSD.name_text() {
            Some(Symbol::BTCUSD)
        } else if name == Symbol::ETHUSD.name_text() {
            Some(Symbol::ETHUSD)
        } else if name == Symbol::SOLUSD.name_text() {
            Some(Symbol::SOLUSD)
        } else {
            None
        }
    }

    /// The symbol of that name, if there is one.
    pub fn from_name(name: &str) -> (symbol: Option<Symbol>)
        ensures
            symbol == Self::named(name@),
    {
        let wanted = String::from_str(name);
        if wanted == Symbol::BTCUSD.name() {
            Some(Symbol::BTCUSD)
        } else if wanted == Symbol::ETHUSD.name() {
            Some(Symbol::ETHUSD)
        } else if wanted == Symbol::SOLUSD.name() {
            Some(Symbol::SOLUSD)
        } else {
            None
        }
    }

    /// Every symbol in a fixed order.
    pub fn all() -> (symbols: Vec<Symbol>)
        ensures
            symbols@ == seq![Symbol::BTCUSD, Symbol::ETHUSD, Symbol::SOLUSD],
    {
        let mut symbols: Vec<Symbol> = Vec::new();
        symbols.push(Symbol::BTCUSD);
        symbols.push(Symbol::ETHUSD);
        symbols.push(Symbol::SOLUSD);
        assert(symbols@ =~= seq![Symbol::BTCUSD, Symbol::ETHUSD, Symbol::SOLUSD]);
        symbols
    }

    /// No two symbols share a name, so every symbol is the one its name
    /// stands for.
    pub proof fn lemma_names_differ(a: Symbol, b: Symbol)
        ensures
            a.name_text() == b.name_text() ==> a == b,
            Self::named(a.name_text()) == Some(a),
    {
        reveal_strlit("BTCUSD");
        reveal_strlit("ETHUSD");
        reveal_strlit("SOLUSD");
        assert("BTCUSD"@[0] == 'B');
        assert("ETHUSD"@[0] == 'E');
        assert("SOLUSD"@[0] == 'S');
    }
}

/// A resting order, an incoming order, or a trade.
///
/// As a trade, `id` and `price` are those of the resting order that was hit,
/// `qty` is the matched quantity and `is_buy` is the side of the resting order.
#[derive(Debug, PartialEq, Eq)]
pub struct Order {
    pub id: OrderId,
    pub price: Price,
    pub qty: Quantity,
    pub is_buy: bool,
    pub order_type: OrderType,
    pub time: String,
}

impl Clone for Order {
    fn clone(&self) -> (copy: Self)
        ensures
            copy == *self,
    {
        Order {
            id: self.id,
            price: self.price,
            qty: self.qty,
            is_buy: self.is_buy,
            order_type: self.order_type,
            time: self.time.clone(),
        }
    }
}

/// The book of one symbol: two price ladders, each level a queue in arrival
/// order, and the cached top of book.
#[derive(Debug)]
pub struct OrderBook {
    pub bids: BTreeMap<Price, Vec<Order>>,
    pub asks: BTreeMap<Price, Vec<Order>>,
    pub symbol: Symbol,
    pub current_price: Option<Price>,
    pub last_trade_price: Option<Price>,
    pub current_best_bid: Option<Price>,
    pub current_best_ask: Option<Price>,
}

/// Price levels as `(price, total resting quantity)`: bids from the highest
/// price down, asks from the lowest price up.
#[derive(Debug, PartialEq, Eq)]
pub struct OrderBookDepth {
    pub bids: Vec<(u64, u64)>,
    pub asks: Vec<(u64, u64)>,
}

#[derive(Debug, PartialEq, Eq)]
pub struct ProcessOrderResult {
    pub order_id: u64,
    pub trades: Vec<Order>,
    pub remaining_quantity: u64,
    pub orderbook_state: OrderBookState,
}

#[derive(Debug, Clone, Copy, PartialEq, Eq, Structural)]
pub struct OrderBookState {
    pub symbol: Symbol,
    pub current_price: Option<u64>,
    pub best_bid: Option<u64>,
    pub best_ask: Option<u64>,
    pub last_trade_price: Option<u64>,
}

} // verus!
