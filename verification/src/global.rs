use crate::inputs::{OrderBook, Price, Symbol};
use vstd::prelude::*;

verus! {

/// The books of the process and the counter that numbers its orders.
///
/// A book is looked up by its symbol; of two books with one symbol the
/// earlier is the one found, and a well-formed service holds no such pair.
#[derive(Debug)]
pub struct MatchingService {
    pub books: Vec<OrderBook>,
    pub next_order_id: u64,
}

/// Why the engine turned a request down.
#[derive(Debug, Clone, Copy, PartialEq, Eq, Structural)]
pub enum EngineError {
    /// An order names a symbol that has no book.
    InvalidSymbol,
    /// A snapshot was asked of a symbol that has no book.
    SymbolNotFound,
}

impl EngineError {
    /// The error in words.
    pub open spec fn message_text(self) -> Seq<char> {
        match self {
            EngineError::InvalidSymbol => "Invalid Symbol"@,
            EngineError::SymbolNotFound => "Symbol not found"@,
        }
    }

    /// The error in words, as it is reported to the caller.
    pub fn message(&self) -> (text: String)
        ensures
            text@ == self.message_text(),
    {
        match self {
            EngineError::InvalidSymbol => "Invalid Symbol".to_owned(),
            EngineError::SymbolNotFound => "Symbol not found".to_owned(),
        }
    }
}

/// Some book in the list is the symbol's.
pub open spec fn lists(books: Seq<OrderBook>, symbol: Symbol) -> bool {
    exists|i: int| is_slot(books, symbol, i)
}

/// `i` is the place of the first book of the symbol.
pub open spec fn is_slot(books: Seq<OrderBook>, symbol: Symbol, i: int) -> bool {
    &&& 0 <= i < books.len()
    &&& books[i].symbol == symbol
    &&& forall|j: int| 0 <= j < i ==> books[j].symbol != symbol
}

/// The place of the symbol's book, if it has one.
pub open spec fn slot_of(books: Seq<OrderBook>, symbol: Symbol) -> Option<int> {
    if lists(books, symbol) {
        Some(choose|i: int| is_slot(books, symbol, i))
    } else {
        None
    }
}

/// The place of the first book of a symbol is the one `slot_of` names.
pub proof fn lemma_slot_is(books: Seq<OrderBook>, symbol: Symbol, i: int)
    requires
        is_slot(books, symbol, i),
    ensures
        slot_of(books, symbol) == Some(i),
{
    let chosen = choose|k: int| is_slot(books, symbol, k);
    assert(is_slot(books, symbol, chosen));
    assert(!(chosen < i) && !(i < chosen));
}

/// A list without a book of the symbol has no place for it.
pub proof fn lemma_no_slot(books: Seq<OrderBook>, symbol: Symbol)
    requires
        forall|j: int| 0 <= j < books.len() ==> books[j].symbol != symbol,
    ensures
        slot_of(books, symbol) is None,
{
}

impl MatchingService {
    /// Every book is well formed and no two books share a symbol.
    pub open spec fn wf(&self) -> bool {
        &&& forall|i: int| 0 <= i < self.books@.len() ==> (#[trigger] self.books@[i]).wf()
        &&& forall|i: int, j: int|
            0 <= i < j < self.books@.len() ==> (#[trigger] self.books@[i]).symbol != (
            #[trigger] self.books@[j]).symbol
    }

    /// A service without books, whose first order will be number 1.
    pub fn new() -> (service: Self)
        ensures
            service.books@.len() == 0,
            service.next_order_id == 1,
            service.wf(),
    {
        MatchingService { books: Vec::new(), next_order_id: 1 }
    }

    /// A service with an empty book for each symbol, each seeded with its
    /// current price, whose first order will be number 1.
    pub fn with_seeds(btcusd: Price, ethusd: Price, solusd: Price) -> (service: Self)
        ensures
            service.books@.len() == 3,
            service.books@[0]@ == OrderBook::new_model(Symbol::BTCUSD, btcusd),
            service.books@[1]@ == OrderBook::new_model(Symbol::ETHUSD, ethusd),
            service.books@[2]@ == OrderBook::new_model(Symbol::SOLUSD, solusd),
            service.next_order_id == 1,
            service.wf(),
    {
        let mut books: Vec<OrderBook> = Vec::new();
        books.push(OrderBook::new(Symbol::BTCUSD, btcusd));
        books.push(OrderBook::new(Symbol::ETHUSD, ethusd));
        books.push(OrderBook::new(Symbol::SOLUSD, solusd));
        MatchingService { books, next_order_id: 1 }
    }

    /// The place of the symbol's book, if it has one.
    pub fn find(&self, symbol: Symbol) -> (slot: Option<usize>)
        ensures
            match slot {
                Some(i) => slot_of(self.books@, symbol) == Some(i as int),
                None => slot_of(self.books@, symbol) is None && forall|j: int|
                    0 <= j < self.books@.len() ==> self.books@[j].symbol != symbol,
            },
    {
        let mut i: usize = 0;
        while i < self.books.len()
            invariant
                i <= self.books@.len(),
                forall|j: int| 0 <= j < i ==> self.books@[j].symbol != symbol,
            decreases self.books@.len() - i,
        {
            if self.books[i].symbol == symbol {
                proof {
                    lemma_slot_is(self.books@, symbol, i as int);
                }
                return Some(i);
            }
            i = i + 1;
        }
        proof {
            lemma_no_slot(self.books@, symbol);
        }
        None
    }

    /// Gives the symbol a fresh, empty book with the seed as its current
    /// price, in place of the book it had, if any.
    pub fn register(&mut self, symbol: Symbol, price: Price)
        ensures
            final(self).next_order_id == old(self).next_order_id,
            match slot_of(old(self).books@, symbol) {
                Some(i) => final(self).books@ == old(self).books@.update(
                    i,
                    final(self).books@[i],
                ),
                None => final(self).books@ == old(self).books@.push(
                    final(self).books@[old(self).books@.len() as int],
                ),
            },
            slot_of(final(self).books@, symbol) matches Some(i) && final(self).books@[i]@
                == OrderBook::new_model(symbol, price),
            old(self).wf() ==> final(self).wf(),
    {
        let book = OrderBook::new(symbol, price);
        match self.find(symbol) {
            Some(i) => {
                self.books.set(i, book);
                proof {
                    lemma_slot_is(self.books@, symbol, i as int);
                }
            },
            None => {
                self.books.push(book);
                proof {
                    lemma_slot_is(self.books@, symbol, old(self).books@.len() as int);
                }
            },
        }
    }
}

} // verus!
