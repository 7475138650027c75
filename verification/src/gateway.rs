use crate::clock::unix_now;
use crate::engine::engine::state_of;
use crate::engine::lemmas::lemma_rows_fit;
use crate::engine::model::{depth_rows, rows_fit, rows_match, BookModel};
use crate::global::{slot_of, MatchingService};
use crate::inputs::{OrderBookDepth, OrderBookState, Symbol};
use crate::json::{json_read, parse_json, text_at, text_in};
use vstd::prelude::*;
use vstd::string::StringExecFns;

verus! {

/// The number of price levels a snapshot shows of each side.
pub const SNAPSHOT_LEVELS: usize = 10;

/// What a client's frame says: the text it carries as its type and as its
/// symbol, where it carries them.
#[derive(Debug, PartialEq, Eq)]
pub struct ClientFrame {
    pub kind: Option<String>,
    pub symbol: Option<String>,
}

/// What a client may ask of the gateway.
#[derive(Debug, Clone, Copy, PartialEq, Eq, Structural)]
pub enum ClientCommand {
    Subscribe,
    Unsubscribe,
    GetOrderbook,
    Ping,
    Unknown,
}

/// A book as the gateway shows it: its state, its depth and the moment it
/// was looked at.
#[derive(Debug, PartialEq, Eq)]
pub struct FullSnapshot {
    pub state: OrderBookState,
    pub depth: OrderBookDepth,
    pub timestamp: i64,
}

/// Why the gateway could not show a book.
#[derive(Debug, Clone, Copy, PartialEq, Eq, Structural)]
pub enum GatewayError {
    /// The service has no book for the symbol.
    SymbolNotFound,
    /// A level of the book holds more than 64 bits can count.
    QuantityOverflow,
    /// The client's frame is no JSON document.
    Malformed,
}

/// What the gateway sends back to a client.
#[derive(Debug, PartialEq, Eq)]
pub enum GatewayReply {
    SubscriptionConfirmed { symbol: Symbol, message: String, orderbook: FullSnapshot },
    UnsubscribeConfirmed { symbol: Symbol, message: String },
    OrderbookSnapshot { symbol: Symbol, orderbook: FullSnapshot },
    Pong { timestamp: i64 },
    Error { message: String },
    /// Nothing is sent.
    Silent,
}

/// The text that a string holds, where there is one.
pub open spec fn text_of(held: Option<String>) -> Option<Seq<char>> {
    match held {
        Some(text) => Some(text@),
        None => None,
    }
}

/// The command that a frame's type names.
pub open spec fn command_named(kind: Option<Seq<char>>) -> ClientCommand {
    match kind {
        Some(kind) => if kind == "subscribe"@ {
            ClientCommand::Subscribe
        } else if kind == "unsubscribe"@ {
            ClientCommand::Unsubscribe
        } else if kind == "get_orderbook"@ {
            ClientCommand::GetOrderbook
        } else if kind == "ping"@ {
            ClientCommand::Ping
        } else {
            ClientCommand::Unknown
        },
        None => ClientCommand::Unknown,
    }
}

/// The symbol that a frame means: the one it names, and `BTCUSD` where it
/// names none; nothing where the name is no symbol's.
pub open spec fn symbol_meant(symbol: Option<Seq<char>>) -> Option<Symbol> {
    match symbol {
        Some(name) => Symbol::named(name),
        None => Some(Symbol::BTCUSD),
    }
}

/// The subscriptions with the symbol among them: added at the end if it was
/// not there.
pub open spec fn with_symbol(subscriptions: Seq<Symbol>, symbol: Symbol) -> Seq<Symbol> {
    if subscriptions.contains(symbol) {
        subscriptions
    } else {
        subscriptions.push(symbol)
    }
}

/// The subscriptions without the symbol, the others in their order.
pub open spec fn without_symbol(subscriptions: Seq<Symbol>, symbol: Symbol) -> Seq<Symbol> {
    subscriptions.filter(|held: Symbol| held != symbol)
}

/// The snapshot shows this book as it was looked at in this moment.
pub open spec fn shows(snapshot: FullSnapshot, book: BookModel, now: i64) -> bool {
    &&& snapshot.state == state_of(book)
    &&& rows_match(snapshot.depth.bids@, depth_rows(book.bids, SNAPSHOT_LEVELS as nat, false))
    &&& rows_match(snapshot.depth.asks@, depth_rows(book.asks, SNAPSHOT_LEVELS as nat, true))
    &&& snapshot.timestamp == now
}

/// The quantities that a snapshot of the book shows fit in 64 bits each.
pub open spec fn showable(book: BookModel) -> bool {
    &&& rows_fit(depth_rows(book.bids, SNAPSHOT_LEVELS as nat, false))
    &&& rows_fit(depth_rows(book.asks, SNAPSHOT_LEVELS as nat, true))
}

/// What asking the service for a snapshot of a symbol's book comes to.
pub open spec fn snapshot_taken(
    service: MatchingService,
    symbol: Symbol,
    now: i64,
    taken: Result<FullSnapshot, GatewayError>,
) -> bool {
    match slot_of(service.books@, symbol) {
        None => taken == Err::<FullSnapshot, GatewayError>(GatewayError::SymbolNotFound),
        Some(slot) => if showable(service.books@[slot]@) {
            taken matches Ok(snapshot) && shows(snapshot, service.books@[slot]@, now)
        } else {
            taken == Err::<FullSnapshot, GatewayError>(GatewayError::QuantityOverflow)
        },
    }
}

/// What the gateway answers to a frame that carries these texts as its type
/// and its symbol, and what becomes of the client's subscriptions.
pub open spec fn replied(
    kind: Option<Seq<char>>,
    named: Option<Seq<char>>,
    before: Seq<Symbol>,
    after: Seq<Symbol>,
    service: MatchingService,
    now: i64,
    reply: Result<GatewayReply, GatewayError>,
) -> bool {
    match command_named(kind) {
        ClientCommand::Subscribe => match symbol_meant(named) {
            None => {
                &&& after == before
                &&& reply matches Ok(GatewayReply::Error { message })
                &&& message@ == "Invalid symbol. Available: BTCUSD, ETHUSD, SOLUSD"@
            },
            Some(symbol) => {
                &&& after == with_symbol(before, symbol)
                &&& match reply {
                    Ok(
                        GatewayReply::SubscriptionConfirmed {
                            symbol: confirmed,
                            message,
                            orderbook,
                        },
                    ) => {
                        &&& confirmed == symbol
                        &&& message@ == "Subscribed to "@ + symbol.name_text() + " orderbook"@
                        &&& snapshot_taken(service, symbol, now, Ok(orderbook))
                    },
                    Ok(_) => false,
                    Err(failure) => snapshot_taken(service, symbol, now, Err(failure)),
                }
            },
        },
        ClientCommand::Unsubscribe => match symbol_meant(named) {
            None => after == before && reply matches Ok(GatewayReply::Silent),
            Some(symbol) => {
                &&& after == without_symbol(before, symbol)
                &&& reply matches Ok(
                    GatewayReply::UnsubscribeConfirmed { symbol: confirmed, message },
                )
                &&& confirmed == symbol
                &&& message@ == "Unsubscribed from "@ + symbol.name_text()
            },
        },
        ClientCommand::GetOrderbook => after == before && match symbol_meant(named) {
            None => reply matches Ok(GatewayReply::Error { message }) && message@
                == "Invalid symbol"@,
            Some(symbol) => match reply {
                Ok(GatewayReply::OrderbookSnapshot { symbol: shown, orderbook }) => {
                    &&& shown == symbol
                    &&& snapshot_taken(service, symbol, now, Ok(orderbook))
                },
                Ok(_) => false,
                Err(failure) => snapshot_taken(service, symbol, now, Err(failure)),
            },
        },
        ClientCommand::Ping => {
            &&& after == before
            &&& reply matches Ok(GatewayReply::Pong { timestamp })
            &&& timestamp == now
        },
        ClientCommand::Unknown => {
            &&& after == before
            &&& reply matches Ok(GatewayReply::Error { message })
            &&& message@
                == "Unknown message type. Available: subscribe, unsubscribe, get_orderbook, ping"@
        },
    }
}

/// The command that a frame's type names.
pub fn parse_command(kind: &Option<String>) -> (command: ClientCommand)
    ensures
        command == command_named(text_of(*kind)),
{
    match kind {
        Some(kind) => {
            if *kind == String::from_str("subscribe") {
                ClientCommand::Subscribe
            } else if *kind == String::from_str("unsubscribe") {
                ClientCommand::Unsubscribe
            } else if *kind == String::from_str("get_orderbook") {
                ClientCommand::GetOrderbook
            } else if *kind == String::from_str("ping") {
                ClientCommand::Ping
            } else {
                ClientCommand::Unknown
            }
        },
        None => ClientCommand::Unknown,
    }
}

/// The symbol that a frame means.
pub fn parse_symbol(symbol: &Option<String>) -> (meant: Option<Symbol>)
    ensures
        meant == symbol_meant(text_of(*symbol)),
{
    match symbol {
        Some(name) => Symbol::from_name(name.as_str()),
        None => Some(Symbol::BTCUSD),
    }
}

/// Whether the symbol is among the subscriptions.
pub fn is_subscribed(subscriptions: &Vec<Symbol>, symbol: Symbol) -> (held: bool)
    ensures
        held == subscriptions@.contains(symbol),
{
    let mut i: usize = 0;
    while i < subscriptions.len()
        invariant
            i <= subscriptions@.len(),
            forall|j: int| 0 <= j < i ==> subscriptions@[j] != symbol,
        decreases subscriptions@.len() - i,
    {
        if subscriptions[i] == symbol {
            return true;
        }
        i = i + 1;
    }
    false
}

/// Adds the symbol to the subscriptions unless it is among them.
pub fn subscribe(subscriptions: &mut Vec<Symbol>, symbol: Symbol)
    ensures
        final(subscriptions)@ == with_symbol(old(subscriptions)@, symbol),
{
    if !is_subscribed(subscriptions, symbol) {
        subscriptions.push(symbol);
    }
}

/// Takes the symbol out of the subscriptions, wherever it stands in them.
pub fn unsubscribe(subscriptions: &mut Vec<Symbol>, symbol: Symbol)
    ensures
        final(subscriptions)@ == without_symbol(old(subscriptions)@, symbol),
{
    let mut kept: Vec<Symbol> = Vec::new();
    let mut i: usize = 0;
    proof {
        reveal(Seq::filter);
        assert(subscriptions@.take(0) =~= Seq::<Symbol>::empty());
    }
    while i < subscriptions.len()
        invariant
            i <= subscriptions@.len(),
            kept@ == without_symbol(subscriptions@.take(i as int), symbol),
        decreases subscriptions@.len() - i,
    {
        proof {
            reveal(Seq::filter);
            assert(subscriptions@.take(i + 1).drop_last() =~= subscriptions@.take(i as int));
        }
        if subscriptions[i] != symbol {
            kept.push(subscriptions[i]);
        }
        i = i + 1;
    }
    assert(subscriptions@.take(i as int) =~= subscriptions@);
    *subscriptions = kept;
}

/// A snapshot of the symbol's book, stamped with the moment `now`.
pub fn full_snapshot_at(service: &MatchingService, symbol: Symbol, now: i64) -> (taken: Result<
    FullSnapshot,
    GatewayError,
>)
    ensures
        snapshot_taken(*service, symbol, now, taken),
{
    let slot = match service.find(symbol) {
        Some(slot) => slot,
        None => {
            return Err(GatewayError::SymbolNotFound);
        },
    };
    let book = &service.books[slot];
    match book.try_get_depth(SNAPSHOT_LEVELS) {
        Some(depth) => {
            proof {
                lemma_rows_fit(depth.bids@, depth_rows(book@.bids, SNAPSHOT_LEVELS as nat, false));
                lemma_rows_fit(depth.asks@, depth_rows(book@.asks, SNAPSHOT_LEVELS as nat, true));
            }
            Ok(FullSnapshot { state: book.snapshot(), depth, timestamp: now })
        },
        None => Err(GatewayError::QuantityOverflow),
    }
}

/// A snapshot of the symbol's book, stamped with the moment of the call.
pub fn get_full_orderbook_snapshot(service: &MatchingService, symbol: Symbol) -> (taken: Result<
    FullSnapshot,
    GatewayError,
>)
    ensures
        exists|now: i64| #[trigger] snapshot_taken(*service, symbol, now, taken),
{
    let now = unix_now();
    let taken = full_snapshot_at(service, symbol, now);
    assert(snapshot_taken(*service, symbol, now, taken));
    taken
}

/// Answers a client's frame at the moment `now` and keeps the client's
/// subscriptions.
pub fn reply_to_client(
    frame: &ClientFrame,
    subscriptions: &mut Vec<Symbol>,
    service: &MatchingService,
    now: i64,
) -> (reply: Result<GatewayReply, GatewayError>)
    ensures
        replied(
            text_of(frame.kind),
            text_of(frame.symbol),
            old(subscriptions)@,
            final(subscriptions)@,
            *service,
            now,
            reply,
        ),
{
    match parse_command(&frame.kind) {
        ClientCommand::Subscribe => match parse_symbol(&frame.symbol) {
            None => Ok(
                GatewayReply::Error {
                    message: String::from_str("Invalid symbol. Available: BTCUSD, ETHUSD, SOLUSD"),
                },
            ),
            Some(symbol) => {
                subscribe(subscriptions, symbol);
                match full_snapshot_at(service, symbol, now) {
                    Ok(orderbook) => {
                        let name = symbol.name();
                        let message = String::from_str("Subscribed to ").concat(
                            name.as_str(),
                        ).concat(" orderbook");
                        Ok(GatewayReply::SubscriptionConfirmed { symbol, message, orderbook })
                    },
                    Err(failure) => Err(failure),
                }
            },
        },
        ClientCommand::Unsubscribe => match parse_symbol(&frame.symbol) {
            None => Ok(GatewayReply::Silent),
            Some(symbol) => {
                unsubscribe(subscriptions, symbol);
                let name = symbol.name();
                let message = String::from_str("Unsubscribed from ").concat(name.as_str());
                Ok(GatewayReply::UnsubscribeConfirmed { symbol, message })
            },
        },
        ClientCommand::GetOrderbook => match parse_symbol(&frame.symbol) {
            None => Ok(GatewayReply::Error { message: String::from_str("Invalid symbol") }),
            Some(symbol) => match full_snapshot_at(service, symbol, now) {
                Ok(orderbook) => Ok(GatewayReply::OrderbookSnapshot { symbol, orderbook }),
                Err(failure) => Err(failure),
            },
        },
        ClientCommand::Ping => Ok(GatewayReply::Pong { timestamp: now }),
        ClientCommand::Unknown => Ok(
            GatewayReply::Error {
                message: String::from_str(
                    "Unknown message type. Available: subscribe, unsubscribe, get_orderbook, ping",
                ),
            },
        ),
    }
}

/// Answers a client's frame at the moment of the call and keeps the client's
/// subscriptions.
pub fn handle_client_message(
    frame: &ClientFrame,
    subscriptions: &mut Vec<Symbol>,
    service: &MatchingService,
) -> (reply: Result<GatewayReply, GatewayError>)
    ensures
        exists|now: i64| #[trigger]
            replied(
                text_of(frame.kind),
                text_of(frame.symbol),
                old(subscriptions)@,
                final(subscriptions)@,
                *service,
                now,
                reply,
            ),
{
    let now = unix_now();
    let reply = reply_to_client(frame, subscriptions, service, now);
    assert(replied(
        text_of(frame.kind),
        text_of(frame.symbol),
        old(subscriptions)@,
        subscriptions@,
        *service,
        now,
        reply,
    ));
    reply
}

/// What a client's text says, if it is a JSON document: the strings it holds
/// as its type and as its symbol.
pub fn read_client_frame(text: &str) -> (frame: Option<ClientFrame>)
    ensures
        match frame {
            Some(frame) => {
                &&& json_read(text@) is Some
                &&& text_of(frame.kind) == text_in(text@, "type"@)
                &&& text_of(frame.symbol) == text_in(text@, "symbol"@)
            },
            None => json_read(text@) is None,
        },
{
    match parse_json(text) {
        Ok(doc) => Some(
            ClientFrame { kind: text_at(&doc, "type"), symbol: text_at(&doc, "symbol") },
        ),
        Err(_) => None,
    }
}

/// Answers a client's text at the moment of the call and keeps the client's
/// subscriptions. A text that is no JSON document is refused as malformed and
/// changes nothing.
pub fn handle_client_text(
    text: &str,
    subscriptions: &mut Vec<Symbol>,
    service: &MatchingService,
) -> (reply: Result<GatewayReply, GatewayError>)
    ensures
        match json_read(text@) {
            Some(_) => exists|now: i64| #[trigger]
                replied(
                    text_in(text@, "type"@),
                    text_in(text@, "symbol"@),
                    old(subscriptions)@,
                    final(subscriptions)@,
                    *service,
                    now,
                    reply,
                ),
            None => {
                &&& reply == Err::<GatewayReply, GatewayError>(GatewayError::Malformed)
                &&& final(subscriptions)@ == old(subscriptions)@
            },
        },
{
    match read_client_frame(text) {
        Some(frame) => handle_client_message(&frame, subscriptions, service),
        None => Err(GatewayError::Malformed),
    }
}

/// The subscribed symbol that a market update with this symbol text is for.
pub open spec fn update_target(named: Option<Seq<char>>, subscriptions: Seq<Symbol>) -> Option<
    Symbol,
> {
    match named {
        Some(name) => match Symbol::named(name) {
            Some(symbol) => if subscriptions.contains(symbol) {
                Some(symbol)
            } else {
                None
            },
            None => None,
        },
        None => None,
    }
}

/// The symbol whose subscribers a market update goes to: the one the update
/// names, if it names a symbol that the client has subscribed to.
pub fn market_update_target(symbol_name: &Option<String>, subscriptions: &Vec<Symbol>) -> (target:
    Option<Symbol>)
    ensures
        target == update_target(text_of(*symbol_name), subscriptions@),
{
    match symbol_name {
        Some(name) => match Symbol::from_name(name.as_str()) {
            Some(symbol) => if is_subscribed(subscriptions, symbol) {
                Some(symbol)
            } else {
                None
            },
            None => None,
        },
        None => None,
    }
}

/// The symbol whose subscribers a published market update goes to: the one
/// that the update, read as a JSON document, names as its symbol, if the
/// client has subscribed to it.
pub fn market_update_target_in(payload: &str, subscriptions: &Vec<Symbol>) -> (target: Option<
    Symbol,
>)
    ensures
        target == update_target(text_in(payload@, "symbol"@), subscriptions@),
{
    match parse_json(payload) {
        Ok(update) => market_update_target(&text_at(&update, "symbol"), subscriptions),
        Err(_) => None,
    }
}

} // verus!
