use crate::clock::unix_now;
use crate::engine::service::{process_order, processed};
use crate::fabric::{response_channel, response_topic, UNKNOWN_REQUEST};
use crate::global::{EngineError, MatchingService};
use crate::inputs::{CreateOrderInput, Order, Price, ProcessOrderResult, Symbol};
use crate::json::{parse_json, text_at, text_in};
use vstd::prelude::*;

verus! {

/// The seconds the worker waits after the broker failed before it goes on.
pub const QUEUE_BACKOFF_SECONDS: u64 = 5;

/// What an envelope holds in place of an order.
#[derive(Debug, PartialEq, Eq)]
pub enum Submission {
    /// An order that was read whole.
    Order(CreateOrderInput),
    /// Text that is no order, with the decoder's words on why.
    Malformed(String),
}

/// One item of the work queue.
#[derive(Debug, PartialEq, Eq)]
pub struct WorkEnvelope {
    pub request_id: Option<String>,
    pub submission: Submission,
}

/// What the worker met: when it asked the queue for work, or when it went
/// to publish.
#[derive(Debug, PartialEq, Eq)]
pub enum WorkerEvent {
    /// The queue handed over an item.
    Dequeued(WorkEnvelope),
    /// The queue could not be asked.
    QueueFailed,
    /// The broker did not take what this action was to publish.
    PublishFailed(WorkerAction),
}

/// The one reply to a request.
#[derive(Debug, PartialEq, Eq)]
pub enum WorkerReply {
    /// The order was matched; this is what came of it.
    Result(ProcessOrderResult),
    /// The order was not matched. On the wire the reply carries these words
    /// and the result id 0.
    Error { error: String },
}

/// The trades of one order and the market they left, for all who listen.
#[derive(Debug, PartialEq, Eq)]
pub struct MarketUpdate {
    pub symbol: Symbol,
    pub trades: Vec<Order>,
    pub current_price: Option<Price>,
    pub best_bid: Option<Price>,
    pub best_ask: Option<Price>,
    pub timestamp: i64,
}

/// What the worker does, in the order given.
#[derive(Debug, PartialEq, Eq)]
pub enum WorkerAction {
    /// Publish the reply on the request's own topic.
    Respond { channel: String, reply: WorkerReply },
    /// Publish the update on the market-updates topic.
    Broadcast { update: MarketUpdate },
    /// Wait before asking the queue again.
    Backoff { seconds: u64 },
}

/// What a blocking pop of the work queue handed over: the name of the queue
/// and, after it, the item. Anything shorter holds no item.
pub fn popped_item(popped: &Vec<String>) -> (item: Option<&String>)
    ensures
        match item {
            Some(item) => popped@.len() >= 2 && *item == popped@[1],
            None => popped@.len() < 2,
        },
{
    if popped.len() >= 2 {
        Some(&popped[1])
    } else {
        None
    }
}

/// The side of a trade as a market update names it.
pub fn side_name(is_buy: bool) -> (name: &'static str)
    ensures
        name@ == if is_buy {
            "buy"@
        } else {
            "sell"@
        },
{
    if is_buy {
        "buy"
    } else {
        "sell"
    }
}

/// The envelope that an item of the work queue is: the string it holds as its
/// request id, if it is a JSON document that holds one, and the submission
/// that was decoded from it.
pub fn read_envelope(text: &str, submission: Submission) -> (envelope: WorkEnvelope)
    ensures
        envelope.submission == submission,
        match envelope.request_id {
            Some(id) => text_in(text@, "request_id"@) == Some(id@),
            None => text_in(text@, "request_id"@) is None,
        },
{
    let request_id = match parse_json(text) {
        Ok(doc) => text_at(&doc, "request_id"),
        Err(_) => None,
    };
    WorkEnvelope { request_id, submission }
}

/// The request id under which an envelope is answered.
pub open spec fn answered_as(request_id: Option<String>) -> Seq<char> {
    match request_id {
        Some(id) => id@,
        None => UNKNOWN_REQUEST@,
    }
}

/// The update tells of this result: its trades and the top of its book.
pub open spec fn tells_of(update: MarketUpdate, done: ProcessOrderResult) -> bool {
    &&& update.symbol == done.orderbook_state.symbol
    &&& update.trades@ == done.trades@
    &&& update.current_price == done.orderbook_state.current_price
    &&& update.best_bid == done.orderbook_state.best_bid
    &&& update.best_ask == done.orderbook_state.best_ask
}

/// The actions answer an outcome on the channel: first the reply to the
/// caller, with the result or the words of the error; then, if and only if
/// the order traded, the market update.
pub open spec fn answers(
    actions: Seq<WorkerAction>,
    channel: Seq<char>,
    outcome: Result<ProcessOrderResult, EngineError>,
) -> bool {
    &&& actions.len() >= 1
    &&& actions[0] matches WorkerAction::Respond { channel: named, reply }
    &&& named@ == channel
    &&& match outcome {
        Ok(done) => {
            &&& reply == WorkerReply::Result(done)
            &&& if done.trades@.len() > 0 {
                &&& actions.len() == 2
                &&& actions[1] matches WorkerAction::Broadcast { update }
                &&& tells_of(update, done)
            } else {
                actions.len() == 1
            }
        },
        Err(refusal) => {
            &&& actions.len() == 1
            &&& reply matches WorkerReply::Error { error }
            &&& error@ == refusal.message_text()
        },
    }
}

/// The actions that answer the outcome of one order: the reply to the caller
/// first, then the market update if the order traded.
pub fn answer_outcome(
    request_id: &Option<String>,
    outcome: Result<ProcessOrderResult, EngineError>,
    timestamp: i64,
) -> (actions: Vec<WorkerAction>)
    ensures
        answers(actions@, response_topic(answered_as(*request_id)), outcome),
        actions@.len() == 2 ==> (actions@[1] matches WorkerAction::Broadcast { update }
            ==> update.timestamp == timestamp),
{
    let channel = match request_id {
        Some(id) => response_channel(id.as_str()),
        None => response_channel(UNKNOWN_REQUEST),
    };
    let mut actions: Vec<WorkerAction> = Vec::new();
    match outcome {
        Ok(done) => {
            let update = if done.trades.len() > 0 {
                let trades = done.trades.clone();
                assert(trades@ =~= done.trades@);
                Some(
                    MarketUpdate {
                        symbol: done.orderbook_state.symbol,
                        trades,
                        current_price: done.orderbook_state.current_price,
                        best_bid: done.orderbook_state.best_bid,
                        best_ask: done.orderbook_state.best_ask,
                        timestamp,
                    },
                )
            } else {
                None
            };
            actions.push(WorkerAction::Respond { channel, reply: WorkerReply::Result(done) });
            match update {
                Some(update) => {
                    actions.push(WorkerAction::Broadcast { update });
                },
                None => {},
            }
        },
        Err(refusal) => {
            actions.push(
                WorkerAction::Respond {
                    channel,
                    reply: WorkerReply::Error { error: refusal.message() },
                },
            );
        },
    }
    actions
}

/// One turn of the worker.
///
/// A queue that failed makes the worker wait. A publication that failed makes
/// it wait and then publish the same again; no failure of the broker ends the
/// worker or touches a book. An envelope that holds no
/// order is answered with the decoder's words and touches no book. An order
/// is numbered, stamped and matched against the book of its symbol, and what
/// came of it is answered: to the caller first, then, if it traded, to the
/// market.
pub fn worker_step(service: &mut MatchingService, event: WorkerEvent) -> (actions: Vec<
    WorkerAction,
>)
    requires
        event matches WorkerEvent::Dequeued(envelope) ==> (envelope.submission is Order
            ==> old(service).next_order_id < u64::MAX),
    ensures
        old(service).wf() ==> final(service).wf(),
        match event {
            WorkerEvent::QueueFailed => {
                &&& *final(service) == *old(service)
                &&& actions@ == seq![WorkerAction::Backoff { seconds: QUEUE_BACKOFF_SECONDS }]
            },
            WorkerEvent::PublishFailed(failed) => {
                &&& *final(service) == *old(service)
                &&& actions@ == seq![
                    WorkerAction::Backoff { seconds: QUEUE_BACKOFF_SECONDS },
                    failed,
                ]
            },
            WorkerEvent::Dequeued(envelope) => match envelope.submission {
                Submission::Malformed(words) => {
                    &&& *final(service) == *old(service)
                    &&& actions@.len() == 1
                    &&& actions@[0] matches WorkerAction::Respond { channel, reply }
                    &&& channel@ == response_topic(answered_as(envelope.request_id))
                    &&& reply == (WorkerReply::Error { error: words })
                },
                Submission::Order(input) => exists|
                    outcome: Result<ProcessOrderResult, EngineError>,
                |
                    {
                        &&& processed(*old(service), *final(service), input, outcome)
                        &&& #[trigger] answers(
                            actions@,
                            response_topic(answered_as(envelope.request_id)),
                            outcome,
                        )
                    },
            },
        },
{
    match event {
        WorkerEvent::QueueFailed => {
            let mut actions: Vec<WorkerAction> = Vec::new();
            actions.push(WorkerAction::Backoff { seconds: QUEUE_BACKOFF_SECONDS });
            actions
        },
        WorkerEvent::PublishFailed(failed) => {
            let mut actions: Vec<WorkerAction> = Vec::new();
            actions.push(WorkerAction::Backoff { seconds: QUEUE_BACKOFF_SECONDS });
            actions.push(failed);
            actions
        },
        WorkerEvent::Dequeued(envelope) => {
            let WorkEnvelope { request_id, submission } = envelope;
            match submission {
                Submission::Malformed(words) => {
                    let channel = match &request_id {
                        Some(id) => response_channel(id.as_str()),
                        None => response_channel(UNKNOWN_REQUEST),
                    };
                    let mut actions: Vec<WorkerAction> = Vec::new();
                    let reply = WorkerReply::Error { error: words };
                    actions.push(WorkerAction::Respond { channel, reply });
                    actions
                },
                Submission::Order(input) => {
                    let outcome = process_order(service, &input);
                    let actions = answer_outcome(&request_id, outcome, unix_now());
                    assert(answers(
                        actions@,
                        response_topic(answered_as(request_id)),
                        outcome,
                    ));
                    actions
                },
            }
        },
    }
}

} // verus!
