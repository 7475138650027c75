use orderbook::global::{EngineError, MatchingService};
use orderbook::inputs::{CreateOrderInput, OrderType, Side, Symbol};
use orderbook::worker::{
    answer_outcome, popped_item, side_name, worker_step, Submission, WorkEnvelope, WorkerAction,
    WorkerEvent, WorkerReply, QUEUE_BACKOFF_SECONDS,
};

fn envelope(request_id: Option<&str>, side: Side, price: u64, quantity: u32, kind: OrderType) -> WorkerEvent {
    WorkerEvent::Dequeued(WorkEnvelope {
        request_id: request_id.map(String::from),
        submission: Submission::Order(CreateOrderInput {
            symbol: Symbol::BTCUSD,
            price,
            quantity,
            user_id: 1,
            side,
            order_type: kind,
        }),
    })
}

#[test]
fn failed_queue_makes_the_worker_wait() {
    let mut service = MatchingService::with_seeds(1, 1, 1);
    let actions = worker_step(&mut service, WorkerEvent::QueueFailed);
    assert_eq!(actions, vec![WorkerAction::Backoff { seconds: 5 }]);
    assert_eq!(QUEUE_BACKOFF_SECONDS, 5);
    assert_eq!(service.next_order_id, 1);
}

#[test]
fn malformed_submission_is_answered_with_an_error() {
    let mut service = MatchingService::with_seeds(1, 1, 1);
    let event = WorkerEvent::Dequeued(WorkEnvelope {
        request_id: Some(String::from("r-1")),
        submission: Submission::Malformed(String::from("missing field `symbol`")),
    });
    let actions = worker_step(&mut service, event);
    assert_eq!(
        actions,
        vec![WorkerAction::Respond {
            channel: String::from("response:r-1"),
            reply: WorkerReply::Error { error: String::from("missing field `symbol`") },
        }]
    );
    assert_eq!(service.next_order_id, 1);
}

#[test]
fn order_without_trades_is_answered_to_the_caller_only() {
    let mut service = MatchingService::with_seeds(1, 1, 1);
    let actions = worker_step(&mut service, envelope(Some("r-2"), Side::Buy, 100, 3, OrderType::Limit));
    assert_eq!(actions.len(), 1);
    match &actions[0] {
        WorkerAction::Respond { channel, reply: WorkerReply::Result(done) } => {
            assert_eq!(channel, "response:r-2");
            assert_eq!(done.order_id, 1);
            assert!(done.trades.is_empty());
            assert_eq!(done.remaining_quantity, 3);
            assert_eq!(done.orderbook_state.best_bid, Some(100));
        }
        other => panic!("unexpected action {:?}", other),
    }
}

#[test]
fn order_with_trades_is_answered_first_and_then_broadcast() {
    let mut service = MatchingService::with_seeds(1, 1, 1);
    worker_step(&mut service, envelope(Some("a"), Side::Sell, 100, 3, OrderType::Limit));
    let actions = worker_step(&mut service, envelope(Some("b"), Side::Buy, 100, 2, OrderType::Market));
    assert_eq!(actions.len(), 2);
    let done = match &actions[0] {
        WorkerAction::Respond { channel, reply: WorkerReply::Result(done) } => {
            assert_eq!(channel, "response:b");
            done
        }
        other => panic!("unexpected action {:?}", other),
    };
    assert_eq!(done.order_id, 2);
    assert_eq!(done.trades.len(), 1);
    assert_eq!(done.remaining_quantity, 0);
    match &actions[1] {
        WorkerAction::Broadcast { update } => {
            assert_eq!(update.symbol, Symbol::BTCUSD);
            assert_eq!(update.trades, done.trades);
            assert_eq!(update.current_price, Some(100));
            assert_eq!(update.best_bid, None);
            assert_eq!(update.best_ask, Some(100));
            assert!(update.timestamp > 1_600_000_000);
        }
        other => panic!("unexpected action {:?}", other),
    }
}

#[test]
fn envelope_without_request_id_is_answered_as_unknown() {
    let mut service = MatchingService::with_seeds(1, 1, 1);
    let actions = worker_step(&mut service, envelope(None, Side::Buy, 100, 3, OrderType::Limit));
    match &actions[0] {
        WorkerAction::Respond { channel, .. } => assert_eq!(channel, "response:unknown"),
        other => panic!("unexpected action {:?}", other),
    }
}

#[test]
fn order_for_a_symbol_without_book_is_answered_with_an_error() {
    let mut service = MatchingService::new();
    let actions = worker_step(&mut service, envelope(Some("r"), Side::Buy, 100, 3, OrderType::Limit));
    assert_eq!(
        actions,
        vec![WorkerAction::Respond {
            channel: String::from("response:r"),
            reply: WorkerReply::Error { error: String::from("Invalid Symbol") },
        }]
    );
    assert_eq!(service.next_order_id, 2);
}

#[test]
fn answer_outcome_stamps_the_update() {
    let mut service = MatchingService::with_seeds(1, 1, 1);
    worker_step(&mut service, envelope(Some("a"), Side::Sell, 100, 3, OrderType::Limit));
    let actions = worker_step(&mut service, envelope(Some("b"), Side::Buy, 100, 2, OrderType::Limit));
    let done = match actions.into_iter().next() {
        Some(WorkerAction::Respond { reply: WorkerReply::Result(done), .. }) => done,
        other => panic!("unexpected action {:?}", other),
    };
    let actions = answer_outcome(&Some(String::from("x")), Ok(done), 1234);
    assert_eq!(actions.len(), 2);
    match &actions[1] {
        WorkerAction::Broadcast { update } => assert_eq!(update.timestamp, 1234),
        other => panic!("unexpected action {:?}", other),
    }
    let actions = answer_outcome(&None, Err(EngineError::InvalidSymbol), 1);
    assert_eq!(
        actions,
        vec![WorkerAction::Respond {
            channel: String::from("response:unknown"),
            reply: WorkerReply::Error { error: String::from("Invalid Symbol") },
        }]
    );
}

#[test]
fn popped_item_is_the_second_of_two() {
    let popped = vec![String::from("order"), String::from("{}")];
    assert_eq!(popped_item(&popped), Some(&String::from("{}")));
    assert_eq!(popped_item(&vec![String::from("order")]), None);
    assert_eq!(popped_item(&Vec::new()), None);
    let more = vec![String::from("a"), String::from("b"), String::from("c")];
    assert_eq!(popped_item(&more), Some(&String::from("b")));
}

#[test]
fn sides_by_name() {
    assert_eq!(side_name(true), "buy");
    assert_eq!(side_name(false), "sell");
}

#[test]
fn failed_publication_is_tried_again_after_a_wait() {
    let mut service = MatchingService::with_seeds(1, 1, 1);
    let reply = || WorkerAction::Respond {
        channel: String::from("response:r"),
        reply: WorkerReply::Error { error: String::from("Invalid Symbol") },
    };
    let actions = worker_step(&mut service, WorkerEvent::PublishFailed(reply()));
    assert_eq!(actions, vec![WorkerAction::Backoff { seconds: 5 }, reply()]);
    assert_eq!(service.next_order_id, 1);
    assert!(service.books.iter().all(|b| b.bids.is_empty() && b.asks.is_empty()));
}
