use orderbook::fabric::{response_channel, MARKET_UPDATES_TOPIC, ORDER_QUEUE, UNKNOWN_REQUEST};
use orderbook::inputs::{CreateOrderInput, OrderType, Side, Symbol};
use orderbook::output::{CreateOrderOutput, Success};
use orderbook::router::{
    begin_intake, intake_step, open_ticket, read_reply, reply_order_id, validate_submission,
    BrokerReply, IntakeAction, IntakeError, IntakeEvent, IntakeResponse, IntakeStage,
    REPLY_DEADLINE_SECONDS, REQUEST_ID_LENGTH,
};

fn submission(quantity: u32) -> CreateOrderInput {
    CreateOrderInput {
        symbol: Symbol::BTCUSD,
        price: 10_000,
        quantity,
        user_id: 7,
        side: Side::Sell,
        order_type: OrderType::Limit,
    }
}

#[test]
fn fabric_names() {
    assert_eq!(ORDER_QUEUE, "order");
    assert_eq!(MARKET_UPDATES_TOPIC, "market_updates");
    assert_eq!(UNKNOWN_REQUEST, "unknown");
    assert_eq!(response_channel("abc-123"), "response:abc-123");
    assert_eq!(response_channel(""), "response:");
}

#[test]
fn submission_without_quantity_is_rejected() {
    assert_eq!(validate_submission(&submission(0)), Err(IntakeError::NonPositiveQuantity));
    assert_eq!(validate_submission(&submission(1)), Ok(()));
    assert_eq!(open_ticket(&submission(0)), Err(IntakeError::NonPositiveQuantity));
}

#[test]
fn ticket_names_its_reply_topic() {
    let ticket = open_ticket(&submission(3)).unwrap();
    assert_eq!(ticket.response_channel, format!("response:{}", ticket.request_id));
    assert_eq!(REQUEST_ID_LENGTH, 36);
    assert_eq!(ticket.request_id.chars().count(), REQUEST_ID_LENGTH);
    assert_eq!(ticket.request_id.matches('-').count(), 4);
    let other = open_ticket(&submission(3)).unwrap();
    assert_ne!(ticket.request_id, other.request_id);
}

#[test]
fn intake_subscribes_then_enqueues_then_awaits() {
    let (stage, action) = begin_intake();
    assert_eq!((stage, action), (IntakeStage::Subscribing, IntakeAction::Subscribe));
    let (stage, action) = intake_step(stage, IntakeEvent::Subscribed { ok: true });
    assert_eq!((stage, action), (IntakeStage::Enqueuing, IntakeAction::Enqueue));
    let (stage, action) = intake_step(stage, IntakeEvent::Enqueued { ok: true });
    assert_eq!((stage, action), (IntakeStage::Awaiting, IntakeAction::AwaitReply));
    let reply = IntakeEvent::Replied(BrokerReply::Message { result_id: 42 });
    let (stage, action) = intake_step(stage, reply);
    assert_eq!(stage, IntakeStage::Finished);
    assert_eq!(
        action,
        IntakeAction::Respond(IntakeResponse::Success(CreateOrderOutput {
            success: Success::True,
            order_id: 42
        }))
    );
}

#[test]
fn intake_fails_on_any_broker_failure() {
    let failed = (IntakeStage::Finished, IntakeAction::Respond(IntakeResponse::InternalServerError));
    assert_eq!(intake_step(IntakeStage::Subscribing, IntakeEvent::Subscribed { ok: false }), failed);
    assert_eq!(intake_step(IntakeStage::Enqueuing, IntakeEvent::Enqueued { ok: false }), failed);
    assert_eq!(
        intake_step(IntakeStage::Awaiting, IntakeEvent::Replied(BrokerReply::Unreadable)),
        failed
    );
    assert_eq!(intake_step(IntakeStage::Awaiting, IntakeEvent::Replied(BrokerReply::Closed)), failed);
    assert_eq!(intake_step(IntakeStage::Awaiting, IntakeEvent::Replied(BrokerReply::TimedOut)), failed);
    assert_eq!(REPLY_DEADLINE_SECONDS, 30);
    assert_eq!(intake_step(IntakeStage::Subscribing, IntakeEvent::Enqueued { ok: true }), failed);
    assert_eq!(intake_step(IntakeStage::Finished, IntakeEvent::Subscribed { ok: true }), failed);
}

#[test]
fn error_envelope_is_answered_with_an_internal_server_error() {
    let failed = (IntakeStage::Finished, IntakeAction::Respond(IntakeResponse::InternalServerError));
    let reply = read_reply(r#"{"error": "Invalid Symbol", "result_id": 0}"#);
    assert_eq!(reply, BrokerReply::Failed);
    assert_eq!(intake_step(IntakeStage::Awaiting, IntakeEvent::Replied(reply)), failed);
    let reply = read_reply(r#"{"error": "missing field `symbol`"}"#);
    assert_eq!(reply, BrokerReply::Failed);
    assert_eq!(
        intake_step(IntakeStage::Awaiting, IntakeEvent::Replied(BrokerReply::Failed)),
        failed
    );
    assert_eq!(
        intake_step(IntakeStage::Enqueuing, IntakeEvent::Replied(BrokerReply::Failed)),
        failed
    );
}

#[test]
fn result_envelope_is_answered_with_its_result_id() {
    let payload = r#"{"result_id": 17, "trades": [], "remaining_quantity": 0,
        "current_price": 100.5, "best_bid": null, "best_ask": null}"#;
    let reply = read_reply(payload);
    assert_eq!(reply, BrokerReply::Message { result_id: 17 });
    let (stage, action) = intake_step(IntakeStage::Awaiting, IntakeEvent::Replied(reply));
    assert_eq!(stage, IntakeStage::Finished);
    assert_eq!(
        action,
        IntakeAction::Respond(IntakeResponse::Success(CreateOrderOutput {
            success: Success::True,
            order_id: 17
        }))
    );
}

#[test]
fn reply_that_is_no_envelope_is_answered_with_an_internal_server_error() {
    let failed = (IntakeStage::Finished, IntakeAction::Respond(IntakeResponse::InternalServerError));
    for payload in ["no json", "17", "{}", r#"{"result_id": "17"}"#, r#"{"result_id": -1}"#] {
        let reply = read_reply(payload);
        assert_eq!(reply, BrokerReply::Unreadable);
        assert_eq!(intake_step(IntakeStage::Awaiting, IntakeEvent::Replied(reply)), failed);
    }
}

#[test]
fn reported_order_id_is_cut_to_32_bits() {
    assert_eq!(reply_order_id(0), 0);
    assert_eq!(reply_order_id(7), 7);
    assert_eq!(reply_order_id(u32::MAX as u64), u32::MAX);
    assert_eq!(reply_order_id(0x1_0000_0005), 5);
    assert_eq!(reply_order_id(u64::MAX), u32::MAX);
}
