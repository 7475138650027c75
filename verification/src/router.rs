use crate::fabric::{response_channel, response_topic};
use crate::inputs::CreateOrderInput;
use crate::json::{number_at, number_in, parse_json, text_at, text_in};
use crate::output::{CreateOrderOutput, Success};
use vstd::prelude::*;

verus! {

/// The seconds that intake waits for the reply to a request.
pub const REPLY_DEADLINE_SECONDS: u64 = 30;

/// Why intake turned a submission down.
#[derive(Debug, Clone, Copy, PartialEq, Eq, Structural)]
pub enum IntakeError {
    /// The submission asks for no quantity.
    NonPositiveQuantity,
}

/// A submission that intake has taken in: the token that names it and the
/// topic on which its one reply will come.
#[derive(Debug, PartialEq, Eq)]
pub struct Ticket {
    pub request_id: String,
    pub response_channel: String,
}

/// The number of characters of a request id.
pub const REQUEST_ID_LENGTH: usize = 36;

/// A token for a new request: `uuid::Uuid::new_v4()` rendered by `to_string`.
/// It is drawn at random, so of the token itself nothing is claimed but its
/// length: `to_string` writes the hyphenated form, 32 hex digits and four
/// hyphens. `new_v4` panics only if the system hands out no random bytes.
#[verifier::external_body]
fn fresh_request_id() -> (id: String)
    ensures
        id@.len() == REQUEST_ID_LENGTH,
{
    uuid::Uuid::new_v4().to_string()
}

/// Turns down a submission that asks for no quantity.
pub fn validate_submission(input: &CreateOrderInput) -> (checked: Result<(), IntakeError>)
    ensures
        input.quantity > 0 ==> checked is Ok,
        input.quantity == 0 ==> checked == Err::<(), IntakeError>(IntakeError::NonPositiveQuantity),
{
    if input.quantity == 0 {
        Err(IntakeError::NonPositiveQuantity)
    } else {
        Ok(())
    }
}

/// Takes a submission in: checks it, draws its request id and names the topic
/// of its reply.
pub fn open_ticket(input: &CreateOrderInput) -> (ticket: Result<Ticket, IntakeError>)
    ensures
        input.quantity == 0 ==> ticket is Err && ticket->Err_0 == IntakeError::NonPositiveQuantity,
        input.quantity > 0 ==> ticket is Ok,
        ticket matches Ok(opened) ==> opened.request_id@.len() == REQUEST_ID_LENGTH,
        ticket matches Ok(opened) ==> opened.response_channel@ == response_topic(
            opened.request_id@,
        ),
{
    match validate_submission(input) {
        Err(refusal) => Err(refusal),
        Ok(()) => {
            let request_id = fresh_request_id();
            let response_channel = response_channel(request_id.as_str());
            Ok(Ticket { request_id, response_channel })
        },
    }
}

/// How far intake has come with one request.
#[derive(Debug, Clone, Copy, PartialEq, Eq, Structural)]
pub enum IntakeStage {
    /// The subscription to the reply topic has been asked for.
    Subscribing,
    /// The envelope is being pushed onto the work queue.
    Enqueuing,
    /// The envelope is queued and the reply is awaited.
    Awaiting,
    /// The caller has been answered.
    Finished,
}

/// What the broker handed to a request that awaits its reply.
#[derive(Debug, Clone, Copy, PartialEq, Eq, Structural)]
pub enum BrokerReply {
    /// A result envelope came; `result_id` is the number it carries under
    /// that name.
    Message { result_id: u64 },
    /// An error envelope came: the worker turned the order down.
    Failed,
    /// A message came that is neither: its payload could not be read, or it
    /// is no JSON document, or it carries no result id.
    Unreadable,
    /// The subscription ended without a message.
    Closed,
    /// No message came within the deadline.
    TimedOut,
}

/// What happened since the last action of intake.
#[derive(Debug, Clone, Copy, PartialEq, Eq, Structural)]
pub enum IntakeEvent {
    Subscribed { ok: bool },
    Enqueued { ok: bool },
    Replied(BrokerReply),
}

/// What intake answers its caller.
#[derive(Debug, Clone, Copy, PartialEq, Eq, Structural)]
pub enum IntakeResponse {
    /// The order was taken in and matched.
    Success(CreateOrderOutput),
    /// The request failed; the caller gets an internal server error with no
    /// body.
    InternalServerError,
}

/// What intake does next.
#[derive(Debug, Clone, Copy, PartialEq, Eq, Structural)]
pub enum IntakeAction {
    /// Subscribe to the ticket's reply topic.
    Subscribe,
    /// Push the envelope onto the work queue.
    Enqueue,
    /// Wait for one message on the reply topic.
    AwaitReply,
    /// Answer the caller.
    Respond(IntakeResponse),
}

/// The order id that intake reports for a result: the result id cut to its
/// low 32 bits.
pub open spec fn reported_order_id(result_id: u64) -> u32 {
    (result_id % 0x1_0000_0000) as u32
}

/// The order id that intake reports for a result.
pub fn reply_order_id(result_id: u64) -> (order_id: u32)
    ensures
        order_id == reported_order_id(result_id),
{
    (result_id % 0x1_0000_0000) as u32
}

/// What a message on the reply topic says. A JSON document that holds a
/// string as its error is an error envelope, whatever else it holds; one that
/// holds none and holds a number as its result id is a result envelope;
/// anything else cannot be read.
pub open spec fn reply_in(payload: Seq<char>) -> BrokerReply {
    if text_in(payload, "error"@) is Some {
        BrokerReply::Failed
    } else {
        match number_in(payload, "result_id"@) {
            Some(result_id) => BrokerReply::Message { result_id },
            None => BrokerReply::Unreadable,
        }
    }
}

/// What a message on the reply topic says.
pub fn read_reply(payload: &str) -> (reply: BrokerReply)
    ensures
        reply == reply_in(payload@),
{
    match parse_json(payload) {
        Ok(doc) => match text_at(&doc, "error") {
            Some(_) => BrokerReply::Failed,
            None => match number_at(&doc, "result_id") {
                Some(result_id) => BrokerReply::Message { result_id },
                None => BrokerReply::Unreadable,
            },
        },
        Err(_) => BrokerReply::Unreadable,
    }
}

/// The first thing intake does for a ticket: it subscribes to the reply
/// topic, so that no reply can come before someone listens.
pub open spec fn intake_start() -> (IntakeStage, IntakeAction) {
    (IntakeStage::Subscribing, IntakeAction::Subscribe)
}

/// The stage and action that follow an event. A result envelope that comes
/// while it is awaited ends the request with success. Anything that fails, an
/// error envelope among it, and any event that the stage does not wait for,
/// ends the request with an internal server error.
pub open spec fn intake_next(stage: IntakeStage, event: IntakeEvent) -> (
    IntakeStage,
    IntakeAction,
) {
    match (stage, event) {
        (IntakeStage::Subscribing, IntakeEvent::Subscribed { ok: true }) => (
            IntakeStage::Enqueuing,
            IntakeAction::Enqueue,
        ),
        (IntakeStage::Enqueuing, IntakeEvent::Enqueued { ok: true }) => (
            IntakeStage::Awaiting,
            IntakeAction::AwaitReply,
        ),
        (IntakeStage::Awaiting, IntakeEvent::Replied(BrokerReply::Message { result_id })) => (
            IntakeStage::Finished,
            IntakeAction::Respond(
                IntakeResponse::Success(
                    CreateOrderOutput {
                        success: Success::True,
                        order_id: reported_order_id(result_id),
                    },
                ),
            ),
        ),
        _ => (IntakeStage::Finished, IntakeAction::Respond(IntakeResponse::InternalServerError)),
    }
}

/// The stage and first action of intake for a new ticket.
pub fn begin_intake() -> (first: (IntakeStage, IntakeAction))
    ensures
        first == intake_start(),
{
    (IntakeStage::Subscribing, IntakeAction::Subscribe)
}

/// The stage and action that follow an event.
pub fn intake_step(stage: IntakeStage, event: IntakeEvent) -> (next: (IntakeStage, IntakeAction))
    ensures
        next == intake_next(stage, event),
{
    match stage {
        IntakeStage::Subscribing => match event {
            IntakeEvent::Subscribed { ok: true } => (
                IntakeStage::Enqueuing,
                IntakeAction::Enqueue,
            ),
            _ => failed(),
        },
        IntakeStage::Enqueuing => match event {
            IntakeEvent::Enqueued { ok: true } => (IntakeStage::Awaiting, IntakeAction::AwaitReply),
            _ => failed(),
        },
        IntakeStage::Awaiting => match event {
            IntakeEvent::Replied(BrokerReply::Message { result_id }) => (
                IntakeStage::Finished,
                IntakeAction::Respond(
                    IntakeResponse::Success(
                        CreateOrderOutput {
                            success: Success::True,
                            order_id: reply_order_id(result_id),
                        },
                    ),
                ),
            ),
            _ => failed(),
        },
        IntakeStage::Finished => failed(),
    }
}

fn failed() -> (next: (IntakeStage, IntakeAction))
    ensures
        next == (IntakeStage::Finished, IntakeAction::Respond(IntakeResponse::InternalServerError)),
{
    (IntakeStage::Finished, IntakeAction::Respond(IntakeResponse::InternalServerError))
}

/// Intake pushes an envelope onto the work queue only as the step that
/// follows a subscription that succeeded, and awaits the reply only after the
/// push succeeded: no reply can be published before its topic is listened to.
pub proof fn lemma_subscribes_before_enqueuing(stage: IntakeStage, event: IntakeEvent)
    ensures
        intake_start().1 == IntakeAction::Subscribe,
        intake_next(stage, event).1 == IntakeAction::Enqueue <==> stage == IntakeStage::Subscribing
            && event == (IntakeEvent::Subscribed { ok: true }),
        intake_next(stage, event).1 == IntakeAction::AwaitReply <==> stage == IntakeStage::Enqueuing
            && event == (IntakeEvent::Enqueued { ok: true }),
        intake_next(stage, event).1 is Respond <==> intake_next(stage, event).0
            == IntakeStage::Finished,
{
}

/// Intake answers success for a result envelope alone: a caller gets the
/// success body, with the result id as its order id, exactly when the message
/// awaited holds a number as its result id and no error. An error envelope,
/// a message that cannot be read, a closed subscription and a passed deadline
/// all get the internal server error.
pub proof fn lemma_success_for_results_only(
    stage: IntakeStage,
    event: IntakeEvent,
    payload: Seq<char>,
)
    ensures
        match intake_next(stage, event).1 {
            IntakeAction::Respond(IntakeResponse::Success(told)) => {
                &&& stage == IntakeStage::Awaiting
                &&& told.success == Success::True
                &&& match event {
                    IntakeEvent::Replied(BrokerReply::Message { result_id }) => told.order_id
                        == reported_order_id(result_id),
                    _ => false,
                }
            },
            _ => !(stage == IntakeStage::Awaiting && event is Replied && event->Replied_0
                is Message),
        },
        reply_in(payload) is Message <==> (text_in(payload, "error"@) is None && number_in(
            payload,
            "result_id"@,
        ) is Some),
        text_in(payload, "error"@) is Some ==> intake_next(
            IntakeStage::Awaiting,
            IntakeEvent::Replied(reply_in(payload)),
        ).1 == IntakeAction::Respond(IntakeResponse::InternalServerError),
{
}

} // verus!
