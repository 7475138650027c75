use vstd::prelude::*;
use vstd::string::StringExecFns;

verus! {

/// The queue that carries submissions from intake to the worker.
pub const ORDER_QUEUE: &'static str = "order";

/// The topic on which the worker announces trades.
pub const MARKET_UPDATES_TOPIC: &'static str = "market_updates";

/// The request id that stands in where an envelope carries none.
pub const UNKNOWN_REQUEST: &'static str = "unknown";

/// The name of the topic on which the one reply to a request is published.
pub open spec fn response_topic(request_id: Seq<char>) -> Seq<char> {
    "response:"@ + request_id
}

/// The name of the topic on which the one reply to a request is published.
pub fn response_channel(request_id: &str) -> (channel: String)
    ensures
        channel@ == response_topic(request_id@),
{
    String::from_str("response:").concat(request_id)
}

} // verus!
