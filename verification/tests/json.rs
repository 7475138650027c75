use orderbook::gateway::{
    handle_client_text, market_update_target_in, read_client_frame, ClientFrame, GatewayError,
    GatewayReply,
};
use orderbook::global::MatchingService;
use orderbook::inputs::Symbol;
use orderbook::router::{read_reply, BrokerReply};
use orderbook::worker::{read_envelope, Submission};

#[test]
fn client_frame_is_read_from_json() {
    let frame = read_client_frame(r#"{"type": "subscribe", "symbol": "ETHUSD"}"#);
    assert_eq!(
        frame,
        Some(ClientFrame {
            kind: Some(String::from("subscribe")),
            symbol: Some(String::from("ETHUSD"))
        })
    );
    assert_eq!(
        read_client_frame(r#"{"type": "ping"}"#),
        Some(ClientFrame { kind: Some(String::from("ping")), symbol: None })
    );
    assert_eq!(
        read_client_frame(r#"{"type": 7, "symbol": null}"#),
        Some(ClientFrame { kind: None, symbol: None })
    );
    assert_eq!(read_client_frame("[1, 2]"), Some(ClientFrame { kind: None, symbol: None }));
    assert_eq!(read_client_frame("{not json"), None);
    assert_eq!(read_client_frame(""), None);
}

#[test]
fn client_text_is_answered() {
    let service = MatchingService::with_seeds(1, 2, 3);
    let mut subs = Vec::new();
    let reply = handle_client_text(r#"{"type":"unsubscribe","symbol":"SOLUSD"}"#, &mut subs, &service);
    assert_eq!(
        reply,
        Ok(GatewayReply::UnsubscribeConfirmed {
            symbol: Symbol::SOLUSD,
            message: String::from("Unsubscribed from SOLUSD")
        })
    );
    let reply = handle_client_text(r#"{"type":"subscribe"}"#, &mut subs, &service);
    assert!(matches!(
        reply,
        Ok(GatewayReply::SubscriptionConfirmed { symbol: Symbol::BTCUSD, .. })
    ));
    assert_eq!(subs, vec![Symbol::BTCUSD]);
    assert_eq!(handle_client_text("subscribe", &mut subs, &service), Err(GatewayError::Malformed));
    assert_eq!(subs, vec![Symbol::BTCUSD]);
}

#[test]
fn market_update_is_routed_by_its_symbol() {
    let subs = vec![Symbol::SOLUSD];
    assert_eq!(
        market_update_target_in(r#"{"symbol":"SOLUSD","trades":[]}"#, &subs),
        Some(Symbol::SOLUSD)
    );
    assert_eq!(market_update_target_in(r#"{"symbol":"BTCUSD"}"#, &subs), None);
    assert_eq!(market_update_target_in(r#"{"symbol":"unknown"}"#, &subs), None);
    assert_eq!(market_update_target_in(r#"{"trades":[]}"#, &subs), None);
    assert_eq!(market_update_target_in("SOLUSD", &subs), None);
}

#[test]
fn reply_is_told_by_its_error_and_its_result_id() {
    assert_eq!(
        read_reply(r#"{"result_id": 17, "trades": []}"#),
        BrokerReply::Message { result_id: 17 }
    );
    assert_eq!(read_reply(r#"{"result_id": 0}"#), BrokerReply::Message { result_id: 0 });
    assert_eq!(
        read_reply(r#"{"result_id": 18446744073709551615}"#),
        BrokerReply::Message { result_id: u64::MAX }
    );
    assert_eq!(read_reply(r#"{"error": "Invalid Symbol", "result_id": 0}"#), BrokerReply::Failed);
    assert_eq!(read_reply(r#"{"error": "", "result_id": 9}"#), BrokerReply::Failed);
    assert_eq!(read_reply(r#"{"error": null, "result_id": 9}"#), BrokerReply::Message { result_id: 9 });
    assert_eq!(read_reply(r#"{"result_id": -1}"#), BrokerReply::Unreadable);
    assert_eq!(read_reply(r#"{"result_id": "17"}"#), BrokerReply::Unreadable);
    assert_eq!(read_reply(r#"{"result_id": 1.5}"#), BrokerReply::Unreadable);
    assert_eq!(read_reply("17"), BrokerReply::Unreadable);
    assert_eq!(read_reply("no json"), BrokerReply::Unreadable);
}

#[test]
fn envelope_carries_its_request_id() {
    let words = || Submission::Malformed(String::from("no order"));
    let envelope = read_envelope(r#"{"request_id": "abc", "symbol": "BTCUSD"}"#, words());
    assert_eq!(envelope.request_id, Some(String::from("abc")));
    assert_eq!(envelope.submission, words());
    assert_eq!(read_envelope(r#"{"symbol": "BTCUSD"}"#, words()).request_id, None);
    assert_eq!(read_envelope(r#"{"request_id": 5}"#, words()).request_id, None);
    assert_eq!(read_envelope("abc", words()).request_id, None);
}
