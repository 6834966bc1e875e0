use myrust::lark_api::event::{challenge_reply, ChatType, Event, Message, MessageReceiveEvent};
use myrust::lark_api::{
    bearer_value, token_cache_fresh, token_expiry, CommonResp, Error, SendMessageRequest,
};

#[test]
fn builder_addresses_a_chat() {
    let req = SendMessageRequest::builder()
        .receiver_chat_id("oc_123".to_string())
        .text("hello")
        .build()
        .unwrap();
    assert_eq!(req.receive_id_type, "chat_id");
    assert_eq!(req.receive_id, "oc_123");
    assert_eq!(req.msg_type, "text");
    assert_eq!(req.content, "{\"text\":\"hello\"}");
}

#[test]
fn builder_addresses_an_email() {
    let req = SendMessageRequest::builder()
        .receiver_email("a@example.test".to_string())
        .text("hi")
        .build()
        .unwrap();
    assert_eq!(req.receive_id_type, "email");
    assert_eq!(req.receive_id, "a@example.test");
}

#[test]
fn text_content_is_escaped_json() {
    let req = SendMessageRequest::builder()
        .receiver_chat_id("c".to_string())
        .text("say \"hi\"\n")
        .build()
        .unwrap();
    assert_eq!(req.content, "{\"text\":\"say \\\"hi\\\"\\n\"}");
    let value: serde_json::Value = serde_json::from_str(&req.content).unwrap();
    assert_eq!(
        value["text"],
        serde_json::Value::String("say \"hi\"\n".to_string())
    );
}

#[test]
fn builder_reports_missing_parts() {
    match SendMessageRequest::builder().text("x").build() {
        Err(Error::MissingRequestParam(p)) => assert_eq!(p, "receive_id_type"),
        _ => panic!("expected a missing request param"),
    }
    match SendMessageRequest::builder()
        .receiver_chat_id("c".to_string())
        .build()
    {
        Err(Error::MissingRequestParam(p)) => assert_eq!(p, "msg_type"),
        _ => panic!("expected a missing request param"),
    }
}

#[test]
fn common_resp_success() {
    let ok = CommonResp { code: 0, msg: "ok".to_string() };
    assert!(ok.is_success());
    let bad = CommonResp { code: 99991663, msg: "invalid token".to_string() };
    assert!(!bad.is_success());
}

#[test]
fn bearer_and_token_cache() {
    assert_eq!(bearer_value("t-abc"), "Bearer t-abc");
    let expiry = token_expiry(1_000, 7200);
    assert_eq!(expiry, 1_000 + 7140 * 1_000_000_000);
    assert!(token_cache_fresh(expiry, 5_000));
    assert!(!token_cache_fresh(expiry, expiry));
    assert_eq!(token_expiry(0, 30), 0);
}

#[test]
fn event_dispatch_and_challenge() {
    let e = Event::from_parts(
        "im.message.receive_v1",
        "c".to_string(),
        "p2p",
        "text",
        Some("hi".to_string()),
    );
    assert!(matches!(e, Some(Event::MessageReceive(_))));
    assert!(Event::from_parts(
        "im.message.read_v1",
        "c".to_string(),
        "p2p",
        "text",
        Some("hi".to_string())
    )
    .is_none());

    assert_eq!(
        challenge_reply("tok", "tok", "abc".to_string()),
        Some("abc".to_string())
    );
    assert_eq!(challenge_reply("bad", "tok", "abc".to_string()), None);
}

#[test]
fn event_classification() {
    let e = MessageReceiveEvent::from_parts(
        "chat-1".to_string(),
        "p2p",
        "text",
        Some("hello".to_string()),
    )
    .unwrap();
    assert_eq!(e.chat_id, "chat-1");
    assert!(matches!(e.chat_type, ChatType::P2P));
    let Message::Text(t) = &e.message;
    assert_eq!(t, "hello");

    let g = MessageReceiveEvent::from_parts(
        "chat-2".to_string(),
        "group",
        "text",
        Some("x".to_string()),
    )
    .unwrap();
    assert!(matches!(g.chat_type, ChatType::Group));

    assert!(MessageReceiveEvent::from_parts(
        "c".to_string(),
        "channel",
        "text",
        Some("x".to_string())
    )
    .is_none());
    assert!(MessageReceiveEvent::from_parts(
        "c".to_string(),
        "p2p",
        "image",
        Some("x".to_string())
    )
    .is_none());
    assert!(MessageReceiveEvent::from_parts("c".to_string(), "p2p", "text", None).is_none());
}
