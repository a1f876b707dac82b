use email_server::config::CodeInfo;
use email_server::ws::{
    auth_fail_message, auth_ok_message, authenticate, new_code_message, pong_message,
    reader_continues, writer_step, ClientRegistry, IdAllocator, ReaderEvent,
    WriterAction, WriterEvent,
};
use serde_json::Value;

fn object(pairs: &[(&str, &str)]) -> String {
    let mut m = serde_json::Map::new();
    for (k, v) in pairs {
        m.insert(k.to_string(), Value::String(v.to_string()));
    }
    Value::Object(m).to_string()
}

#[test]
fn fixed_messages_match_serde_json() {
    assert_eq!(auth_ok_message(), object(&[("type", "auth_ok")]));
    assert_eq!(pong_message(), object(&[("type", "pong")]));
    assert_eq!(
        auth_fail_message("invalid api_key"),
        object(&[("type", "auth_fail"), ("reason", "invalid api_key")])
    );
    assert_eq!(auth_ok_message(), r#"{"type":"auth_ok"}"#);
}

#[test]
fn new_code_message_matches_serde_json() {
    let info = CodeInfo {
        code: "123456".to_string(),
        subject: "Your \"code\"\n\t\u{1}\\ 验证码".to_string(),
        from: "no-reply".to_string(),
        time: "2026-05-31 12:00:00".to_string(),
        account: "my-email".to_string(),
    };
    let expected = object(&[
        ("type", "new_code"),
        ("code", &info.code),
        ("subject", &info.subject),
        ("from", &info.from),
        ("time", &info.time),
        ("account", &info.account),
    ]);
    assert_eq!(new_code_message(&info), expected);
}

fn keys() -> Vec<String> {
    vec!["your-secret-key".to_string(), "second".to_string()]
}

#[test]
fn authentication() {
    let ok = authenticate(Some(r#"{"type":"auth","api_key":"your-secret-key"}"#), &keys());
    assert!(ok.authenticated);
    assert_eq!(ok.reply.unwrap(), r#"{"type":"auth_ok"}"#);

    let bad = authenticate(Some(r#"{"type":"auth","api_key":"wrong"}"#), &keys());
    assert!(!bad.authenticated);
    assert_eq!(bad.reply.unwrap(), r#"{"reason":"invalid api_key","type":"auth_fail"}"#);

    let missing = authenticate(Some(r#"{"type":"auth"}"#), &keys());
    assert!(!missing.authenticated);
    assert_eq!(missing.reply.unwrap(), r#"{"reason":"invalid api_key","type":"auth_fail"}"#);

    let ping = authenticate(Some(r#"{"type":"ping"}"#), &keys());
    assert!(!ping.authenticated);
    assert_eq!(ping.reply.unwrap(), r#"{"reason":"first message must be auth","type":"auth_fail"}"#);

    let array = authenticate(Some("[1,2]"), &keys());
    assert!(!array.authenticated);
    assert_eq!(array.reply.unwrap(), r#"{"reason":"first message must be auth","type":"auth_fail"}"#);

    let not_json = authenticate(Some("hello"), &keys());
    assert!(!not_json.authenticated);
    assert!(not_json.reply.is_none());

    let nothing = authenticate(None, &keys());
    assert!(!nothing.authenticated);
    assert!(nothing.reply.is_none());

    // an empty key is accepted only when it is configured
    let empty = authenticate(Some(r#"{"type":"auth","api_key":""}"#), &vec!["".to_string()]);
    assert!(empty.authenticated);
}

#[test]
fn json_members_are_read_by_type() {
    // a non-string "type" is not an auth request; a non-string key counts as empty
    let numeric = authenticate(Some(r#"{"type":5,"api_key":"your-secret-key"}"#), &keys());
    assert!(!numeric.authenticated);
    assert_eq!(numeric.reply.unwrap(), r#"{"reason":"first message must be auth","type":"auth_fail"}"#);
    let key_number = authenticate(Some(r#"{"type":"auth","api_key":7}"#), &vec!["".to_string()]);
    assert!(key_number.authenticated);
    let unclosed = authenticate(Some("{"), &keys());
    assert!(unclosed.reply.is_none());
}

#[test]
fn ids_and_registry() {
    let mut ids = IdAllocator::new();
    assert!(ids.can_allocate());
    assert_eq!(ids.allocate(), 1);
    assert_eq!(ids.allocate(), 2);

    let mut reg: ClientRegistry<&str> = ClientRegistry::new();
    reg.register(1, "one");
    reg.register(2, "two");
    reg.register(3, "three");
    let mut all = reg.ids();
    all.sort();
    assert_eq!(all, vec![1, 2, 3]);
    assert_eq!(reg.get(2), Some(&"two"));
    let mut dropped = reg.drop_undelivered(&vec![(2, false), (7, false), (3, true), (2, false)]);
    dropped.sort();
    assert_eq!(dropped, vec![2]);
    reg.unregister(1);
    assert_eq!(reg.ids(), vec![3]);
    assert_eq!(reg.get(2), None);
}

#[test]
fn loop_decisions() {
    match writer_step(WriterEvent::Heartbeat) {
        WriterAction::Send(m) => assert_eq!(m, r#"{"type":"pong"}"#),
        WriterAction::Stop => panic!(),
    }
    match writer_step(WriterEvent::Queued("x".to_string())) {
        WriterAction::Send(m) => assert_eq!(m, "x"),
        WriterAction::Stop => panic!(),
    }
    assert!(matches!(writer_step(WriterEvent::QueueClosed), WriterAction::Stop));
    assert!(reader_continues(ReaderEvent::Text));
    assert!(reader_continues(ReaderEvent::Other));
    assert!(!reader_continues(ReaderEvent::Close));
    assert!(!reader_continues(ReaderEvent::Error));
}

#[test]
fn broadcast_drops_closed_clients() {
    let mut reg: ClientRegistry<tokio::sync::mpsc::UnboundedSender<String>> = ClientRegistry::new();
    let (tx1, mut rx1) = tokio::sync::mpsc::unbounded_channel::<String>();
    let (tx2, rx2) = tokio::sync::mpsc::unbounded_channel::<String>();
    let (tx3, mut rx3) = tokio::sync::mpsc::unbounded_channel::<String>();
    reg.register(1, tx1);
    reg.register(2, tx2);
    reg.register(3, tx3);
    drop(rx2);
    let deliveries = reg.broadcast(&"hello".to_string());
    let mut outcomes: Vec<(u64, bool)> = deliveries.iter().map(|d| d.outcome()).collect();
    outcomes.sort();
    assert_eq!(outcomes, vec![(1, true), (2, false), (3, true)]);
    assert_eq!(rx1.try_recv().unwrap(), "hello");
    assert_eq!(rx3.try_recv().unwrap(), "hello");
    let mut left = reg.ids();
    left.sort();
    assert_eq!(left, vec![1, 3]);
    let again = reg.broadcast(&"again".to_string());
    assert_eq!(again.len(), 2);
    assert!(again.iter().all(|d| d.delivered()));
    assert_eq!(rx1.try_recv().unwrap(), "again");
    assert_eq!(rx3.try_recv().unwrap(), "again");
}

#[test]
fn send_all_reaches_each_client_once() {
    let mut reg: ClientRegistry<tokio::sync::mpsc::UnboundedSender<String>> = ClientRegistry::new();
    let (tx1, mut rx1) = tokio::sync::mpsc::unbounded_channel::<String>();
    let (tx2, rx2) = tokio::sync::mpsc::unbounded_channel::<String>();
    reg.register(1, tx1);
    reg.register(2, tx2);
    drop(rx2);
    let deliveries = reg.send_all(&"code".to_string());
    let mut ids: Vec<u64> = deliveries.iter().map(|d| d.client_id()).collect();
    ids.sort();
    assert_eq!(ids, vec![1, 2]);
    assert_eq!(rx1.try_recv().unwrap(), "code");
    assert!(rx1.try_recv().is_err());
    // send_all does not drop anyone: that is drop_undelivered's part.
    let mut left = reg.ids();
    left.sort();
    assert_eq!(left, vec![1, 2]);
}

#[test]
fn drop_undelivered_keeps_reached_and_unknown() {
    let mut reg: ClientRegistry<&str> = ClientRegistry::new();
    reg.register(4, "four");
    reg.register(5, "five");
    let dropped = reg.drop_undelivered(&vec![(4, true), (5, false), (9, false)]);
    assert_eq!(dropped, vec![5]);
    assert_eq!(reg.get(4), Some(&"four"));
    assert_eq!(reg.get(5), None);
    assert!(reg.drop_undelivered(&vec![]).is_empty());
    assert_eq!(reg.ids(), vec![4]);
}
