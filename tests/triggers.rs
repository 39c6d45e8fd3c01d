use hvents::events::{
    ApiListenAction, ApiListenEvent, FileChangedEvent, MqttBodyMatch, MqttSubscribeEvent,
    RequestContent, RequestMethod, ResponseContent, ScanCodeReadEvent, WatchKind,
};
use hvents::config::scan_code_from_hex;

fn create_listen_event(uri: &str, request_method: RequestMethod) -> ApiListenEvent {
    ApiListenEvent {
        path: uri.to_string(),
        headers: Vec::new(),
        template: None,
        method: request_method,
        request_content: RequestContent::Bytes,
        response_content: ResponseContent::Text,
        action: ApiListenAction::Start,
        pool_id: String::new(),
    }
}

#[test]
fn test_api_listen_matches() {
    let data = [
        ("match url exactly", create_listen_event("/clients/1", RequestMethod::Get), "/clients/1", "get", true),
        ("match url by prefix", create_listen_event("/clients/", RequestMethod::Get), "/clients/1", "get", true),
        ("match method exactly", create_listen_event("/clients/1", RequestMethod::Post), "/clients/1", "post", true),
        ("different url", create_listen_event("/clients/1", RequestMethod::Post), "/clients", "post", false),
        ("different methods", create_listen_event("/clients/1", RequestMethod::Post), "/clients", "get", false),
    ];
    for (test_name, event, uri, method, expected) in data {
        assert_eq!(event.matches(uri, method), expected, "{test_name}");
    }
}

#[test]
fn listener_method_given_in_capitals() {
    let event = create_listen_event("/c", RequestMethod::Delete);
    assert!(event.matches_upper("/c/1", "DELETE"));
    assert!(!event.matches_upper("/c/1", "delete"));
    assert_eq!(RequestMethod::Put.as_str(), "PUT");
}

fn subscription(topic: &str, body: Option<MqttBodyMatch>) -> MqttSubscribeEvent {
    MqttSubscribeEvent { topic: topic.to_string(), body, pool_id: String::new() }
}

#[test]
fn test_matches() {
    let data = [
        ("topic1", "payload".as_bytes(), subscription("topic1", Some(MqttBodyMatch::Body("payload".to_string()))), true),
        ("topic2", "payload with data".as_bytes(), subscription("topic2", Some(MqttBodyMatch::BodyContains("payload".to_string()))), true),
        ("topic3/hello", "payload with data".as_bytes(), subscription("topic3/#", Some(MqttBodyMatch::BodyContains("payload".to_string()))), true),
        ("unknown/hello", "payload with data".as_bytes(), subscription("topic4/#", Some(MqttBodyMatch::BodyContains("payload".to_string()))), false),
        ("topic5/hello", "just data".as_bytes(), subscription("topic5/#", Some(MqttBodyMatch::BodyContains("payload".to_string()))), false),
        ("topic5/hello", "payload with data".as_bytes(), subscription("#", Some(MqttBodyMatch::BodyContains("payload".to_string()))), true),
        ("topic1/subject/hello/peter", "payload".as_bytes(), subscription("topic1/+/hello/+", Some(MqttBodyMatch::Body("payload".to_string()))), true),
        ("topic1/subject/hello/peter", "payload".as_bytes(), subscription("+/hello", Some(MqttBodyMatch::Body("payload".to_string()))), false),
        ("topic1/subject/hello/peter", "payload".as_bytes(), subscription("+/+/hello/peter", Some(MqttBodyMatch::Body("payload".to_string()))), true),
        ("topic1/subject/hello/peter", "payload".as_bytes(), subscription("+/+/hello/peter", None), true),
    ];
    for (topic, body, event, equal) in data {
        assert_eq!(event.matches(topic, body), equal, "{topic}");
    }
}

#[test]
fn body_match_needs_utf8() {
    let exact = MqttBodyMatch::Body("a".to_string());
    assert!(!exact.matches(&[0xff]));
    let contains = MqttBodyMatch::BodyContains(String::new());
    assert!(contains.matches(b"anything"));
    assert!(!contains.matches(&[0xc3]));
}

#[test]
fn topic_without_wildcards_matches_only_itself() {
    let s = subscription("a/b", None);
    assert!(s.matches("a/b", b""));
    assert!(!s.matches("a/b/c", b""));
    assert!(!s.matches("a", b""));
}

#[test]
fn file_changed_matches_path_and_kind() {
    let e = FileChangedEvent { path: "/tmp/x".to_string(), when: WatchKind::Written };
    assert!(e.matches("/tmp/x", WatchKind::Written));
    assert!(e.matches("/tmp//x", WatchKind::Written));
    assert!(!e.matches("/tmp/x", WatchKind::Created));
    assert!(!e.matches("/tmp/y", WatchKind::Written));
}

#[test]
fn scan_codes() {
    let e = ScanCodeReadEvent::new(458756);
    assert!(e.matches(458756));
    assert!(!e.matches(4));
    assert_eq!(scan_code_from_hex("0x070004"), Some(i32::from_le_bytes([0x07, 0x00, 0x04, 0x00])));
    assert_eq!(scan_code_from_hex("ffffffff"), Some(-1));
    assert_eq!(scan_code_from_hex("0x0x01"), Some(1));
    assert_eq!(scan_code_from_hex("0102030405"), None);
    assert_eq!(scan_code_from_hex("abc"), None);
    assert_eq!(scan_code_from_hex("zz"), None);
}

#[test]
fn plus_stands_for_exactly_one_level() {
    assert!(!subscription("+", None).matches("a/b", b""));
    assert!(!subscription("a/+", None).matches("a/b/c", b""));
    assert!(!subscription("a/+", None).matches("a", b""));
    assert!(subscription("a/+", None).matches("a/b", b""));
}
