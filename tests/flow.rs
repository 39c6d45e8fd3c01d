use hvents::catalog::{validate_events, ConfigError, Events};
use hvents::config::{default_port, pool_index, MqttConfiguration};
use hvents::data::{Data, MergePolicy, Metadata};
use hvents::dispatch::{absorb_output, apply_replace_args, forward, next_name, plan, publish_body, DispatchState, Step};
use hvents::events::{
    ApiListenAction, ApiListenEvent, CommandEvent, EventType, FileChangedEvent, MqttBodyMatch,
    MqttSubscribeEvent, NextEvent, PrintEvent, PrintOutput, ReferencingEvent, RequestContent,
    RequestMethod, ResponseContent, ScanCodeReadEvent, StateData, WatchAction, WatchEvent, WatchKind,
};
use hvents::json::JsonValue;
use hvents::scheduler::Scheduler;
use hvents::sources::{
    api_request, api_response, url_segments,
    data_as_json, find_listener, handle_file_change, handle_mqtt_message, handle_scan_code,
    http_next_event, http_response, request_body, RequestBody,
};
use hvents::time::{ExecutionPeriod, PeriodEvent, TimeEvent, TimeResult};
use hvents::data::{file_content, DataType, FileContent};

fn json(text: &str) -> JsonValue {
    JsonValue::from_bytes(text.as_bytes()).unwrap()
}

fn event(name: &str, kind: EventType, next: Option<&str>) -> ReferencingEvent {
    let mut e = ReferencingEvent::new(name.to_string(), kind);
    e.next_event = next.map(|n| NextEvent::Name(n.to_string()));
    e
}

fn print() -> EventType {
    EventType::Print(PrintEvent(PrintOutput::Stdout))
}

fn subscribe(topic: &str, body: MqttBodyMatch) -> EventType {
    EventType::MqttSubscribe(MqttSubscribeEvent { topic: topic.to_string(), body: Some(body), pool_id: String::new() })
}

fn next_name_of(e: &ReferencingEvent) -> &str {
    match &e.next_event {
        Some(NextEvent::Name(n)) => n.as_str(),
        _ => "unknown",
    }
}

#[test]
fn test_handle_incoming() {
    let events = Events::new(vec![
        event("test1", subscribe("topic1", MqttBodyMatch::Body("content1".to_string())), Some("test2")),
        event("test2", subscribe("topic2", MqttBodyMatch::Body("content2".to_string())), Some("expected")),
        event("test3", subscribe("topic3", MqttBodyMatch::BodyContains("content3".to_string())), Some("test2")),
        event("test4", subscribe("topic1", MqttBodyMatch::BodyContains("content4".to_string())), Some("test2")),
    ]);
    let e = handle_mqtt_message(&events, "topic1", b"content1");
    assert_eq!(next_name_of(&e.unwrap()), "expected");
    let e = handle_mqtt_message(&events, "topic2", b"content2");
    assert!(e.is_none());
    let e = handle_mqtt_message(&events, "topic3", b"content3");
    assert_eq!(next_name_of(&e.unwrap()), "expected");
    let e = handle_mqtt_message(&events, "topic1", b"content4");
    assert_eq!(next_name_of(&e.unwrap()), "expected");
}

#[test]
fn subscribe_then_publish_chain() {
    let events = Events::new(vec![
        event("a", subscribe("t/#", MqttBodyMatch::BodyContains("hi".to_string())), Some("b")),
        event("b", print(), None),
    ]);
    let b = handle_mqtt_message(&events, "t/x", b"hi!").unwrap();
    assert_eq!(b.name, "b");
    assert_eq!(b.data, Data::String("hi!".to_string()));
    assert_eq!(b.metadata.0.to_bytes().unwrap(), br#"{"a":{"segments":["t","x"],"topic":"t/x"}}"#.to_vec());
    assert!(handle_mqtt_message(&events, "u/x", b"hi!").is_none());
    assert!(handle_mqtt_message(&events, "t/x", b"ho").is_none());
}

#[test]
fn scan_code_starts_next_event() {
    let events = Events::new(vec![
        event("s", EventType::ScanCodeRead(ScanCodeReadEvent::new(-5)), Some("p")),
        event("p", EventType::Pass, None),
    ]);
    let p = handle_scan_code(&events, -5).unwrap();
    assert_eq!(p.name, "p");
    assert_eq!(p.metadata.0.to_bytes().unwrap(), br#"{"s":{"scan_code":-5}}"#.to_vec());
    assert!(handle_scan_code(&events, 5).is_none());
}

#[test]
fn file_change_merges_trigger_payload() {
    let mut trigger = event("f", EventType::FileChanged(FileChangedEvent { path: "/tmp/a".to_string(), when: WatchKind::Created }), Some("n"));
    trigger.data = Data::String("x".to_string());
    let mut next = event("n", EventType::Pass, None);
    next.data = Data::String("y".to_string());
    let events = Events::new(vec![trigger, next]);
    let n = handle_file_change(&events, "/tmp/a", WatchKind::Created).unwrap();
    assert_eq!(n.data, Data::String("yx".to_string()));
    assert!(handle_file_change(&events, "/tmp/a", WatchKind::Removed).is_none());
}

fn listener(path: &str, method: RequestMethod, template: Option<&str>) -> EventType {
    EventType::ApiListen(ApiListenEvent {
        path: path.to_string(),
        headers: Vec::new(),
        template: template.map(|t| t.to_string()),
        method,
        request_content: RequestContent::Json,
        response_content: ResponseContent::Json,
        action: ApiListenAction::Start,
        pool_id: String::new(),
    })
}

#[test]
fn http_listener_with_template() {
    let mut k = event("k", EventType::Pass, None);
    k.data = Data::Json(json(r#"{"v":"now"}"#));
    let l = event("l", listener("/c", RequestMethod::Post, Some("{{data.v}} {{request.t}}")), Some("k"));
    let events = Events::new(vec![k]);
    let listeners = Events::new(vec![l]);
    assert_eq!(find_listener(&listeners, "/c", "POST"), Some(0));
    assert_eq!(find_listener(&listeners, "/d", "POST"), None);
    let body = match request_body(true, RequestContent::Json, br#"{"t":"2024-01-01"}"#.to_vec()) {
        RequestBody::Present(d) => d,
        other => panic!("{other:?}"),
    };
    let resp = http_response(&Vec::new(), ResponseContent::Json, &listeners.at(0).data, Some(b"now 2024-01-01".to_vec())).unwrap();
    assert_eq!(resp.body, b"now 2024-01-01".to_vec());
    assert_eq!(resp.headers, vec![("Content-Type".to_string(), "application/json".to_string())]);
    let next = http_next_event(&events, listeners.at(0), Some(body), "/c", "127.0.0.1:5000").unwrap();
    assert_eq!(next.name, "k");
    assert_eq!(next.data.to_bytes().unwrap(), br#"{"t":"2024-01-01","v":"now"}"#.to_vec());
    assert_eq!(next.metadata.0.to_bytes().unwrap(), br#"{"l":{"remote_address":"127.0.0.1:5000","segments":["c"],"url":"/c"}}"#.to_vec());
}

#[test]
fn http_response_without_template() {
    let text = http_response(&Vec::new(), ResponseContent::Text, &Data::Bytes(vec![1]), None).unwrap();
    assert_eq!(text.body, b"OK".to_vec());
    let text = http_response(&Vec::new(), ResponseContent::Text, &Data::String("hey".to_string()), None).unwrap();
    assert_eq!(text.body, b"hey".to_vec());
    assert!(text.headers.is_empty());
    assert!(http_response(&Vec::new(), ResponseContent::Text, &Data::Empty, Some(Vec::new())).is_none());
    let js = http_response(&Vec::new(), ResponseContent::Json, &Data::String("s".to_string()), None).unwrap();
    assert_eq!(js.body, br#""s""#.to_vec());
    let bytes = http_response(&Vec::new(), ResponseContent::Bytes, &Data::Bytes(vec![7, 8]), None).unwrap();
    assert_eq!(bytes.body, vec![7, 8]);
    assert!(matches!(request_body(false, RequestContent::Json, b"{}".to_vec()), RequestBody::Absent));
    assert!(matches!(request_body(true, RequestContent::Json, b"{".to_vec()), RequestBody::Unreadable));
    assert_eq!(data_as_json(&Data::Bytes(vec![1, 200])).to_bytes().unwrap(), b"[1,200]".to_vec());
}

#[test]
fn execute_with_replaced_args() {
    let args = vec!["-n".to_string(), "orig".to_string()];
    let replaced = apply_replace_args(args.clone(), vec![(1, "hello".to_string())]).unwrap();
    assert_eq!(replaced, vec!["-n".to_string(), "hello".to_string()]);
    assert!(apply_replace_args(args, vec![(2, "x".to_string())]).is_none());
    let cmd = CommandEvent {
        command: "echo".to_string(),
        args: vec!["-n".to_string(), "orig".to_string()],
        replace_args: vec![(1, "{{data}}".to_string())],
        vars: Vec::new(),
        data_type: DataType::String,
    };
    let mut x = event("x", EventType::Execute(cmd), Some("p"));
    x.data = Data::String("hello".to_string());
    assert_eq!(plan(&x, &Some("p".to_string()), 0), Step::Worker);
    absorb_output(&mut x, Data::String("hello".to_string()), Metadata(JsonValue::Null));
    assert_eq!(x.data, Data::String("hello".to_string()));
    let events = Events::new(vec![event("p", print(), None)]);
    let p = forward(&events, &Some("p".to_string()), x.data, x.metadata).unwrap();
    assert_eq!(p.data, Data::String("hello".to_string()));
}

#[test]
fn plan_of_each_kind() {
    let now = 0;
    let e = event("a", EventType::Pass, Some("a"));
    assert_eq!(plan(&e, &Some("a".to_string()), now), Step::SelfLoop);
    let e = event("a", EventType::Pass, Some("b"));
    assert_eq!(plan(&e, &Some("b".to_string()), now), Step::Forward);
    let t = event("t", EventType::Time(TimeEvent { execute_time: TimeResult::DateTime(0, "now".to_string()), event_id: None }), None);
    assert_eq!(plan(&t, &None, now), Step::ToScheduler);
    let w = event("w", EventType::Watch(WatchEvent { path: "/".to_string(), action: WatchAction::Start, recursive: false }), None);
    assert_eq!(plan(&w, &None, now), Step::Forward);
    let l = event("l", listener("/", RequestMethod::Get, None), None);
    assert_eq!(plan(&l, &None, now), Step::Stop);
    let g = event("g", EventType::Period(PeriodEvent::new(ExecutionPeriod {
        from: TimeResult::Time(22 * 3_600_000, "22:00".to_string()),
        to: TimeResult::Time(3 * 3_600_000, "03:00".to_string()),
    })), Some("h"));
    assert_eq!(plan(&g, &Some("h".to_string()), 23 * 3_600_000), Step::Forward);
    assert_eq!(plan(&g, &Some("h".to_string()), 17 * 3_600_000), Step::Gated);
}

#[test]
fn next_name_from_literal_or_template() {
    let e = event("a", EventType::Pass, Some("b"));
    assert_eq!(next_name(&e, None), Some("b".to_string()));
    let mut t = event("a", EventType::Pass, None);
    t.next_event = Some(NextEvent::Template("{{state.n}}".to_string()));
    assert_eq!(next_name(&t, Some("c".to_string())), Some("c".to_string()));
    assert_eq!(next_name(&t, None), None);
    let events = Events::new(vec![]);
    let g = events.get_next_event(&t).unwrap();
    assert_eq!(g.name, "generated_from_a");
}

#[test]
fn counters_and_fixed_values() {
    let mut st = DispatchState::new();
    let state = Some(StateData { count: Some("n".to_string()), replace: vec![("k".to_string(), "v".to_string())] });
    st.fire(&state);
    assert_eq!(st.get("n"), Some("0".to_string()));
    st.fire(&state);
    st.fire(&state);
    assert_eq!(st.get("n"), Some("2".to_string()));
    assert_eq!(st.get("k"), Some("v".to_string()));
    st.set("n", "18446744073709551615".to_string());
    st.fire(&state);
    assert_eq!(st.get("n"), Some("18446744073709551615".to_string()));
    st.set("n", "junk".to_string());
    st.fire(&state);
    assert_eq!(st.get("n"), Some("1".to_string()));
}

#[test]
fn forward_follows_merge_policy() {
    let mut target = event("t", EventType::Pass, None);
    target.data = Data::String("a".to_string());
    target.merge_data = MergePolicy::No;
    let events = Events::new(vec![target]);
    let t = forward(&events, &Some("t".to_string()), Data::String("b".to_string()), Metadata(json(r#"{"m":1}"#))).unwrap();
    assert_eq!(t.data, Data::String("a".to_string()));
    assert_eq!(t.metadata.0.to_bytes().unwrap(), br#"{"m":1}"#.to_vec());
    assert!(forward(&events, &Some("missing".to_string()), Data::Empty, Metadata(JsonValue::Null)).is_none());
    assert!(forward(&events, &None, Data::Empty, Metadata(JsonValue::Null)).is_none());
}

#[test]
fn catalog_keeps_first_of_a_name_and_prefixes() {
    let events = Events::new(vec![event("a", EventType::Pass, Some("b")), event("a", print(), None)]);
    assert_eq!(events.len(), 1);
    assert!(matches!(events.get_event_by_name("a").unwrap().event_type, EventType::Pass));
    let events = events.merge_with_prefix(vec![("x".to_string(), event("ignored", EventType::Pass, Some("y")))], "g");
    let gx = events.get_event_by_name("g_x").unwrap();
    assert_eq!(next_name_of(&gx), "g_y");
    let events = events.merge(vec![("c".to_string(), event("other", EventType::Pass, None))]);
    assert!(events.has_event_by_name("c"));
    assert!(!events.has_event_by_name("other"));
    assert_eq!(events.len(), 3);
    assert!(!events.is_empty());
    assert_eq!(events.get_event_id("c"), Some("c".to_string()));
}

#[test]
fn validation_errors() {
    let http = vec![("default".to_string(), "127.0.0.1:8222".to_string())];
    assert!(matches!(validate_events(&Events::new(vec![]), &vec![], &http), Err(ConfigError::NoEvents)));
    let dangling = Events::new(vec![event("a", EventType::Pass, Some("zz"))]);
    match validate_events(&dangling, &vec![], &http) {
        Err(ConfigError::UnknownNext { event, next }) => {
            assert_eq!(event, "a");
            assert_eq!(next, "zz");
        },
        other => panic!("{other:?}"),
    }
    let ok = Events::new(vec![event("a", EventType::Pass, None)]);
    assert!(validate_events(&ok, &vec!["a".to_string()], &http).is_ok());
    assert!(matches!(validate_events(&ok, &vec!["b".to_string()], &http), Err(ConfigError::UnknownStart(_))));
    let listen = Events::new(vec![event("l", listener("/", RequestMethod::Get, None), None)]);
    assert!(matches!(validate_events(&listen, &vec![], &vec![]), Err(ConfigError::ListenWithoutHttp(_))));
    let watch = Events::new(vec![event("w", EventType::Watch(WatchEvent { path: "/".to_string(), action: WatchAction::Start, recursive: true }), None)]);
    assert!(matches!(validate_events(&watch, &vec![], &http), Err(ConfigError::WatchWithoutFileChanged(_))));
    let changed = Events::new(vec![event("c", EventType::FileChanged(FileChangedEvent { path: "/".to_string(), when: WatchKind::Removed }), None)]);
    assert!(matches!(validate_events(&changed, &vec![], &http), Err(ConfigError::FileChangedWithoutWatch(_))));
}

fn timed(name: &str, at: i64, id: Option<&str>, next: Option<&str>, data: &str, repeat: bool) -> ReferencingEvent {
    let t = TimeEvent { execute_time: TimeResult::DateTime(at, "now".to_string()), event_id: id.map(|s| s.to_string()) };
    let mut e = event(name, if repeat { EventType::Repeat(t) } else { EventType::Time(t) }, next);
    e.data = Data::Json(json(data));
    e
}

#[test]
fn timer_fires_due_events_once_per_cool_down() {
    let now = 1_000_000;
    let catalog = Events::new(vec![
        timed("test1", now, None, Some("test2"), r#"{"test1":"text"}"#, false),
        timed("test2", now, None, None, r#"{"test2":"text"}"#, false),
    ]);
    let mut s = Scheduler::new();
    s.schedule("test1".to_string(), catalog.get_event_by_name("test1").unwrap());
    let tick = s.tick(&catalog, now + 500);
    assert_eq!(tick.fired.len(), 1);
    assert_eq!(tick.fired[0].id, "test1");
    assert_eq!(tick.fired[0].next.name, "test2");
    assert_eq!(tick.fired[0].next.data.to_bytes().unwrap(), br#"{"test1":"text","test2":"text"}"#.to_vec());
    assert!(tick.fired[0].repeat.is_none());
    assert!(s.pending.is_empty());
    s.schedule("test1".to_string(), catalog.get_event_by_name("test1").unwrap());
    let tick = s.tick(&catalog, now + 600);
    assert!(tick.fired.is_empty());
    assert_eq!(s.pending.len(), 1);
}

#[test]
fn timer_same_event_id_replaces_pending() {
    let now = 5_000_000;
    let catalog = Events::new(vec![
        timed("test1", now + 5000, Some("abc"), Some("test2"), r#"{"test1":"text"}"#, false),
        timed("test2", now, Some("abc"), Some("test3"), r#"{"test2":"text"}"#, true),
        timed("test3", now, None, None, r#"{"test3":"text"}"#, false),
    ]);
    let mut s = Scheduler::new();
    s.schedule("abc".to_string(), catalog.get_event_by_name("test1").unwrap());
    s.schedule("abc".to_string(), catalog.get_event_by_name("test2").unwrap());
    assert_eq!(s.pending.len(), 1);
    let tick = s.tick(&catalog, now);
    assert_eq!(tick.fired.len(), 1);
    assert_eq!(tick.fired[0].next.name, "test3");
    assert_eq!(tick.fired[0].next.data.to_bytes().unwrap(), br#"{"test2":"text","test3":"text"}"#.to_vec());
    assert_eq!(tick.fired[0].repeat.as_ref().unwrap().name, "test2");
}

#[test]
fn timer_restored_entry_fires_and_expired_are_dropped() {
    let now = 9_000_000;
    let catalog = Events::new(vec![
        timed("start", now + 1000, None, Some("done"), "{}", false),
        timed("old", now - 60_000, None, Some("done"), "{}", false),
        event("done", print(), None),
    ]);
    let mut s = Scheduler::new();
    s.schedule("start".to_string(), catalog.get_event_by_name("start").unwrap());
    s.schedule("old".to_string(), catalog.get_event_by_name("old").unwrap());
    let tick = s.tick(&catalog, now);
    assert!(tick.fired.is_empty());
    assert_eq!(tick.expired, vec!["old".to_string()]);
    assert_eq!(s.pending.len(), 1);
    let tick = s.tick(&catalog, now + 1000);
    assert_eq!(tick.fired.len(), 1);
    assert_eq!(tick.fired[0].next.name, "done");
}

#[test]
fn pools_and_settings() {
    let ids = vec!["one".to_string(), "two".to_string()];
    assert_eq!(pool_index(&ids, ""), Some(0));
    assert_eq!(pool_index(&ids, "two"), Some(1));
    assert_eq!(pool_index(&ids, "three"), None);
    assert_eq!(pool_index(&[], ""), None);
    assert_eq!(default_port(), 1883);
    let c = MqttConfiguration { host: "h".to_string(), user: Some("u".to_string()), pass: None, port: 1, client_id: None };
    assert!(c.credentials().is_none());
    assert_eq!(c.client_id_for("pool"), "pool");
}

#[test]
fn publish_body_choice() {
    assert_eq!(publish_body(true, Some(b"x".to_vec()), &Data::String("y".to_string())), Some(b"x".to_vec()));
    assert_eq!(publish_body(true, None, &Data::String("y".to_string())), None);
    assert_eq!(publish_body(false, None, &Data::String("y".to_string())), Some(b"y".to_vec()));
    assert_eq!(publish_body(false, None, &Data::Empty), None);
    assert_eq!(publish_body(true, Some(Vec::new()), &Data::String("y".to_string())), None);
}

#[test]
fn other_actions_fold_output_under_policy() {
    let mut f = event("f", EventType::FileRead(hvents::events::FileReadEvent { file: "/x".to_string(), data_type: DataType::String }), None);
    f.data = Data::String("a".to_string());
    absorb_output(&mut f, Data::String("b".to_string()), Metadata(json(r#"{"m":1}"#)));
    assert_eq!(f.data, Data::String("ab".to_string()));
    assert_eq!(f.metadata.0.to_bytes().unwrap(), br#"{"m":1}"#.to_vec());
}

#[test]
fn api_call_request_and_response() {
    let headers = vec![("X-A".to_string(), "1".to_string())];
    let (h, body) = api_request(RequestMethod::Post, RequestContent::Json, &headers, &Data::String("hi".to_string())).unwrap();
    assert_eq!(h, vec![("X-A".to_string(), "1".to_string()), ("Content-Type".to_string(), "application/json".to_string())]);
    assert_eq!(body, Some(b"hi".to_vec()));
    let (h, body) = api_request(RequestMethod::Get, RequestContent::Bytes, &headers, &Data::String("hi".to_string())).unwrap();
    assert_eq!(h, headers);
    assert_eq!(body, None);
    assert!(api_request(RequestMethod::Put, RequestContent::Bytes, &headers, &Data::Json(JsonValue::Number("x".to_string()))).is_none());

    let got = vec![("a".to_string(), "1".to_string()), ("b".to_string(), "2".to_string()), ("a".to_string(), "3".to_string())];
    let (d, m) = api_response("call", got.clone(), br#"{"k":1}"#.to_vec(), ResponseContent::Json).unwrap();
    assert_eq!(d.to_bytes().unwrap(), br#"{"k":1}"#.to_vec());
    assert_eq!(m.0.to_bytes().unwrap(), br#"{"call":{"headers":{"a":"3","b":"2"}}}"#.to_vec());
    let (d, _) = api_response("call", Vec::new(), vec![b'o', 0xff, b'k'], ResponseContent::Text).unwrap();
    assert_eq!(d, Data::String("o\u{fffd}k".to_string()));
    let (d, _) = api_response("call", Vec::new(), vec![1, 2], ResponseContent::Bytes).unwrap();
    assert_eq!(d, Data::Bytes(vec![1, 2]));
    assert!(api_response("call", Vec::new(), b"{".to_vec(), ResponseContent::Json).is_none());
}

#[test]
fn file_write_content() {
    assert!(matches!(file_content(&Data::Empty), FileContent::Nothing));
    assert!(matches!(file_content(&Data::String("a".to_string())), FileContent::Bytes(ref b) if b == b"a"));
    assert!(matches!(file_content(&Data::Json(JsonValue::Number("?".to_string()))), FileContent::Unwritable));
    assert_eq!(url_segments("/a//b/"), vec!["a".to_string(), "b".to_string()]);
}
