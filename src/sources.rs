//! What the sources make of an outside stimulus: the catalog event that
//! answers it, and the event sent to the main queue.
use vstd::prelude::*;
use vstd::utf8::encode_utf8;
use crate::catalog::{first_where, lemma_first_where, name_index, next_event_spec, Events};
use crate::data::{data_bytes, data_merge, payload_of_bytes, policy_merge, Data, DataModel, MergePolicy, Metadata};
use crate::dispatch::{pair_set, pairs_set_all, pairs_view, DispatchState};
use crate::events::{
    RequestMethod,
    same_kind, same_path, same_state, EventType, NextEvent, ReferencingEvent,
    RequestContent, ResponseContent, WatchKind,
};
use crate::json::{json_merge, json_text, lemma_items_view, lemma_members_view, items_view, members_view, Json, JsonValue};
use crate::numbers::{decimal, signed_decimal, signed_decimal_text, decimal_text};
use crate::scheduler::keep;
use crate::text::{is_prefix, split, split_on, strings_view, upper_of};

verus! {

/// A one-member JSON object.
pub fn object1(k: String, v: JsonValue) -> (r: JsonValue)
    ensures
        r@ == Json::Object(seq![(k@, v@)]),
{
    let mut m: Vec<(String, JsonValue)> = Vec::new();
    m.push((k, v));
    proof {
        lemma_members_view(m@);
        assert(members_view(m@) =~= seq![(m@[0].0@, m@[0].1@)]);
    }
    JsonValue::Object(m)
}

/// A JSON object of the given members, in order.
pub fn object_of(m: Vec<(String, JsonValue)>) -> (r: JsonValue)
    ensures
        r@ == Json::Object(members_view(m@)),
{
    JsonValue::Object(m)
}

/// The JSON array of the given texts.
pub open spec fn text_array(s: Seq<Seq<char>>) -> Json {
    Json::Array(s.map_values(|t: Seq<char>| Json::Str(t)))
}

/// A JSON array of texts.
pub fn strings_array(v: Vec<String>) -> (r: JsonValue)
    ensures
        r@ == text_array(strings_view(v@)),
{
    let ghost src = v@;
    let mut items: Vec<JsonValue> = Vec::new();
    let mut rest = v;
    let n = rest.len();
    let mut i: usize = 0;
    while i < n
        invariant
            i <= n,
            n == src.len(),
            rest@ == src.subrange(i as int, n as int),
            items@.len() == i,
            forall|j: int| 0 <= j < i ==> #[trigger] items@[j]@ == Json::Str(src[j]@),
        decreases n - i,
    {
        let s = rest.remove(0);
        proof {
            assert(src[i as int] == s);
            assert(rest@ =~= src.subrange(i + 1, n as int));
        }
        items.push(JsonValue::Str(s));
        i += 1;
    }
    proof {
        lemma_items_view(items@);
        let target = strings_view(src).map_values(|t: Seq<char>| Json::Str(t));
        assert(target.len() == n);
        assert forall|j: int| 0 <= j < n implies items_view(items@)[j] == target[j] by {
            assert(strings_view(src)[j] == src[j]@);
            assert(items@[j]@ == Json::Str(src[j]@));
        }
        assert(items_view(items@) =~= target);
    }
    JsonValue::Array(items)
}

/// What an MQTT arrival adds to the metadata: `{<name>: {topic, segments}}`.
pub open spec fn topic_note(name: Seq<char>, topic: Seq<char>) -> Json {
    Json::Object(seq![(name, Json::Object(seq![("topic"@, Json::Str(topic)), ("segments"@, text_array(split_on(topic, '/')))]))])
}

/// What a scan code adds to the metadata: `{<name>: {scan_code}}`.
pub open spec fn scan_note(name: Seq<char>, code: int) -> Json {
    Json::Object(seq![(name, Json::Object(seq![("scan_code"@, Json::Number(signed_decimal(code)))]))])
}

/// Whether `out` is the next event of `source` in `catalog`, with the
/// metadata of `source` and `note` merged in, and its payload as `data`
/// says of the payload it had.
pub open spec fn sent_on(catalog: Seq<ReferencingEvent>, source: ReferencingEvent, note: Json, data: spec_fn(ReferencingEvent) -> DataModel, out: ReferencingEvent) -> bool {
    exists|n: ReferencingEvent|
        next_event_spec(catalog, source, Some(n)) && out == (ReferencingEvent { data: out.data, metadata: out.metadata, ..n })
            && out.data@ == data(n) && out.metadata@ == json_merge(n.metadata@, json_merge(source.metadata@, note))
}

/// What folding received bytes into an event's payload gives, under its policy.
pub open spec fn bytes_folded(n: ReferencingEvent, bytes: Seq<u8>) -> DataModel {
    match n.merge_data {
        MergePolicy::Yes => data_merge(n.data@, payload_of_bytes(bytes)),
        MergePolicy::No => n.data@,
        MergePolicy::Overwrite => DataModel::Bytes(bytes),
    }
}

/// Whether `e` is a subscription that accepts the message.
pub open spec fn subscribes(e: ReferencingEvent, topic: Seq<char>, body: Seq<u8>) -> bool {
    e.event_type matches EventType::MqttSubscribe(s) && s.accepts(topic, body)
}

/// Whether `e` is a scan-code trigger for `code`.
pub open spec fn scans(e: ReferencingEvent, code: i32) -> bool {
    e.event_type matches EventType::ScanCodeRead(s) && s.0 == code
}

/// The event an MQTT message starts: the first subscription of the catalog
/// that accepts it leads, through its transition, to an event that gets the
/// message body folded into its payload and `{<subscription>: {topic,
/// segments}}` into its metadata.
pub fn handle_mqtt_message(events: &Events, topic: &str, payload: &[u8]) -> (r: Option<ReferencingEvent>)
    requires
        events.wf(),
    ensures
        ({
            let k = first_where(events@, |e: ReferencingEvent| subscribes(e, topic@, payload@));
            &&& k < 0 ==> r is None
            &&& k >= 0 ==> (r is Some <==> exists|n: ReferencingEvent| next_event_spec(events@, events@[k], Some(n)))
            &&& k >= 0 ==> (r matches Some(out) ==> sent_on(events@, events@[k], topic_note(events@[k].name@, topic@), |n: ReferencingEvent| bytes_folded(n, payload@), out))
        }),
{
    let ghost p = |e: ReferencingEvent| subscribes(e, topic@, payload@);
    let mut found: Option<usize> = None;
    let mut i: usize = 0;
    while i < events.len()
        invariant
            i <= events@.len(),
            events.wf(),
            p == (|e: ReferencingEvent| subscribes(e, topic@, payload@)),
            found matches Some(j) ==> first_where(events@.subrange(0, i as int), p) == j,
            found is None ==> first_where(events@.subrange(0, i as int), p) == -1,
        decreases events@.len() - i,
    {
        proof {
            assert(events@.subrange(0, i + 1).subrange(0, i as int) =~= events@.subrange(0, i as int));
            assert(events@.subrange(0, i + 1)[i as int] == events@[i as int]);
        }
        if found.is_none() {
            let hit = match &events.at(i).event_type {
                EventType::MqttSubscribe(s) => s.matches(topic, payload),
                _ => false,
            };
            if hit {
                found = Some(i);
            }
        }
        i += 1;
    }
    proof {
        assert(events@.subrange(0, events@.len() as int) =~= events@);
        lemma_first_where(events@, p);
    }
    let k = match found {
        Some(k) => k,
        None => return None,
    };
    let source = events.at(k);
    match events.get_next_event(source) {
        Some(mut ev) => {
            let ghost n = ev;
            ev.try_merge_bytes(payload);
            let mut note_fields: Vec<(String, JsonValue)> = Vec::new();
            note_fields.push(("topic".to_owned(), JsonValue::Str(topic.to_owned())));
            note_fields.push(("segments".to_owned(), strings_array(split(topic, '/'))));
            proof {
                lemma_members_view(note_fields@);
                assert(members_view(note_fields@) =~= seq![("topic"@, Json::Str(topic@)), ("segments"@, text_array(split_on(topic@, '/')))]);
            }
            let note = object1(source.name.clone(), object_of(note_fields));
            let mut md = source.metadata.copy();
            md.merge(Metadata(note));
            ev.metadata.merge(md);
            proof {
                assert(ev == (ReferencingEvent { data: ev.data, metadata: ev.metadata, ..n }));
            }
            Some(ev)
        },
        None => None,
    }
}

/// The event a scan code starts: the first scan-code trigger for the code
/// leads, through its transition, to an event that gets `{<trigger>:
/// {scan_code}}` merged into its metadata.
pub fn handle_scan_code(events: &Events, code: i32) -> (r: Option<ReferencingEvent>)
    requires
        events.wf(),
    ensures
        ({
            let k = first_where(events@, |e: ReferencingEvent| scans(e, code));
            &&& k < 0 ==> r is None
            &&& k >= 0 ==> (r is Some <==> exists|n: ReferencingEvent| next_event_spec(events@, events@[k], Some(n)))
            &&& k >= 0 ==> (r matches Some(out) ==> sent_on(events@, events@[k], scan_note(events@[k].name@, code as int), |n: ReferencingEvent| n.data@, out))
        }),
{
    let ghost p = |e: ReferencingEvent| scans(e, code);
    let mut found: Option<usize> = None;
    let mut i: usize = 0;
    while i < events.len()
        invariant
            i <= events@.len(),
            events.wf(),
            p == (|e: ReferencingEvent| scans(e, code)),
            found matches Some(j) ==> first_where(events@.subrange(0, i as int), p) == j,
            found is None ==> first_where(events@.subrange(0, i as int), p) == -1,
        decreases events@.len() - i,
    {
        proof {
            assert(events@.subrange(0, i + 1).subrange(0, i as int) =~= events@.subrange(0, i as int));
            assert(events@.subrange(0, i + 1)[i as int] == events@[i as int]);
        }
        if found.is_none() {
            let hit = match &events.at(i).event_type {
                EventType::ScanCodeRead(s) => s.matches(code),
                _ => false,
            };
            if hit {
                found = Some(i);
            }
        }
        i += 1;
    }
    proof {
        assert(events@.subrange(0, events@.len() as int) =~= events@);
        lemma_first_where(events@, p);
    }
    let k = match found {
        Some(k) => k,
        None => return None,
    };
    let source = events.at(k);
    match events.get_next_event(source) {
        Some(mut ev) => {
            let ghost n = ev;
            let note = object1(source.name.clone(), object1("scan_code".to_owned(), JsonValue::Number(signed_decimal_text(code as i64))));
            let mut md = source.metadata.copy();
            md.merge(Metadata(note));
            ev.metadata.merge(md);
            proof {
                assert(ev == (ReferencingEvent { data: ev.data, metadata: ev.metadata, ..n }));
            }
            Some(ev)
        },
        None => None,
    }
}

/// Whether `e` is a file-changed trigger for the change.
pub open spec fn watches(e: ReferencingEvent, path: Seq<char>, kind: WatchKind) -> bool {
    e.event_type matches EventType::FileChanged(f) && same_path(f.path@, path) && f.when == kind
}

/// The name a file-changed trigger's transition is looked up by (a template
/// is looked up as `unknown`).
pub open spec fn lookup_name(n: NextEvent) -> Seq<char> {
    match n {
        NextEvent::Name(s) => s@,
        NextEvent::Template(_) => "unknown"@,
    }
}

/// The event a file-system change starts: the first file-changed trigger
/// for the path and kind names, through its transition, a catalog event
/// that gets the trigger's payload merged into its own.
pub fn handle_file_change(events: &Events, path: &str, kind: WatchKind) -> (r: Option<ReferencingEvent>)
    requires
        events.wf(),
    ensures
        ({
            let k = first_where(events@, |e: ReferencingEvent| watches(e, path@, kind));
            &&& k < 0 ==> r is None
            &&& k >= 0 ==> match events@[k].next_event {
                None => r is None,
                Some(nx) => (r is Some <==> name_index(events@, lookup_name(nx)) >= 0)
                    && (r matches Some(out) ==> {
                        let c = events@[name_index(events@, lookup_name(nx))];
                        &&& out.name == c.name
                        &&& same_kind(&out.event_type, &c.event_type)
                        &&& out.next_event == c.next_event
                        &&& out.metadata@ == c.metadata@
                        &&& same_state(&out.state, &c.state)
                        &&& out.merge_data == c.merge_data
                        &&& out.data@ == data_merge(c.data@, events@[k].data@)
                    }),
            }
        }),
{
    let ghost p = |e: ReferencingEvent| watches(e, path@, kind);
    let mut found: Option<usize> = None;
    let mut i: usize = 0;
    while i < events.len()
        invariant
            i <= events@.len(),
            events.wf(),
            p == (|e: ReferencingEvent| watches(e, path@, kind)),
            found matches Some(j) ==> first_where(events@.subrange(0, i as int), p) == j,
            found is None ==> first_where(events@.subrange(0, i as int), p) == -1,
        decreases events@.len() - i,
    {
        proof {
            assert(events@.subrange(0, i + 1).subrange(0, i as int) =~= events@.subrange(0, i as int));
            assert(events@.subrange(0, i + 1)[i as int] == events@[i as int]);
        }
        if found.is_none() {
            let hit = match &events.at(i).event_type {
                EventType::FileChanged(f) => f.matches(path, kind),
                _ => false,
            };
            if hit {
                found = Some(i);
            }
        }
        i += 1;
    }
    proof {
        assert(events@.subrange(0, events@.len() as int) =~= events@);
        lemma_first_where(events@, p);
    }
    let k = match found {
        Some(k) => k,
        None => return None,
    };
    let source = events.at(k);
    let target = match &source.next_event {
        None => return None,
        Some(NextEvent::Name(n)) => n.clone(),
        Some(NextEvent::Template(_)) => "unknown".to_owned(),
    };
    match events.get_event_by_name(target.as_str()) {
        Some(mut ev) => {
            ev.data.merge(source.data.copy());
            Some(ev)
        },
        None => None,
    }
}


/// A payload as a JSON document: text as a string, bytes as an array of
/// numbers, empty as null.
pub open spec fn data_json(d: DataModel) -> Json {
    match d {
        DataModel::Str(s) => Json::Str(s),
        DataModel::Json(j) => j,
        DataModel::Bytes(b) => Json::Array(b.map_values(|x: u8| Json::Number(decimal(x as nat)))),
        DataModel::Empty => Json::Null,
    }
}

/// A payload as a JSON document (see [`data_json`]).
pub fn data_as_json(d: &Data) -> (r: JsonValue)
    ensures
        r@ == data_json(d@),
{
    match d {
        Data::String(s) => JsonValue::Str(s.clone()),
        Data::Json(j) => j.deep_copy(),
        Data::Empty => JsonValue::Null,
        Data::Bytes(b) => {
            let mut items: Vec<JsonValue> = Vec::new();
            let mut i: usize = 0;
            while i < b.len()
                invariant
                    i <= b.len(),
                    items@.len() == i,
                    forall|j: int| 0 <= j < i ==> #[trigger] items@[j]@ == Json::Number(decimal(b@[j] as nat)),
                decreases b.len() - i,
            {
                items.push(JsonValue::Number(decimal_text(b[i] as u64)));
                i += 1;
            }
            proof {
                lemma_items_view(items@);
                let target = b@.map_values(|x: u8| Json::Number(decimal(x as nat)));
                assert forall|j: int| 0 <= j < b.len() implies items_view(items@)[j] == target[j] by {
                    assert(items@[j]@ == Json::Number(decimal(b@[j] as nat)));
                    assert(items_view(items@)[j] == json_view_of(items@[j]));
                }
                assert(items_view(items@) =~= target);
            }
            JsonValue::Array(items)
        },
    }
}

spec fn json_view_of(v: JsonValue) -> Json {
    v@
}

/// Whether `e` is a listener that accepts the request.
pub open spec fn listens(e: ReferencingEvent, url: Seq<char>, method: Seq<char>) -> bool {
    e.event_type matches EventType::ApiListen(l) && is_prefix(l.path@, url) && upper_of(method) == l.method.text()
}

/// Position of the first listener that accepts a request.
pub fn find_listener(listeners: &Events, url: &str, method: &str) -> (r: Option<usize>)
    ensures
        r matches Some(i) ==> first_where(listeners@, |e: ReferencingEvent| listens(e, url@, method@)) == i,
        r is None ==> first_where(listeners@, |e: ReferencingEvent| listens(e, url@, method@)) == -1,
{
    let ghost p = |e: ReferencingEvent| listens(e, url@, method@);
    let mut found: Option<usize> = None;
    let mut i: usize = 0;
    while i < listeners.len()
        invariant
            i <= listeners@.len(),
            p == (|e: ReferencingEvent| listens(e, url@, method@)),
            found matches Some(j) ==> first_where(listeners@.subrange(0, i as int), p) == j,
            found is None ==> first_where(listeners@.subrange(0, i as int), p) == -1,
        decreases listeners@.len() - i,
    {
        proof {
            assert(listeners@.subrange(0, i + 1).subrange(0, i as int) =~= listeners@.subrange(0, i as int));
            assert(listeners@.subrange(0, i + 1)[i as int] == listeners@[i as int]);
        }
        if found.is_none() {
            let hit = match &listeners.at(i).event_type {
                EventType::ApiListen(l) => l.matches(url, method),
                _ => false,
            };
            if hit {
                found = Some(i);
            }
        }
        i += 1;
    }
    proof {
        assert(listeners@.subrange(0, listeners@.len() as int) =~= listeners@);
    }
    found
}

/// What a request's body gives a listener.
#[derive(Debug)]
pub enum RequestBody {
    /// No body is read (a method other than POST or PUT).
    Absent,
    Present(Data),
    /// The body is not of the listener's request content type.
    Unreadable,
}

/// Reads a request body as the listener's request content type says; only
/// POST and PUT requests have their body read.
pub fn request_body(post_or_put: bool, content: RequestContent, body: Vec<u8>) -> (r: RequestBody)
    ensures
        !post_or_put ==> r is Absent,
        post_or_put ==> match content {
            RequestContent::Json => match crate::json::json_parse(body@) {
                Some(j) => r matches RequestBody::Present(d) && d@ == DataModel::Json(j),
                None => r is Unreadable,
            },
            RequestContent::Text => match crate::data::data_of_type(body@, crate::data::DataType::String) {
                Some(m) => r matches RequestBody::Present(d) && d@ == m,
                None => r is Unreadable,
            },
            RequestContent::Bytes => r matches RequestBody::Present(d) && d@ == DataModel::Bytes(body@),
        },
{
    if !post_or_put {
        return RequestBody::Absent;
    }
    let kind = match content {
        RequestContent::Json => crate::data::DataType::Json,
        RequestContent::Text => crate::data::DataType::String,
        RequestContent::Bytes => crate::data::DataType::Bytes,
    };
    match Data::from_bytes(body, kind) {
        Some(d) => RequestBody::Present(d),
        None => RequestBody::Unreadable,
    }
}

/// A response to a request.
#[derive(Debug)]
pub struct HttpResponse {
    pub body: Vec<u8>,
    pub headers: Vec<(String, String)>,
}

/// The body of a listener's response, and whether it is sent as JSON;
/// none when the request gets no response (404).
pub open spec fn response_of(content: ResponseContent, data: DataModel, rendered: Option<Seq<u8>>) -> Option<(Seq<u8>, bool)> {
    match (content, rendered) {
        (ResponseContent::Json, None) => match json_text(data_json(data)) {
            Some(t) => Some((t, true)),
            None => None,
        },
        (ResponseContent::Json, Some(t)) => Some((t, true)),
        (ResponseContent::Text, None) => match data {
            DataModel::Str(s) => Some((encode_utf8(s), false)),
            _ => Some((encode_utf8("OK"@), false)),
        },
        (ResponseContent::Text, Some(t)) => if t.len() > 0 { Some((t, false)) } else { None },
        (ResponseContent::Bytes, _) => match data_bytes(data) {
            Some(b) => Some((b, false)),
            None => Some((encode_utf8("OK"@), false)),
        },
    }
}

/// The response of a listener holding `data`, given what its template
/// rendered to (if it has one): the body of [`response_of`], with the
/// listener's headers and, for JSON, `Content-Type: application/json`.
pub fn http_response(headers: &Vec<(String, String)>, content: ResponseContent, data: &Data, rendered: Option<Vec<u8>>) -> (r: Option<HttpResponse>)
    ensures
        match response_of(content, data@, match rendered { Some(t) => Some(t@), None => None }) {
            None => r is None,
            Some((body, json)) => r matches Some(resp) && resp.body@ == body
                && pairs_view(resp.headers@) == if json {
                    pair_set(pairs_view(headers@), "Content-Type"@, "application/json"@)
                } else {
                    pairs_view(headers@)
                },
        },
{
    let ok_text = "OK";
    proof {
        assert(ok_text@ == "OK"@);
    }
    let (body, json) = match (content, rendered) {
        (ResponseContent::Json, None) => match data_as_json(data).to_bytes() {
            Some(t) => (t, true),
            None => return None,
        },
        (ResponseContent::Json, Some(t)) => (t, true),
        (ResponseContent::Text, None) => match data {
            Data::String(s) => (crate::data::copy_bytes(s.as_str().as_bytes()), false),
            _ => (crate::data::copy_bytes(ok_text.as_bytes()), false),
        },
        (ResponseContent::Text, Some(t)) => if t.len() > 0 {
            (t, false)
        } else {
            return None;
        },
        (ResponseContent::Bytes, _) => match data.to_bytes() {
            Some(b) => (b, false),
            None => (crate::data::copy_bytes(ok_text.as_bytes()), false),
        },
    };
    let mut st = DispatchState { values: crate::text::copy_pairs(headers) };
    if json {
        st.set("Content-Type", "application/json".to_owned());
    }
    Some(HttpResponse { body, headers: st.values })
}

/// Keeps the non-empty texts.
fn non_empty(v: Vec<String>) -> (r: Vec<String>)
    ensures
        strings_view(r@) == keep(strings_view(v@), |t: Seq<char>| t.len() > 0),
{
    let ghost src = v@;
    let ghost sv = strings_view(src);
    let mut out: Vec<String> = Vec::new();
    let mut rest = v;
    let n = rest.len();
    let mut i: usize = 0;
    while i < n
        invariant
            i <= n,
            n == src.len(),
            sv == strings_view(src),
            sv.len() == n,
            rest@ == src.subrange(i as int, n as int),
            strings_view(out@) == keep(sv.subrange(0, i as int), |t: Seq<char>| t.len() > 0),
        decreases n - i,
    {
        let s = rest.remove(0);
        proof {
            assert(src[i as int] == s);
            assert(sv[i as int] == s@);
            assert(rest@ =~= src.subrange(i + 1, n as int));
            assert(sv.subrange(0, i + 1).subrange(0, i as int) =~= sv.subrange(0, i as int));
            assert(sv.subrange(0, i + 1)[i as int] == s@);
            assert(strings_view(out@.push(s)) =~= strings_view(out@).push(s@));
        }
        if s.as_str().unicode_len() > 0 {
            proof {
                assert(s@.len() > 0);
            }
            out.push(s);
        } else {
            proof {
                assert(s@.len() == 0);
            }
        }
        i += 1;
    }
    proof {
        assert(sv.subrange(0, n as int) =~= sv);
    }
    out
}

/// What a request adds to the metadata: `{<listener>: {url, segments,
/// remote_address}}`, the segments being the non-empty pieces of the URL.
pub open spec fn request_note(name: Seq<char>, url: Seq<char>, remote: Seq<char>) -> Json {
    Json::Object(seq![(name, Json::Object(seq![
        ("url"@, Json::Str(url)),
        ("segments"@, text_array(keep(split_on(url, '/'), |t: Seq<char>| t.len() > 0))),
        ("remote_address"@, Json::Str(remote)),
    ]))])
}

/// The event a request to a listener starts: the listener's next event, with
/// the request's payload and then the listener's folded into its payload, and
/// the listener's metadata and `{<listener>: {url, segments,
/// remote_address}}` merged into its metadata.
pub fn http_next_event(events: &Events, listener: &ReferencingEvent, request: Option<Data>, url: &str, remote: &str) -> (r: Option<ReferencingEvent>)
    requires
        events.wf(),
    ensures
        (r is Some <==> exists|n: ReferencingEvent| next_event_spec(events@, *listener, Some(n))),
        r matches Some(out) ==> sent_on(events@, *listener, request_note(listener.name@, url@, remote@),
            |n: ReferencingEvent| policy_merge(
                match request { Some(d) => policy_merge(n.data@, d@, n.merge_data), None => n.data@ },
                listener.data@,
                n.merge_data,
            ), out),
{
    match events.get_next_event(listener) {
        Some(mut ev) => {
            let ghost n = ev;
            match request {
                Some(d) => ev.merge(d),
                None => {},
            }
            ev.merge(listener.data.copy());
            let mut fields: Vec<(String, JsonValue)> = Vec::new();
            fields.push(("url".to_owned(), JsonValue::Str(url.to_owned())));
            fields.push(("segments".to_owned(), strings_array(non_empty(split(url, '/')))));
            fields.push(("remote_address".to_owned(), JsonValue::Str(remote.to_owned())));
            proof {
                lemma_members_view(fields@);
                assert(members_view(fields@) =~= seq![
                    ("url"@, Json::Str(url@)),
                    ("segments"@, text_array(keep(split_on(url@, '/'), |t: Seq<char>| t.len() > 0))),
                    ("remote_address"@, Json::Str(remote@)),
                ]);
            }
            let note = object1(listener.name.clone(), object_of(fields));
            let mut md = listener.metadata.copy();
            md.merge(Metadata(note));
            ev.metadata.merge(md);
            proof {
                assert(ev == (ReferencingEvent { data: ev.data, metadata: ev.metadata, ..n }));
            }
            Some(ev)
        },
        None => None,
    }
}


/// What `String::from_utf8_lossy` makes of a byte string.
pub uninterp spec fn lossy_utf8_of(b: Seq<u8>) -> Seq<char>;

/// Relies on String::from_utf8_lossy: the text depends on the bytes alone,
/// and valid UTF-8 is decoded as it is.
#[verifier::external_body]
fn lossy_text(b: &[u8]) -> (r: String)
    ensures
        r@ == lossy_utf8_of(b@),
        vstd::utf8::valid_utf8(b@) ==> r@ == vstd::utf8::decode_utf8(b@),
{
    String::from_utf8_lossy(b).to_string()
}

/// The headers of an HTTP call: the configured ones, with
/// `Content-Type: application/json` set for JSON request content.
pub open spec fn request_headers(headers: Seq<(Seq<char>, Seq<char>)>, content: RequestContent) -> Seq<(Seq<char>, Seq<char>)> {
    if content == RequestContent::Json {
        pair_set(headers, "Content-Type"@, "application/json"@)
    } else {
        headers
    }
}

/// What an HTTP call sends: its headers, and the payload's bytes as the body
/// for PUT and POST (no body for GET and DELETE); none when the payload
/// cannot be written for a method that sends it.
pub fn api_request(method: RequestMethod, content: RequestContent, headers: &Vec<(String, String)>, data: &Data) -> (r: Option<(Vec<(String, String)>, Option<Vec<u8>>)>)
    ensures
        r is None <==> ((method == RequestMethod::Put || method == RequestMethod::Post) && data_bytes(data@) is None),
        r matches Some((h, body)) ==> {
            &&& pairs_view(h@) == request_headers(pairs_view(headers@), content)
            &&& (method == RequestMethod::Put || method == RequestMethod::Post) ==> (body matches Some(b) && data_bytes(data@) == Some(b@))
            &&& (method == RequestMethod::Get || method == RequestMethod::Delete) ==> body is None
        },
{
    let body = match method {
        RequestMethod::Put | RequestMethod::Post => match data.to_bytes() {
            Some(b) => Some(b),
            None => return None,
        },
        RequestMethod::Get | RequestMethod::Delete => None,
    };
    let mut st = DispatchState { values: crate::text::copy_pairs(headers) };
    if content == RequestContent::Json {
        st.set("Content-Type", "application/json".to_owned());
    }
    Some((st.values, body))
}

/// Response headers as a JSON object: one member per header name, at the
/// place it first came, holding the last value given for it.
pub open spec fn headers_json(headers: Seq<(Seq<char>, Seq<char>)>) -> Json {
    Json::Object(pairs_set_all(Seq::empty(), headers).map_values(|p: (Seq<char>, Seq<char>)| (p.0, Json::Str(p.1))))
}

/// What an HTTP call's response adds to the metadata: `{<event>: {headers}}`.
pub open spec fn response_note(name: Seq<char>, headers: Seq<(Seq<char>, Seq<char>)>) -> Json {
    Json::Object(seq![(name, Json::Object(seq![("headers"@, headers_json(headers))]))])
}

/// The payload a response body gives under the response content type;
/// none when JSON is expected and the body is not JSON.
pub open spec fn response_payload(body: Seq<u8>, content: ResponseContent) -> Option<DataModel> {
    match content {
        ResponseContent::Json => match crate::json::json_parse(body) {
            Some(j) => Some(DataModel::Json(j)),
            None => None,
        },
        ResponseContent::Text => Some(DataModel::Str(lossy_utf8_of(body))),
        ResponseContent::Bytes => Some(DataModel::Bytes(body)),
    }
}

/// What an HTTP call made by event `name` yields: the response body read
/// per the response content type, and `{<name>: {headers}}` as metadata.
pub fn api_response(name: &str, headers: Vec<(String, String)>, body: Vec<u8>, content: ResponseContent) -> (r: Option<(Data, Metadata)>)
    ensures
        r is None <==> response_payload(body@, content) is None,
        r matches Some((d, m)) ==> Some(d@) == response_payload(body@, content) && m@ == response_note(name@, pairs_view(headers@)),
{
    let data = match content {
        ResponseContent::Json => match JsonValue::from_bytes(body.as_slice()) {
            Some(j) => Data::Json(j),
            None => return None,
        },
        ResponseContent::Text => Data::String(lossy_text(body.as_slice())),
        ResponseContent::Bytes => Data::Bytes(body),
    };
    let ghost hv = pairs_view(headers@);
    let mut st = DispatchState::new();
    let mut i: usize = 0;
    proof {
        assert(st.view_pairs() =~= Seq::<(Seq<char>, Seq<char>)>::empty());
        assert(hv.subrange(0, 0) =~= Seq::<(Seq<char>, Seq<char>)>::empty());
    }
    while i < headers.len()
        invariant
            i <= headers.len(),
            hv == pairs_view(headers@),
            hv.len() == headers@.len(),
            st.view_pairs() == pairs_set_all(Seq::empty(), hv.subrange(0, i as int)),
        decreases headers.len() - i,
    {
        proof {
            assert(hv.subrange(0, i + 1).subrange(0, i as int) =~= hv.subrange(0, i as int));
            assert(hv[i as int] == (headers@[i as int].0@, headers@[i as int].1@));
        }
        st.set(headers[i].0.as_str(), headers[i].1.clone());
        i += 1;
    }
    proof {
        assert(hv.subrange(0, headers.len() as int) =~= hv);
    }
    let ghost merged = st.view_pairs();
    let mut members: Vec<(String, JsonValue)> = Vec::new();
    let mut j: usize = 0;
    while j < st.values.len()
        invariant
            j <= st.values.len(),
            merged == pairs_view(st.values@),
            members@.len() == j,
            forall|q: int| 0 <= q < j ==> (#[trigger] members@[q]).0@ == st.values@[q].0@ && members@[q].1@ == Json::Str(st.values@[q].1@),
        decreases st.values.len() - j,
    {
        members.push((st.values[j].0.clone(), JsonValue::Str(st.values[j].1.clone())));
        j += 1;
    }
    proof {
        lemma_members_view(members@);
        let target = merged.map_values(|p: (Seq<char>, Seq<char>)| (p.0, Json::Str(p.1)));
        assert forall|q: int| 0 <= q < members@.len() implies members_view(members@)[q] == target[q] by {
            assert(merged[q] == (st.values@[q].0@, st.values@[q].1@));
        }
        assert(members_view(members@) =~= target);
    }
    let note = object1(name.to_owned(), object1("headers".to_owned(), object_of(members)));
    Some((data, Metadata(note)))
}

/// The non-empty pieces of a URL between its slashes.
pub fn url_segments(url: &str) -> (r: Vec<String>)
    ensures
        strings_view(r@) == keep(split_on(url@, '/'), |t: Seq<char>| t.len() > 0),
{
    non_empty(split(url, '/'))
}

} // verus!
