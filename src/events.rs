//! The event model: the kinds of triggers and actions, and the event record
//! that carries a payload and metadata along a chain of transitions.
use vstd::prelude::*;
use vstd::utf8::{decode_utf8, valid_utf8};
use crate::data::{data_merge, payload_of_bytes, policy_merge, utf8_text, Data, DataType, MergePolicy, Metadata};
use crate::json::{Json, JsonValue};
use crate::text::{
    chars_of, contains, copy_indexed, copy_opt, copy_pairs, copy_strings, is_prefix,
    is_substring, push_char, split, split_on, starts_with, strings_view, to_uppercase,
    trim_end, trim_end_char, upper_of,
};
use crate::time::{PeriodEvent, TimeEvent};

verus! {

/// HTTP methods of calls and listeners.
#[derive(Debug, Clone, Copy, PartialEq, Eq, Structural)]
pub enum RequestMethod {
    Put,
    Post,
    Get,
    Delete,
}

impl RequestMethod {
    /// The method's name on the wire.
    pub open spec fn text(&self) -> Seq<char> {
        match self {
            RequestMethod::Put => "PUT"@,
            RequestMethod::Post => "POST"@,
            RequestMethod::Get => "GET"@,
            RequestMethod::Delete => "DELETE"@,
        }
    }

    /// The method's name on the wire.
    pub fn as_str(&self) -> (r: &'static str)
        ensures
            r@ == self.text(),
    {
        match self {
            RequestMethod::Put => "PUT",
            RequestMethod::Post => "POST",
            RequestMethod::Get => "GET",
            RequestMethod::Delete => "DELETE",
        }
    }
}

/// How a request body is read.
#[derive(Debug, Clone, Copy, PartialEq, Eq, Structural)]
pub enum RequestContent {
    Json,
    Text,
    Bytes,
}

/// How a response body is read or written.
#[derive(Debug, Clone, Copy, PartialEq, Eq, Structural)]
pub enum ResponseContent {
    Json,
    Text,
    Bytes,
}

/// Whether a listener event starts or stops listening.
#[derive(Debug, Clone, Copy, PartialEq, Eq, Structural)]
pub enum ApiListenAction {
    Start,
    Stop,
}

/// Whether a watch event starts or stops watching.
#[derive(Debug, Clone, Copy, PartialEq, Eq, Structural)]
pub enum WatchAction {
    Start,
    Stop,
}

/// The file-system changes a trigger can wait for.
#[derive(Debug, Clone, Copy, PartialEq, Eq, Structural)]
pub enum WatchKind {
    Written,
    Created,
    Removed,
}

/// How a file is opened for writing.
#[derive(Debug, Clone, Copy, PartialEq, Eq, Structural)]
pub enum FileWriteMode {
    Append,
    Truncate,
}

/// Where a print event writes.
#[derive(Debug, Clone, Copy, PartialEq, Eq, Structural)]
pub enum PrintOutput {
    Stdout,
    Stderr,
}

/// Publishes the payload (or a rendered body) to a topic.
#[derive(Debug)]
pub struct MqttPublishEvent {
    pub topic: String,
    pub body: Option<String>,
    pub retain: bool,
    pub pool_id: String,
}

/// What a message body must be, or hold, for a subscription to match.
#[derive(Debug)]
pub enum MqttBodyMatch {
    Body(String),
    BodyContains(String),
}

/// Subscribes to a topic pattern; matching messages start its next event.
#[derive(Debug)]
pub struct MqttSubscribeEvent {
    pub topic: String,
    pub body: Option<MqttBodyMatch>,
    pub pool_id: String,
}

/// Removes a topic subscription.
#[derive(Debug)]
pub struct MqttUnsubscribeEvent {
    pub topic: String,
    pub pool_id: String,
}

/// Calls an HTTP endpoint.
#[derive(Debug)]
pub struct ApiCallEvent {
    pub url: String,
    pub headers: Vec<(String, String)>,
    pub method: RequestMethod,
    pub request_content: RequestContent,
    pub response_content: ResponseContent,
    pub pool_id: String,
}

/// Listens for HTTP requests under a path.
#[derive(Debug)]
pub struct ApiListenEvent {
    pub path: String,
    pub headers: Vec<(String, String)>,
    pub template: Option<String>,
    pub method: RequestMethod,
    pub request_content: RequestContent,
    pub response_content: ResponseContent,
    pub action: ApiListenAction,
    pub pool_id: String,
}

/// Reads a file into the payload.
#[derive(Debug)]
pub struct FileReadEvent {
    pub file: String,
    pub data_type: DataType,
}

/// Writes the payload to a file.
#[derive(Debug)]
pub struct FileWriteEvent {
    pub file: String,
    pub mode: FileWriteMode,
}

/// Starts or stops watching a path.
#[derive(Debug)]
pub struct WatchEvent {
    pub path: String,
    pub action: WatchAction,
    pub recursive: bool,
}

/// Fires when a watched path changes in a given way.
#[derive(Debug)]
pub struct FileChangedEvent {
    pub path: String,
    pub when: WatchKind,
}

/// Runs a command with the payload on its standard input.
#[derive(Debug)]
pub struct CommandEvent {
    pub command: String,
    pub args: Vec<String>,
    /// Arguments replaced, by position, with rendered templates before the run.
    pub replace_args: Vec<(usize, String)>,
    pub vars: Vec<(String, String)>,
    pub data_type: DataType,
}

/// Prints the payload.
#[derive(Debug)]
pub struct PrintEvent(pub PrintOutput);

/// Fires on a scan code read from an input device.
#[derive(Debug)]
pub struct ScanCodeReadEvent(pub i32);

/// The kind of an event: its trigger or action.
#[derive(Debug)]
pub enum EventType {
    MqttPublish(MqttPublishEvent),
    MqttSubscribe(MqttSubscribeEvent),
    MqttUnsubscribe(MqttUnsubscribeEvent),
    Time(TimeEvent),
    Repeat(TimeEvent),
    Period(PeriodEvent),
    ApiCall(ApiCallEvent),
    ApiListen(ApiListenEvent),
    FileRead(FileReadEvent),
    FileWrite(FileWriteEvent),
    Watch(WatchEvent),
    FileChanged(FileChangedEvent),
    Execute(CommandEvent),
    Print(PrintEvent),
    ScanCodeRead(ScanCodeReadEvent),
    Pass,
}

/// The transition out of an event: a literal name, or a template that
/// renders to one.
#[derive(Debug)]
pub enum NextEvent {
    Name(String),
    Template(String),
}

/// A counter key bumped each time the event fires, and fixed values put into
/// the template context.
#[derive(Debug)]
pub struct StateData {
    pub count: Option<String>,
    pub replace: Vec<(String, String)>,
}

/// An event of the catalog, or a copy of one flowing through the dispatcher.
#[derive(Debug)]
pub struct ReferencingEvent {
    pub name: String,
    pub event_type: EventType,
    pub next_event: Option<NextEvent>,
    pub metadata: Metadata,
    pub state: Option<StateData>,
    pub data: Data,
    pub merge_data: MergePolicy,
}

// ---- trigger rules ----

/// Whether an MQTT topic pattern accepts a topic: a pattern ending in `#`
/// accepts every topic that starts with the rest of it; a pattern with `+`
/// needs as many levels as the topic and compares them level by level, `+`
/// standing for any one level; any other pattern accepts only itself.
pub open spec fn topic_matches(pattern: Seq<char>, topic: Seq<char>) -> bool {
    if pattern.len() > 0 && pattern[pattern.len() - 1] == '#' {
        is_prefix(trim_end_char(pattern, '#'), topic)
    } else if pattern.contains('+') {
        levels_match(split_on(pattern, '/'), split_on(topic, '/'))
    } else {
        topic == pattern
    }
}

/// Level-by-level comparison of two lists of levels of the same length.
pub open spec fn levels_match(p: Seq<Seq<char>>, t: Seq<Seq<char>>) -> bool {
    p.len() == t.len() && forall|i: int| 0 <= i < p.len() ==> #[trigger] p[i] == seq!['+'] || p[i] == t[i]
}

/// Whether `c` occurs in `s`.
fn has_char(s: &Vec<char>, c: char) -> (r: bool)
    ensures
        r == s@.contains(c),
{
    let mut i: usize = 0;
    while i < s.len()
        invariant
            i <= s.len(),
            forall|j: int| 0 <= j < i ==> s@[j] != c,
        decreases s.len() - i,
    {
        if s[i] == c {
            return true;
        }
        i += 1;
    }
    false
}

impl MqttBodyMatch {
    /// Whether a message body is the expected text, or holds it.
    pub open spec fn accepts(&self, body: Seq<u8>) -> bool {
        match self {
            MqttBodyMatch::Body(b) => valid_utf8(body) && decode_utf8(body) == b@,
            MqttBodyMatch::BodyContains(b) => valid_utf8(body) && is_substring(b@, decode_utf8(body)),
        }
    }

    /// Whether a message body is the expected text, or holds it.
    pub fn matches(&self, body: &[u8]) -> (r: bool)
        ensures
            r == self.accepts(body@),
    {
        match utf8_text(body) {
            None => false,
            Some(text) => match self {
                MqttBodyMatch::Body(b) => text.eq(b),
                MqttBodyMatch::BodyContains(b) => contains(text.as_str(), b.as_str()),
            },
        }
    }

    pub fn copy(&self) -> (r: MqttBodyMatch)
        ensures
            r == *self,
    {
        match self {
            MqttBodyMatch::Body(b) => MqttBodyMatch::Body(b.clone()),
            MqttBodyMatch::BodyContains(b) => MqttBodyMatch::BodyContains(b.clone()),
        }
    }
}

impl MqttSubscribeEvent {
    /// Whether a message fits this subscription.
    pub open spec fn accepts(&self, topic: Seq<char>, body: Seq<u8>) -> bool {
        topic_matches(self.topic@, topic) && match self.body {
            Some(b) => b.accepts(body),
            None => true,
        }
    }

    /// Whether a message on `topic` with `body` fits this subscription.
    pub fn matches(&self, topic: &str, body: &[u8]) -> (r: bool)
        ensures
            r == self.accepts(topic@, body@),
    {
        let pattern = chars_of(self.topic.as_str());
        let topic_ok = if pattern.len() > 0 && pattern[pattern.len() - 1] == '#' {
            let stem = trim_end(self.topic.as_str(), '#');
            starts_with(topic, stem.as_str())
        } else if has_char(&pattern, '+') {
            let p = split(self.topic.as_str(), '/');
            let t = split(topic, '/');
            let plus = push_char(String::new(), '+');
            let mut ok = p.len() == t.len();
            let mut i: usize = 0;
            proof {
                assert(strings_view(p@).len() == p@.len());
                assert(strings_view(t@).len() == t@.len());
            }
            while i < p.len() && i < t.len()
                invariant
                    i <= p.len(),
                    i <= t.len(),
                    plus@ == seq!['+'],
                    strings_view(p@) == split_on(self.topic@, '/'),
                    strings_view(t@) == split_on(topic@, '/'),
                    ok == (p@.len() == t@.len() && forall|j: int| 0 <= j < i ==> #[trigger] p@[j]@ == seq!['+'] || p@[j]@ == t@[j]@),
                decreases p.len() - i,
            {
                if !(p[i].eq(&plus) || p[i].eq(&t[i])) {
                    ok = false;
                }
                i += 1;
            }
            proof {
                let ps = split_on(self.topic@, '/');
                let ts = split_on(topic@, '/');
                if ok {
                    assert forall|j: int| 0 <= j < ps.len() implies #[trigger] ps[j]
                        == seq!['+'] || ps[j] == ts[j] by {
                        assert(strings_view(p@)[j] == p@[j]@);
                        assert(strings_view(t@)[j] == t@[j]@);
                    }
                } else if p@.len() != t@.len() {
                    assert(ps.len() != ts.len());
                } else {
                    let j = choose|j: int|
                        0 <= j < i && !(#[trigger] p@[j]@ == seq!['+'] || p@[j]@ == t@[j]@);
                    assert(strings_view(p@)[j] == p@[j]@);
                    assert(strings_view(t@)[j] == t@[j]@);
                    assert(!levels_match(ps, ts));
                }
                assert(pattern@ == self.topic@);
                assert(ok == topic_matches(self.topic@, topic@));
            }
            ok
        } else {
            str_eq(topic, self.topic.as_str())
        };
        topic_ok && match &self.body {
            Some(b) => b.matches(body),
            None => true,
        }
    }

    pub fn copy(&self) -> (r: MqttSubscribeEvent)
        ensures
            r == *self,
    {
        MqttSubscribeEvent {
            topic: self.topic.clone(),
            body: match &self.body {
                Some(b) => Some(b.copy()),
                None => None,
            },
            pool_id: self.pool_id.clone(),
        }
    }
}

/// Whether two texts are equal.
pub fn str_eq(a: &str, b: &str) -> (r: bool)
    ensures
        r == (a@ == b@),
{
    let x = a.to_owned();
    let y = b.to_owned();
    x.eq(&y)
}

impl ApiListenEvent {
    /// Whether a request fits this listener, given its method already in
    /// capitals: the URL starts with the listener's path and the method is
    /// the listener's.
    pub fn matches_upper(&self, url: &str, method_upper: &str) -> (r: bool)
        ensures
            r == (is_prefix(self.path@, url@) && method_upper@ == self.method.text()),
    {
        starts_with(url, self.path.as_str()) && str_eq(method_upper, self.method.as_str())
    }

    /// Whether a request fits this listener: the URL starts with the
    /// listener's path, and the method is the listener's, ignoring case.
    pub fn matches(&self, url: &str, method: &str) -> (r: bool)
        ensures
            r == (is_prefix(self.path@, url@) && upper_of(method@) == self.method.text()),
    {
        let upper = to_uppercase(method);
        self.matches_upper(url, upper.as_str())
    }

    pub open spec fn same(&self, o: &ApiListenEvent) -> bool {
        self.path == o.path && self.headers@ == o.headers@ && self.template == o.template
            && self.method == o.method && self.request_content == o.request_content
            && self.response_content == o.response_content && self.action == o.action
            && self.pool_id == o.pool_id
    }

    pub fn copy(&self) -> (r: ApiListenEvent)
        ensures
            r.same(self),
    {
        ApiListenEvent {
            path: self.path.clone(),
            headers: copy_pairs(&self.headers),
            template: copy_opt(&self.template),
            method: self.method,
            request_content: self.request_content,
            response_content: self.response_content,
            action: self.action,
            pool_id: self.pool_id.clone(),
        }
    }
}

/// Whether two paths name the same file, as `std::path::Path`'s `==` decides.
pub uninterp spec fn same_path(a: Seq<char>, b: Seq<char>) -> bool;

/// Relies on `==` of std::path::Path: it compares the paths component by
/// component, so equal texts are equal paths.
#[verifier::external_body]
fn paths_equal(a: &str, b: &str) -> (r: bool)
    ensures
        r == same_path(a@, b@),
        a@ == b@ ==> r,
{
    std::path::Path::new(a) == std::path::Path::new(b)
}

impl FileChangedEvent {
    /// Whether a change of kind `kind` at `path` fits this trigger.
    pub fn matches(&self, path: &str, kind: WatchKind) -> (r: bool)
        ensures
            r == (same_path(self.path@, path@) && self.when == kind),
    {
        paths_equal(self.path.as_str(), path) && self.when == kind
    }
}

impl ScanCodeReadEvent {
    pub fn new(code: i32) -> (r: ScanCodeReadEvent)
        ensures
            r.0 == code,
    {
        ScanCodeReadEvent(code)
    }

    /// Whether a scan code fits this trigger.
    pub fn matches(&self, code: i32) -> (r: bool)
        ensures
            r == (self.0 == code),
    {
        self.0 == code
    }
}

impl ApiCallEvent {
    pub open spec fn same(&self, o: &ApiCallEvent) -> bool {
        self.url == o.url && self.headers@ == o.headers@ && self.method == o.method
            && self.request_content == o.request_content
            && self.response_content == o.response_content && self.pool_id == o.pool_id
    }

    pub fn copy(&self) -> (r: ApiCallEvent)
        ensures
            r.same(self),
    {
        ApiCallEvent {
            url: self.url.clone(),
            headers: copy_pairs(&self.headers),
            method: self.method,
            request_content: self.request_content,
            response_content: self.response_content,
            pool_id: self.pool_id.clone(),
        }
    }
}

impl CommandEvent {
    pub open spec fn same(&self, o: &CommandEvent) -> bool {
        self.command == o.command && self.args@ == o.args@ && self.replace_args@ == o.replace_args@
            && self.vars@ == o.vars@ && self.data_type == o.data_type
    }

    pub fn copy(&self) -> (r: CommandEvent)
        ensures
            r.same(self),
    {
        CommandEvent {
            command: self.command.clone(),
            args: copy_strings(&self.args),
            replace_args: copy_indexed(&self.replace_args),
            vars: copy_pairs(&self.vars),
            data_type: self.data_type,
        }
    }
}


/// Whether two event kinds are the same, lists compared by their contents.
pub open spec fn same_kind(a: &EventType, b: &EventType) -> bool {
    match (a, b) {
        (EventType::ApiCall(x), EventType::ApiCall(y)) => x.same(y),
        (EventType::ApiListen(x), EventType::ApiListen(y)) => x.same(y),
        (EventType::Execute(x), EventType::Execute(y)) => x.same(y),
        _ => a == b,
    }
}

/// Whether two optional states are the same.
pub open spec fn same_state(a: &Option<StateData>, b: &Option<StateData>) -> bool {
    match (a, b) {
        (Some(x), Some(y)) => x.count == y.count && x.replace@ == y.replace@,
        (None, None) => true,
        _ => false,
    }
}

impl EventType {
    pub fn copy(&self) -> (r: EventType)
        ensures
            same_kind(&r, self),
    {
        match self {
            EventType::MqttPublish(e) => EventType::MqttPublish(MqttPublishEvent {
                topic: e.topic.clone(),
                body: copy_opt(&e.body),
                retain: e.retain,
                pool_id: e.pool_id.clone(),
            }),
            EventType::MqttSubscribe(e) => EventType::MqttSubscribe(e.copy()),
            EventType::MqttUnsubscribe(e) => EventType::MqttUnsubscribe(
                MqttUnsubscribeEvent { topic: e.topic.clone(), pool_id: e.pool_id.clone() },
            ),
            EventType::Time(e) => EventType::Time(e.copy()),
            EventType::Repeat(e) => EventType::Repeat(e.copy()),
            EventType::Period(e) => EventType::Period(e.copy()),
            EventType::ApiCall(e) => EventType::ApiCall(e.copy()),
            EventType::ApiListen(e) => EventType::ApiListen(e.copy()),
            EventType::FileRead(e) => EventType::FileRead(
                FileReadEvent { file: e.file.clone(), data_type: e.data_type },
            ),
            EventType::FileWrite(e) => EventType::FileWrite(
                FileWriteEvent { file: e.file.clone(), mode: e.mode },
            ),
            EventType::Watch(e) => EventType::Watch(
                WatchEvent { path: e.path.clone(), action: e.action, recursive: e.recursive },
            ),
            EventType::FileChanged(e) => EventType::FileChanged(
                FileChangedEvent { path: e.path.clone(), when: e.when },
            ),
            EventType::Execute(e) => EventType::Execute(e.copy()),
            EventType::Print(e) => EventType::Print(PrintEvent(e.0)),
            EventType::ScanCodeRead(e) => EventType::ScanCodeRead(ScanCodeReadEvent(e.0)),
            EventType::Pass => EventType::Pass,
        }
    }
}

impl NextEvent {
    pub fn copy(&self) -> (r: NextEvent)
        ensures
            r == *self,
    {
        match self {
            NextEvent::Name(s) => NextEvent::Name(s.clone()),
            NextEvent::Template(s) => NextEvent::Template(s.clone()),
        }
    }
}

/// A copy of an optional transition.
pub fn copy_next(n: &Option<NextEvent>) -> (r: Option<NextEvent>)
    ensures
        r == *n,
{
    match n {
        Some(x) => Some(x.copy()),
        None => None,
    }
}

/// The scheduling identity of an event: the id of a time or repeat trigger
/// when it has one, else the event's name.
pub open spec fn event_id_of(e: &ReferencingEvent) -> Seq<char> {
    match &e.event_type {
        EventType::Time(t) => match &t.event_id {
            Some(id) => id@,
            None => e.name@,
        },
        EventType::Repeat(t) => match &t.event_id {
            Some(id) => id@,
            None => e.name@,
        },
        _ => e.name@,
    }
}

impl ReferencingEvent {
    /// An event of the given name and kind, with no transition, null
    /// metadata, no state, an empty payload and merge policy `yes`.
    pub fn new(name: String, event_type: EventType) -> (r: ReferencingEvent)
        ensures
            r.name == name,
            r.event_type == event_type,
            r.next_event is None,
            r.metadata@ == Json::Null,
            r.state is None,
            r.data@ == crate::data::DataModel::Empty,
            r.merge_data == MergePolicy::Yes,
    {
        ReferencingEvent {
            name,
            event_type,
            next_event: None,
            metadata: Metadata(JsonValue::Null),
            state: None,
            data: Data::Empty,
            merge_data: MergePolicy::Yes,
        }
    }

    /// Whether two events are the same in every attribute.
    pub open spec fn same(&self, o: &ReferencingEvent) -> bool {
        self.name == o.name && same_kind(&self.event_type, &o.event_type) && self.next_event
            == o.next_event && self.metadata@ == o.metadata@ && same_state(&self.state, &o.state)
            && self.data@ == o.data@ && self.merge_data == o.merge_data
    }

    /// A copy of this event.
    pub fn copy(&self) -> (r: ReferencingEvent)
        ensures
            r.same(self),
    {
        ReferencingEvent {
            name: self.name.clone(),
            event_type: self.event_type.copy(),
            next_event: copy_next(&self.next_event),
            metadata: self.metadata.copy(),
            state: match &self.state {
                Some(st) => Some(StateData { count: copy_opt(&st.count), replace: copy_pairs(&st.replace) }),
                None => None,
            },
            data: self.data.copy(),
            merge_data: self.merge_data,
        }
    }

    /// Folds `data` into this event's payload under the event's merge policy.
    pub fn merge(&mut self, data: Data)
        ensures
            final(self).data@ == policy_merge(old(self).data@, data@, old(self).merge_data),
            final(self).name == old(self).name,
            final(self).event_type == old(self).event_type,
            final(self).next_event == old(self).next_event,
            final(self).metadata == old(self).metadata,
            final(self).state == old(self).state,
            final(self).merge_data == old(self).merge_data,
    {
        let policy = self.merge_data;
        self.data.merge_with_policy(data, policy);
    }

    /// Folds bytes received from outside into this event's payload: read as
    /// JSON, text or bytes under policy `yes`, ignored under `no`, taken as
    /// raw bytes under `overwrite`.
    pub fn try_merge_bytes(&mut self, bytes: &[u8])
        ensures
            final(self).data@ == match old(self).merge_data {
                MergePolicy::Yes => data_merge(old(self).data@, payload_of_bytes(bytes@)),
                MergePolicy::No => old(self).data@,
                MergePolicy::Overwrite => crate::data::DataModel::Bytes(bytes@),
            },
            final(self).name == old(self).name,
            final(self).event_type == old(self).event_type,
            final(self).next_event == old(self).next_event,
            final(self).metadata == old(self).metadata,
            final(self).state == old(self).state,
            final(self).merge_data == old(self).merge_data,
    {
        match self.merge_data {
            MergePolicy::Yes => self.data.try_merge_bytes(bytes),
            MergePolicy::No => {},
            MergePolicy::Overwrite => {
                self.data = Data::Bytes(crate::data::copy_bytes(bytes));
            },
        }
    }

    /// The scheduling identity of this event.
    pub fn event_id(&self) -> (r: &String)
        ensures
            r@ == event_id_of(self),
    {
        match &self.event_type {
            EventType::Time(t) | EventType::Repeat(t) => match &t.event_id {
                Some(id) => id,
                None => &self.name,
            },
            _ => &self.name,
        }
    }

    /// The time trigger of a time or repeat event.
    pub fn time_event(&self) -> (r: Option<&TimeEvent>)
        ensures
            r matches Some(t) ==> (self.event_type == EventType::Time(*t)
                || self.event_type == EventType::Repeat(*t)),
            r is None ==> !(self.event_type is Time || self.event_type is Repeat),
    {
        match &self.event_type {
            EventType::Time(t) | EventType::Repeat(t) => Some(t),
            _ => None,
        }
    }
}

impl PartialEq for ReferencingEvent {
    fn eq(&self, other: &ReferencingEvent) -> (r: bool) {
        self.name.eq(&other.name)
    }
}

impl vstd::std_specs::cmp::PartialEqSpecImpl for ReferencingEvent {
    open spec fn obeys_eq_spec() -> bool {
        true
    }

    /// Events are identified by their names.
    open spec fn eq_spec(&self, other: &ReferencingEvent) -> bool {
        self.name@ == other.name@
    }
}

} // verus!
