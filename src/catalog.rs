//! The event catalog: events keyed by unique names, in insertion order.
use vstd::prelude::*;
use crate::data::MergePolicy;
use crate::events::{copy_next, EventType, NextEvent, ReferencingEvent, event_id_of};
use crate::json::Json;

verus! {

/// Position of the first event named `n`, or -1 when there is none.
pub open spec fn name_index(s: Seq<ReferencingEvent>, n: Seq<char>) -> int
    decreases s.len(),
{
    if s.len() == 0 {
        -1
    } else {
        let r = name_index(s.subrange(0, s.len() - 1), n);
        if r >= 0 {
            r
        } else if s[s.len() - 1].name@ == n {
            s.len() - 1
        } else {
            -1
        }
    }
}

/// Whether no two events share a name.
pub open spec fn names_unique(s: Seq<ReferencingEvent>) -> bool {
    forall|i: int, j: int| 0 <= i < j < s.len() ==> #[trigger] s[i].name@ != #[trigger] s[j].name@
}

/// `base` with the events of `s` added in order, each unless its name is
/// already taken (the event there stays).
pub open spec fn inserted_all(base: Seq<ReferencingEvent>, s: Seq<ReferencingEvent>) -> Seq<ReferencingEvent>
    decreases s.len(),
{
    if s.len() == 0 {
        base
    } else {
        let r = inserted_all(base, s.subrange(0, s.len() - 1));
        let e = s[s.len() - 1];
        if name_index(r, e.name@) >= 0 {
            r
        } else {
            r.push(e)
        }
    }
}

pub proof fn lemma_name_index(s: Seq<ReferencingEvent>, n: Seq<char>)
    ensures
        -1 <= name_index(s, n) < s.len(),
        name_index(s, n) >= 0 ==> s[name_index(s, n)].name@ == n,
        name_index(s, n) == -1 <==> forall|i: int| 0 <= i < s.len() ==> s[i].name@ != n,
    decreases s.len(),
{
    if s.len() > 0 {
        let p = s.subrange(0, s.len() - 1);
        lemma_name_index(p, n);
        assert forall|i: int| 0 <= i < s.len() - 1 implies s[i] == p[i] by {}
    }
}

/// The name of the pass event made for a templated transition out of `n`.
pub open spec fn generated_name(n: Seq<char>) -> Seq<char> {
    "generated_from_"@ + n
}

/// `<prefix>_<name>`.
pub open spec fn prefixed(prefix: Seq<char>, n: Seq<char>) -> Seq<char> {
    prefix + seq!['_'] + n
}

/// `e` under the name of its key.
pub open spec fn renamed(p: (String, ReferencingEvent), out: ReferencingEvent) -> bool {
    out == ReferencingEvent { name: p.0, ..p.1 }
}

/// `e` under `<prefix>_<key>`, a literal transition prefixed the same way.
pub open spec fn renamed_with_prefix(p: (String, ReferencingEvent), prefix: Seq<char>, out: ReferencingEvent) -> bool {
    &&& out.name@ == prefixed(prefix, p.0@)
    &&& out.event_type == p.1.event_type
    &&& out.metadata == p.1.metadata
    &&& out.state == p.1.state
    &&& out.data == p.1.data
    &&& out.merge_data == p.1.merge_data
    &&& match p.1.next_event {
        Some(NextEvent::Name(n)) => out.next_event matches Some(NextEvent::Name(m)) && m@ == prefixed(prefix, n@),
        other => out.next_event == other,
    }
}

/// Concatenates `a`, `_` and `b`.
fn join_prefix(a: &str, b: &str) -> (r: String)
    ensures
        r@ == prefixed(a@, b@),
{
    let mut s = a.to_owned();
    s = crate::text::push_char(s, '_');
    s.append(b);
    s
}

/// What the transition out of `event` leads to in catalog `s`: nothing
/// without a transition; for a literal name, a copy of the event of that name
/// if there is one; for a template, a fresh pass event named
/// `generated_from_<name>` that carries the template.
pub open spec fn next_event_spec(s: Seq<ReferencingEvent>, event: ReferencingEvent, r: Option<ReferencingEvent>) -> bool {
    match event.next_event {
        None => r is None,
        Some(NextEvent::Name(n)) => (r is Some <==> name_index(s, n@) >= 0) && (r matches Some(e) ==> e.same(&s[name_index(s, n@)])),
        Some(NextEvent::Template(t)) => r matches Some(e) && e.name@ == generated_name(event.name@)
            && e.event_type == EventType::Pass && e.next_event == Some(NextEvent::Template(t))
            && e.metadata@ == Json::Null && e.state is None
            && e.data@ == crate::data::DataModel::Empty && e.merge_data == MergePolicy::Yes,
    }
}

/// Whether the transition out of `event` leads somewhere in catalog `s`.
pub open spec fn next_resolves(s: Seq<ReferencingEvent>, event: ReferencingEvent) -> bool {
    match event.next_event {
        None => false,
        Some(NextEvent::Name(n)) => name_index(s, n@) >= 0,
        Some(NextEvent::Template(_)) => true,
    }
}

#[verifier::external_type_specification]
#[verifier::external_body]
#[verifier::reject_recursive_types(K)]
#[verifier::reject_recursive_types(V)]
#[verifier::reject_recursive_types(S)]
pub struct ExIndexMap<K, V, S>(indexmap::IndexMap<K, V, S>);

/// The entries of an index map of events, in its order: each key and its event.
pub uninterp spec fn catalog_entries(m: indexmap::IndexMap<String, ReferencingEvent>) -> Seq<(String, ReferencingEvent)>;

/// Relies on indexmap::IndexMap::new: the map starts empty.
#[verifier::external_body]
pub(crate) fn map_new() -> (r: indexmap::IndexMap<String, ReferencingEvent>)
    ensures
        catalog_entries(r) == Seq::<(String, ReferencingEvent)>::empty(),
{
    indexmap::IndexMap::new()
}

/// Relies on indexmap::IndexMap::len: the number of entries.
#[verifier::external_body]
pub(crate) fn map_len(m: &indexmap::IndexMap<String, ReferencingEvent>) -> (r: usize)
    ensures
        r == catalog_entries(*m).len(),
{
    m.len()
}

/// Relies on indexmap::IndexMap::get_index_of: the position of the entry
/// whose key is `key`, if there is one.
#[verifier::external_body]
pub(crate) fn map_index_of(m: &indexmap::IndexMap<String, ReferencingEvent>, key: &str) -> (r: Option<usize>)
    ensures
        r matches Some(i) ==> i < catalog_entries(*m).len() && catalog_entries(*m)[i as int].0@ == key@,
        r is None ==> forall|i: int| 0 <= i < catalog_entries(*m).len() ==> (#[trigger] catalog_entries(*m)[i]).0@ != key@,
{
    m.get_index_of(key)
}

/// Relies on `Index<usize>` of indexmap::IndexMap: the value at a position
/// (it panics past the end, which `requires` leaves out).
#[verifier::external_body]
pub(crate) fn map_at(m: &indexmap::IndexMap<String, ReferencingEvent>, i: usize) -> (r: &ReferencingEvent)
    requires
        i < catalog_entries(*m).len(),
    ensures
        *r == catalog_entries(*m)[i as int].1,
{
    &m[i]
}

/// Relies on indexmap::IndexMap::insert: a key the map lacks is added last.
#[verifier::external_body]
pub(crate) fn map_insert(m: &mut indexmap::IndexMap<String, ReferencingEvent>, key: String, v: ReferencingEvent)
    requires
        forall|i: int| 0 <= i < catalog_entries(*old(m)).len() ==> (#[trigger] catalog_entries(*old(m))[i]).0@ != key@,
    ensures
        catalog_entries(*final(m)) == catalog_entries(*old(m)).push((key, v)),
{
    m.insert(key, v);
}

/// Relies on `IndexMut<usize>` of indexmap::IndexMap: the value at a position
/// is replaced, its key and place kept (it panics past the end, which
/// `requires` leaves out).
#[verifier::external_body]
pub(crate) fn map_set(m: &mut indexmap::IndexMap<String, ReferencingEvent>, i: usize, v: ReferencingEvent)
    requires
        i < catalog_entries(*old(m)).len(),
    ensures
        catalog_entries(*final(m)) == catalog_entries(*old(m)).update(i as int, (catalog_entries(*old(m))[i as int].0, v)),
{
    m[i] = v;
}

/// Relies on indexmap::IndexMap::drain (all of it): the entries, in order,
/// are taken out and the map is left empty.
#[verifier::external_body]
pub(crate) fn map_take_all(m: &mut indexmap::IndexMap<String, ReferencingEvent>) -> (r: Vec<(String, ReferencingEvent)>)
    ensures
        r@ == catalog_entries(*old(m)),
        catalog_entries(*final(m)) == Seq::<(String, ReferencingEvent)>::empty(),
{
    m.drain(..).collect()
}

/// Relies on indexmap::IndexMap::shift_remove_index: the entry at a position
/// is removed, the others keep their order.
#[verifier::external_body]
pub(crate) fn map_remove_index(m: &mut indexmap::IndexMap<String, ReferencingEvent>, i: usize)
    requires
        i < catalog_entries(*old(m)).len(),
    ensures
        catalog_entries(*final(m)) == catalog_entries(*old(m)).remove(i as int),
{
    m.shift_remove_index(i);
}

/// The catalog of events, keyed by name in insertion order.
#[derive(Debug)]
pub struct Events {
    map: indexmap::IndexMap<String, ReferencingEvent>,
}

impl View for Events {
    type V = Seq<ReferencingEvent>;

    closed spec fn view(&self) -> Seq<ReferencingEvent> {
        catalog_entries(self.map).map_values(|e: (String, ReferencingEvent)| e.1)
    }
}

impl Events {
    /// Names are unique, and each event is keyed by its name.
    pub closed spec fn wf(&self) -> bool {
        &&& names_unique(self@)
        &&& forall|i: int| 0 <= i < catalog_entries(self.map).len() ==> (#[trigger] catalog_entries(self.map)[i]).0@
            == catalog_entries(self.map)[i].1.name@
    }

    /// A catalog of the given events; of events that share a name the first stays.
    pub fn new(events: Vec<ReferencingEvent>) -> (r: Events)
        ensures
            r.wf(),
            r@ == inserted_all(Seq::empty(), events@),
    {
        let mut r = Events::default();
        let ghost src = events@;
        let mut rest = events;
        let n = rest.len();
        let mut i: usize = 0;
        proof {
            assert(src.subrange(0, 0) =~= Seq::<ReferencingEvent>::empty());
        }
        while i < n
            invariant
                i <= n,
                n == src.len(),
                rest@ == src.subrange(i as int, n as int),
                r.wf(),
                r@ == inserted_all(Seq::empty(), src.subrange(0, i as int)),
            decreases n - i,
        {
            let e = rest.remove(0);
            proof {
                assert(src.subrange(0, i + 1).subrange(0, i as int) =~= src.subrange(0, i as int));
                assert(rest@ =~= src.subrange(i + 1, n as int));
            }
            r.insert(e);
            i += 1;
        }
        proof {
            assert(src.subrange(0, n as int) =~= src);
        }
        r
    }

    /// Adds `e` unless its name is taken; says whether it was added.
    pub fn insert(&mut self, e: ReferencingEvent) -> (added: bool)
        requires
            old(self).wf(),
        ensures
            final(self).wf(),
            added == (name_index(old(self)@, e.name@) < 0),
            added ==> final(self)@ == old(self)@.push(e),
            !added ==> final(self)@ == old(self)@,
    {
        if self.has_event_by_name(e.name.as_str()) {
            false
        } else {
            proof {
                lemma_name_index(self@, e.name@);
            }
            let key = e.name.clone();
            let ghost before = catalog_entries(self.map);
            proof {
                assert forall|i: int| 0 <= i < before.len() implies (#[trigger] before[i]).0@ != key@ by {
                    assert(self@[i] == before[i].1);
                }
            }
            map_insert(&mut self.map, key, e);
            proof {
                assert(self@ =~= old(self)@.push(e));
                assert forall|i: int| 0 <= i < catalog_entries(self.map).len() implies (#[trigger] catalog_entries(self.map)[i]).0@
                    == catalog_entries(self.map)[i].1.name@ by {
                    if i < before.len() {
                        assert(catalog_entries(self.map)[i] == before[i]);
                    }
                }
            }
            true
        }
    }

    /// Adds `e`, or puts it in place of the event of the same name.
    pub fn replace(&mut self, e: ReferencingEvent)
        requires
            old(self).wf(),
        ensures
            final(self).wf(),
            name_index(old(self)@, e.name@) >= 0 ==> final(self)@ == old(self)@.update(name_index(old(self)@, e.name@), e),
            name_index(old(self)@, e.name@) < 0 ==> final(self)@ == old(self)@.push(e),
    {
        proof {
            lemma_name_index(self@, e.name@);
        }
        match self.find(e.name.as_str()) {
            Some(i) => {
                let ghost prev = self@;
                let ghost before = catalog_entries(self.map);
                map_set(&mut self.map, i, e);
                proof {
                    assert(self@ =~= prev.update(i as int, e));
                    assert forall|a: int, b: int| 0 <= a < b < self@.len() implies #[trigger] self@[a].name@ != #[trigger] self@[b].name@ by {
                        if a != i && b != i {
                            assert(prev[a] == self@[a] && prev[b] == self@[b]);
                        } else if a == i {
                            assert(prev[b] == self@[b]);
                            assert(prev[a].name@ == self@[a].name@);
                        } else {
                            assert(prev[a] == self@[a]);
                            assert(prev[b].name@ == self@[b].name@);
                        }
                    }
                    assert forall|j: int| 0 <= j < catalog_entries(self.map).len() implies (#[trigger] catalog_entries(self.map)[j]).0@
                        == catalog_entries(self.map)[j].1.name@ by {
                        if j != i {
                            assert(catalog_entries(self.map)[j] == before[j]);
                        } else {
                            assert(before[j].1 == prev[j]);
                        }
                    }
                }
            },
            None => {
                proof {
                    lemma_name_index(self@, e.name@);
                }
                let key = e.name.clone();
                let ghost before = catalog_entries(self.map);
                proof {
                    assert forall|j: int| 0 <= j < before.len() implies (#[trigger] before[j]).0@ != key@ by {
                        assert(self@[j] == before[j].1);
                    }
                }
                map_insert(&mut self.map, key, e);
                proof {
                    assert(self@ =~= old(self)@.push(e));
                    assert forall|j: int| 0 <= j < catalog_entries(self.map).len() implies (#[trigger] catalog_entries(self.map)[j]).0@
                        == catalog_entries(self.map)[j].1.name@ by {
                        if j < before.len() {
                            assert(catalog_entries(self.map)[j] == before[j]);
                        }
                    }
                }
            },
        }
    }

    /// Removes the event named `name`, keeping the order of the others.
    pub fn remove_by_name(&mut self, name: &str) -> (removed: bool)
        requires
            old(self).wf(),
        ensures
            final(self).wf(),
            removed == (name_index(old(self)@, name@) >= 0),
            removed ==> final(self)@ == old(self)@.remove(name_index(old(self)@, name@)),
            !removed ==> final(self)@ == old(self)@,
    {
        proof {
            lemma_name_index(self@, name@);
        }
        match self.find(name) {
            Some(i) => {
                let ghost prev = self@;
                let ghost before = catalog_entries(self.map);
                map_remove_index(&mut self.map, i);
                proof {
                    assert(self@ =~= prev.remove(i as int));
                    assert forall|a: int, b: int| 0 <= a < b < self@.len() implies #[trigger] self@[a].name@ != #[trigger] self@[b].name@ by {
                        let pa = if a < i { a } else { a + 1 };
                        let pb = if b < i { b } else { b + 1 };
                        assert(self@[a] == prev[pa] && self@[b] == prev[pb]);
                    }
                    assert forall|j: int| 0 <= j < catalog_entries(self.map).len() implies (#[trigger] catalog_entries(self.map)[j]).0@
                        == catalog_entries(self.map)[j].1.name@ by {
                        let pj = if j < i { j } else { j + 1 };
                        assert(catalog_entries(self.map)[j] == before[pj]);
                    }
                }
                true
            },
            None => false,
        }
    }

    /// Position of the event named `name`.
    fn find(&self, name: &str) -> (r: Option<usize>)
        requires
            self.wf(),
        ensures
            r matches Some(i) ==> name_index(self@, name@) == i,
            r is None ==> name_index(self@, name@) == -1,
    {
        proof {
            lemma_name_index(self@, name@);
        }
        let r = map_index_of(&self.map, name);
        proof {
            match r {
                Some(i) => {
                    assert(self@[i as int].name@ == name@);
                    let k = name_index(self@, name@);
                    if k != i as int {
                        if k < i {
                            assert(self@[k].name@ != self@[i as int].name@);
                        } else {
                            assert(self@[i as int].name@ != self@[k].name@);
                        }
                    }
                },
                None => {
                    assert forall|j: int| 0 <= j < self@.len() implies self@[j].name@ != name@ by {
                        assert(catalog_entries(self.map)[j].0@ != name@);
                    }
                },
            }
        }
        r
    }

    /// The event at position `i`.
    pub fn at(&self, i: usize) -> (r: &ReferencingEvent)
        requires
            i < self@.len(),
        ensures
            *r == self@[i as int],
    {
        map_at(&self.map, i)
    }

    /// Whether an event is named `name`.
    pub fn has_event_by_name(&self, name: &str) -> (r: bool)
        requires
            self.wf(),
        ensures
            r == (name_index(self@, name@) >= 0),
    {
        self.find(name).is_some()
    }

    /// A copy of the event named `name`.
    pub fn get_event_by_name(&self, name: &str) -> (r: Option<ReferencingEvent>)
        requires
            self.wf(),
        ensures
            r is Some <==> name_index(self@, name@) >= 0,
            r matches Some(e) ==> e.same(&self@[name_index(self@, name@)]),
    {
        proof {
            lemma_name_index(self@, name@);
        }
        match self.find(name) {
            Some(i) => Some(self.at(i).copy()),
            None => None,
        }
    }

    /// The scheduling identity of the event named `name`.
    pub fn get_event_id(&self, name: &str) -> (r: Option<String>)
        requires
            self.wf(),
        ensures
            r is Some <==> name_index(self@, name@) >= 0,
            r matches Some(id) ==> id@ == event_id_of(&self@[name_index(self@, name@)]),
    {
        proof {
            lemma_name_index(self@, name@);
        }
        match self.find(name) {
            Some(i) => Some(self.at(i).event_id().clone()),
            None => None,
        }
    }

    pub fn get_next_event(&self, event: &ReferencingEvent) -> (r: Option<ReferencingEvent>)
        requires
            self.wf(),
        ensures
            next_event_spec(self@, *event, r),
    {
        match &event.next_event {
            None => None,
            Some(NextEvent::Name(n)) => self.get_event_by_name(n.as_str()),
            Some(NextEvent::Template(t)) => {
                let mut name = "generated_from_".to_owned();
                name.append(event.name.as_str());
                let mut e = ReferencingEvent::new(name, EventType::Pass);
                e.next_event = Some(NextEvent::Template(t.clone()));
                Some(e)
            },
        }
    }

    /// The events, in order.
    pub fn iter(&self) -> (r: Vec<&ReferencingEvent>)
        ensures
            r@.len() == self@.len(),
            forall|i: int| 0 <= i < r@.len() ==> *r@[i] == self@[i],
    {
        let mut out: Vec<&ReferencingEvent> = Vec::new();
        let n = self.len();
        let mut i: usize = 0;
        while i < n
            invariant
                i <= n,
                n == self@.len(),
                out@.len() == i,
                forall|j: int| 0 <= j < i ==> *out@[j] == self@[j],
            decreases n - i,
        {
            out.push(self.at(i));
            i += 1;
        }
        out
    }

    pub fn len(&self) -> (r: usize)
        ensures
            r == self@.len(),
    {
        map_len(&self.map)
    }

    pub fn is_empty(&self) -> (r: bool)
        ensures
            r == (self@.len() == 0),
    {
        self.len() == 0
    }

    /// Adds the events of a map, each under the name of its key.
    pub fn merge(self, events: Vec<(String, ReferencingEvent)>) -> (r: Events)
        requires
            self.wf(),
        ensures
            r.wf(),
            exists|outs: Seq<ReferencingEvent>|
                outs.len() == events@.len() && (forall|i: int| 0 <= i < outs.len() ==> #[trigger] renamed(events@[i], outs[i]))
                && r@ == inserted_all(self@, outs),
    {
        let mut r = self;
        let ghost base = r@;
        let ghost src = events@;
        let ghost mut outs: Seq<ReferencingEvent> = Seq::empty();
        let mut rest = events;
        let n = rest.len();
        let mut i: usize = 0;
        while i < n
            invariant
                i <= n,
                n == src.len(),
                rest@ == src.subrange(i as int, n as int),
                r.wf(),
                outs.len() == i,
                forall|j: int| 0 <= j < i ==> #[trigger] renamed(src[j], outs[j]),
                r@ == inserted_all(base, outs),
            decreases n - i,
        {
            let (key, mut e) = rest.remove(0);
            proof {
                assert(src[i as int] == (key, e));
                assert(rest@ =~= src.subrange(i + 1, n as int));
            }
            e.name = key;
            proof {
                let ghost prev = outs;
                outs = outs.push(e);
                assert(outs.subrange(0, outs.len() - 1) =~= prev);
            }
            r.insert(e);
            i += 1;
        }
        r
    }

    /// Adds the events of a map under `<prefix>_<key>`, with each literal
    /// transition prefixed the same way.
    pub fn merge_with_prefix(self, events: Vec<(String, ReferencingEvent)>, prefix: &str) -> (r: Events)
        requires
            self.wf(),
        ensures
            r.wf(),
            exists|outs: Seq<ReferencingEvent>|
                outs.len() == events@.len() && (forall|i: int| 0 <= i < outs.len() ==> #[trigger] renamed_with_prefix(events@[i], prefix@, outs[i]))
                && r@ == inserted_all(self@, outs),
    {
        let mut r = self;
        let ghost base = r@;
        let ghost src = events@;
        let ghost mut outs: Seq<ReferencingEvent> = Seq::empty();
        let mut rest = events;
        let n = rest.len();
        let mut i: usize = 0;
        while i < n
            invariant
                i <= n,
                n == src.len(),
                rest@ == src.subrange(i as int, n as int),
                r.wf(),
                outs.len() == i,
                forall|j: int| 0 <= j < i ==> #[trigger] renamed_with_prefix(src[j], prefix@, outs[j]),
                r@ == inserted_all(base, outs),
            decreases n - i,
        {
            let (key, mut e) = rest.remove(0);
            proof {
                assert(src[i as int] == (key, e));
                assert(rest@ =~= src.subrange(i + 1, n as int));
            }
            let ghost orig = e;
            e.name = join_prefix(prefix, key.as_str());
            let next = match &e.next_event {
                Some(NextEvent::Name(m)) => Some(NextEvent::Name(join_prefix(prefix, m.as_str()))),
                other => copy_next(other),
            };
            e.next_event = next;
            proof {
                let ghost prev = outs;
                outs = outs.push(e);
                assert(outs.subrange(0, outs.len() - 1) =~= prev);
                assert(renamed_with_prefix(src[i as int], prefix@, e));
            }
            r.insert(e);
            i += 1;
        }
        r
    }
}

impl Default for Events {
    fn default() -> (r: Events)
        ensures
            r@ == Seq::<ReferencingEvent>::empty(),
            r.wf(),
    {
        let r = Events { map: map_new() };
        proof {
            assert(r@ =~= Seq::<ReferencingEvent>::empty());
        }
        r
    }
}


/// Position of the first element of `s` that satisfies `p`, or -1.
pub open spec fn first_where<A>(s: Seq<A>, p: spec_fn(A) -> bool) -> int
    decreases s.len(),
{
    if s.len() == 0 {
        -1
    } else {
        let r = first_where(s.subrange(0, s.len() - 1), p);
        if r >= 0 {
            r
        } else if p(s[s.len() - 1]) {
            s.len() - 1
        } else {
            -1
        }
    }
}

pub proof fn lemma_first_where<A>(s: Seq<A>, p: spec_fn(A) -> bool)
    ensures
        -1 <= first_where(s, p) < s.len(),
        first_where(s, p) >= 0 ==> p(s[first_where(s, p)]),
        first_where(s, p) == -1 <==> forall|i: int| 0 <= i < s.len() ==> !p(#[trigger] s[i]),
    decreases s.len(),
{
    if s.len() > 0 {
        let q = s.subrange(0, s.len() - 1);
        lemma_first_where(q, p);
        assert forall|i: int| 0 <= i < s.len() - 1 implies s[i] == q[i] by {}
    }
}

/// Whether `e` has a literal transition to a name that `s` lacks.
pub open spec fn dangling_next(s: Seq<ReferencingEvent>, e: ReferencingEvent) -> bool {
    e.next_event matches Some(NextEvent::Name(n)) && name_index(s, n@) < 0
}

pub open spec fn first_dangling(s: Seq<ReferencingEvent>) -> int {
    first_where(s, |e: ReferencingEvent| dangling_next(s, e))
}

pub open spec fn first_missing_start(s: Seq<ReferencingEvent>, starts: Seq<String>) -> int {
    first_where(starts, |n: String| name_index(s, n@) < 0)
}

pub open spec fn first_listen(s: Seq<ReferencingEvent>) -> int {
    first_where(s, |e: ReferencingEvent| e.event_type is ApiListen)
}

pub open spec fn first_watch(s: Seq<ReferencingEvent>) -> int {
    first_where(s, |e: ReferencingEvent| e.event_type is Watch)
}

pub open spec fn first_file_changed(s: Seq<ReferencingEvent>) -> int {
    first_where(s, |e: ReferencingEvent| e.event_type is FileChanged)
}

/// Whether a catalog may start: it has events, every literal transition and
/// every start event names one of them, listener events have an HTTP
/// endpoint, and watch events and file-changed events come together.
pub open spec fn catalog_valid(s: Seq<ReferencingEvent>, starts: Seq<String>, http_configured: bool) -> bool {
    &&& s.len() > 0
    &&& first_dangling(s) < 0
    &&& first_missing_start(s, starts) < 0
    &&& (http_configured || first_listen(s) < 0)
    &&& (first_watch(s) >= 0) == (first_file_changed(s) >= 0)
}

/// Why a catalog cannot start.
#[derive(Debug)]
pub enum ConfigError {
    NoEvents,
    UnknownNext { event: String, next: String },
    UnknownStart(String),
    ListenWithoutHttp(String),
    WatchWithoutFileChanged(String),
    FileChangedWithoutWatch(String),
}

/// Which kind of event a scan looks for.
enum KindTag {
    ApiListen,
    Watch,
    FileChanged,
}

spec fn tag_of(e: ReferencingEvent, tag: KindTag) -> bool {
    match tag {
        KindTag::ApiListen => e.event_type is ApiListen,
        KindTag::Watch => e.event_type is Watch,
        KindTag::FileChanged => e.event_type is FileChanged,
    }
}

impl Events {
    fn first_of_kind(&self, tag: KindTag) -> (r: Option<usize>)
        requires
            self.wf(),
        ensures
            r matches Some(i) ==> first_where(self@, |e: ReferencingEvent| tag_of(e, tag)) == i,
            r is None ==> first_where(self@, |e: ReferencingEvent| tag_of(e, tag)) == -1,
    {
        let ghost p = |e: ReferencingEvent| tag_of(e, tag);
        let mut found: Option<usize> = None;
        let mut i: usize = 0;
        while i < self.len()
            invariant
                i <= self@.len(),
                self.wf(),
                p == (|e: ReferencingEvent| tag_of(e, tag)),
                found matches Some(j) ==> first_where(self@.subrange(0, i as int), p) == j,
                found is None ==> first_where(self@.subrange(0, i as int), p) == -1,
            decreases self@.len() - i,
        {
            proof {
                assert(self@.subrange(0, i + 1).subrange(0, i as int) =~= self@.subrange(0, i as int));
            }
            let hit = match (&self.at(i).event_type, &tag) {
                (EventType::ApiListen(_), KindTag::ApiListen) => true,
                (EventType::Watch(_), KindTag::Watch) => true,
                (EventType::FileChanged(_), KindTag::FileChanged) => true,
                _ => false,
            };
            proof {
                assert(self@.subrange(0, i + 1)[i as int] == self@[i as int]);
                assert(hit == p(self@[i as int]));
            }
            if found.is_none() && hit {
                found = Some(i);
            }
            i += 1;
        }
        proof {
            assert(self@.subrange(0, self@.len() as int) =~= self@);
        }
        found
    }

    fn first_dangling_index(&self) -> (r: Option<usize>)
        requires
            self.wf(),
        ensures
            r matches Some(i) ==> first_dangling(self@) == i,
            r is None ==> first_dangling(self@) == -1,
    {
        let ghost p = |e: ReferencingEvent| dangling_next(self@, e);
        let mut found: Option<usize> = None;
        let mut i: usize = 0;
        while i < self.len()
            invariant
                i <= self@.len(),
                self.wf(),
                p == (|e: ReferencingEvent| dangling_next(self@, e)),
                found matches Some(j) ==> first_where(self@.subrange(0, i as int), p) == j,
                found is None ==> first_where(self@.subrange(0, i as int), p) == -1,
            decreases self@.len() - i,
        {
            proof {
                assert(self@.subrange(0, i + 1).subrange(0, i as int) =~= self@.subrange(0, i as int));
            }
            let hit = match &self.at(i).next_event {
                Some(NextEvent::Name(n)) => !self.has_event_by_name(n.as_str()),
                _ => false,
            };
            proof {
                assert(self@.subrange(0, i + 1)[i as int] == self@[i as int]);
                assert(hit == p(self@[i as int]));
            }
            if found.is_none() && hit {
                found = Some(i);
            }
            i += 1;
        }
        proof {
            assert(self@.subrange(0, self@.len() as int) =~= self@);
        }
        found
    }

    fn first_missing(&self, starts: &Vec<String>) -> (r: Option<usize>)
        requires
            self.wf(),
        ensures
            r matches Some(i) ==> first_missing_start(self@, starts@) == i,
            r is None ==> first_missing_start(self@, starts@) == -1,
    {
        let ghost p = |n: String| name_index(self@, n@) < 0;
        let mut found: Option<usize> = None;
        let mut i: usize = 0;
        while i < starts.len()
            invariant
                i <= starts.len(),
                self.wf(),
                p == (|n: String| name_index(self@, n@) < 0),
                found matches Some(j) ==> first_where(starts@.subrange(0, i as int), p) == j,
                found is None ==> first_where(starts@.subrange(0, i as int), p) == -1,
            decreases starts.len() - i,
        {
            proof {
                assert(starts@.subrange(0, i + 1).subrange(0, i as int) =~= starts@.subrange(0, i as int));
            }
            let hit = !self.has_event_by_name(starts[i].as_str());
            proof {
                assert(starts@.subrange(0, i + 1)[i as int] == starts@[i as int]);
                assert(hit == p(starts@[i as int]));
            }
            if found.is_none() && hit {
                found = Some(i);
            }
            i += 1;
        }
        proof {
            assert(starts@.subrange(0, starts.len() as int) =~= starts@);
        }
        found
    }
}

/// Checks a catalog before startup: the first problem found, in the order
/// of [`catalog_valid`], is reported.
pub fn validate_events(events: &Events, start_events: &Vec<String>, http_listen: &Vec<(String, String)>) -> (r: Result<(), ConfigError>)
    requires
        events.wf(),
    ensures
        r is Ok <==> catalog_valid(events@, start_events@, http_listen@.len() > 0),
        r matches Err(ConfigError::NoEvents) <==> events@.len() == 0,
        r matches Err(ConfigError::UnknownNext { event, next }) <==> events@.len() > 0 && first_dangling(events@) >= 0,
        r matches Err(ConfigError::UnknownNext { event, next }) ==> event@ == events@[first_dangling(events@)].name@
            && events@[first_dangling(events@)].next_event == Some(NextEvent::Name(next)),
        r matches Err(ConfigError::UnknownStart(n)) <==> events@.len() > 0 && first_dangling(events@) < 0
            && first_missing_start(events@, start_events@) >= 0,
        r matches Err(ConfigError::UnknownStart(n)) ==> n == start_events@[first_missing_start(events@, start_events@)],
        r matches Err(ConfigError::ListenWithoutHttp(n)) <==> events@.len() > 0 && first_dangling(events@) < 0
            && first_missing_start(events@, start_events@) < 0 && http_listen@.len() == 0 && first_listen(events@) >= 0,
        r matches Err(ConfigError::ListenWithoutHttp(n)) ==> n@ == events@[first_listen(events@)].name@,
        r matches Err(ConfigError::WatchWithoutFileChanged(n)) ==> first_watch(events@) >= 0
            && first_file_changed(events@) < 0 && n@ == events@[first_watch(events@)].name@,
        r matches Err(ConfigError::FileChangedWithoutWatch(n)) ==> first_watch(events@) < 0
            && first_file_changed(events@) >= 0 && n@ == events@[first_file_changed(events@)].name@,
{
    let ghost s = events@;
    proof {
        lemma_first_where(s, |e: ReferencingEvent| dangling_next(s, e));
        lemma_first_where(start_events@, |n: String| name_index(s, n@) < 0);
        lemma_first_where(s, |e: ReferencingEvent| e.event_type is ApiListen);
        lemma_first_where(s, |e: ReferencingEvent| e.event_type is Watch);
        lemma_first_where(s, |e: ReferencingEvent| e.event_type is FileChanged);
        assert((|e: ReferencingEvent| tag_of(e, KindTag::ApiListen)) =~= (|e: ReferencingEvent| e.event_type is ApiListen));
        assert((|e: ReferencingEvent| tag_of(e, KindTag::Watch)) =~= (|e: ReferencingEvent| e.event_type is Watch));
        assert((|e: ReferencingEvent| tag_of(e, KindTag::FileChanged)) =~= (|e: ReferencingEvent| e.event_type is FileChanged));
    }
    if events.is_empty() {
        return Err(ConfigError::NoEvents);
    }
    match events.first_dangling_index() {
        Some(i) => {
            match &events.at(i).next_event {
                Some(NextEvent::Name(n)) => {
                    return Err(ConfigError::UnknownNext { event: events.at(i).name.clone(), next: n.clone() });
                },
                _ => {},
            }
        },
        None => {},
    }
    match events.first_missing(start_events) {
        Some(i) => {
            return Err(ConfigError::UnknownStart(start_events[i].clone()));
        },
        None => {},
    }
    if http_listen.len() == 0 {
        match events.first_of_kind(KindTag::ApiListen) {
            Some(i) => {
                return Err(ConfigError::ListenWithoutHttp(events.at(i).name.clone()));
            },
            None => {},
        }
    }
    let watch = events.first_of_kind(KindTag::Watch);
    let changed = events.first_of_kind(KindTag::FileChanged);
    match (watch, changed) {
        (Some(w), None) => Err(ConfigError::WatchWithoutFileChanged(events.at(w).name.clone())),
        (None, Some(c)) => Err(ConfigError::FileChangedWithoutWatch(events.at(c).name.clone())),
        _ => Ok(()),
    }
}

/// In a catalog that passes validation, every literal transition names an
/// event of the catalog.
pub proof fn lemma_validated_transitions_resolve(s: Seq<ReferencingEvent>, starts: Seq<String>, http_configured: bool)
    requires
        catalog_valid(s, starts, http_configured),
    ensures
        forall|i: int|
            0 <= i < s.len() ==> ((#[trigger] s[i]).next_event matches Some(NextEvent::Name(n))
                ==> name_index(s, n@) >= 0),
{
    lemma_first_where(s, |e: ReferencingEvent| dangling_next(s, e));
}

} // verus!
