//! Structured values (a JSON tree) and their deep merge.
use vstd::prelude::*;

verus! {

/// A JSON-compatible value tree. Numbers keep their canonical decimal text.
#[derive(Debug)]
pub enum JsonValue {
    Null,
    Bool(bool),
    Number(String),
    Str(String),
    Array(Vec<JsonValue>),
    Object(Vec<(String, JsonValue)>),
}

/// Mathematical model of a [`JsonValue`].
pub enum Json {
    Null,
    Bool(bool),
    Number(Seq<char>),
    Str(Seq<char>),
    Array(Seq<Json>),
    Object(Seq<(Seq<char>, Json)>),
}

pub open spec fn json_view(v: JsonValue) -> Json
    decreases v,
{
    match v {
        JsonValue::Null => Json::Null,
        JsonValue::Bool(b) => Json::Bool(b),
        JsonValue::Number(n) => Json::Number(n@),
        JsonValue::Str(s) => Json::Str(s@),
        JsonValue::Array(items) => Json::Array(items_view(items@)),
        JsonValue::Object(members) => Json::Object(members_view(members@)),
    }
}

pub open spec fn items_view(s: Seq<JsonValue>) -> Seq<Json>
    decreases s,
{
    if s.len() == 0 {
        Seq::empty()
    } else {
        items_view(s.subrange(0, s.len() - 1)).push(json_view(s[s.len() - 1]))
    }
}

pub open spec fn members_view(s: Seq<(String, JsonValue)>) -> Seq<(Seq<char>, Json)>
    decreases s,
{
    if s.len() == 0 {
        Seq::empty()
    } else {
        members_view(s.subrange(0, s.len() - 1)).push(
            (s[s.len() - 1].0@, json_view(s[s.len() - 1].1)),
        )
    }
}

impl View for JsonValue {
    type V = Json;

    open spec fn view(&self) -> Json {
        json_view(*self)
    }
}


pub proof fn lemma_items_view(s: Seq<JsonValue>)
    ensures
        items_view(s).len() == s.len(),
        forall|i: int| 0 <= i < s.len() ==> #[trigger] items_view(s)[i] == json_view(s[i]),
    decreases s.len(),
{
    if s.len() > 0 {
        lemma_items_view(s.subrange(0, s.len() - 1));
    }
}

pub proof fn lemma_members_view(s: Seq<(String, JsonValue)>)
    ensures
        members_view(s).len() == s.len(),
        forall|i: int|
            0 <= i < s.len() ==> #[trigger] members_view(s)[i] == (s[i].0@, json_view(s[i].1)),
    decreases s.len(),
{
    if s.len() > 0 {
        lemma_members_view(s.subrange(0, s.len() - 1));
    }
}

/// Position of the first member named `k`, or -1 when there is none.
pub open spec fn key_index(m: Seq<(Seq<char>, Json)>, k: Seq<char>) -> int
    decreases m.len(),
{
    if m.len() == 0 {
        -1
    } else {
        let r = key_index(m.subrange(0, m.len() - 1), k);
        if r >= 0 {
            r
        } else if m[m.len() - 1].0 == k {
            m.len() - 1
        } else {
            -1
        }
    }
}

/// The members of `m` without those named `k`.
pub open spec fn remove_key(m: Seq<(Seq<char>, Json)>, k: Seq<char>) -> Seq<(Seq<char>, Json)>
    decreases m.len(),
{
    if m.len() == 0 {
        m
    } else {
        let r = remove_key(m.subrange(0, m.len() - 1), k);
        if m[m.len() - 1].0 == k {
            r
        } else {
            r.push(m[m.len() - 1])
        }
    }
}

/// The value of the first member named `k`, or null.
pub open spec fn get_or_null(m: Seq<(Seq<char>, Json)>, k: Seq<char>) -> Json {
    let i = key_index(m, k);
    if i >= 0 {
        m[i].1
    } else {
        Json::Null
    }
}

/// `m` with the member named `k` set to `v`: in place when it exists, appended otherwise.
pub open spec fn put_key(m: Seq<(Seq<char>, Json)>, k: Seq<char>, v: Json) -> Seq<(Seq<char>, Json)> {
    let i = key_index(m, k);
    if i >= 0 {
        m.update(i, (k, v))
    } else {
        m.push((k, v))
    }
}

/// Deep merge of `b` into `a`: two objects merge member by member, anything
/// else is replaced by `b`.
pub open spec fn json_merge(a: Json, b: Json) -> Json
    decreases b,
{
    match b {
        Json::Object(mb) => match a {
            Json::Object(ma) => Json::Object(members_merge(ma, mb)),
            _ => b,
        },
        _ => b,
    }
}

/// Folds the members of `mb`, in order, into `ma`: a null value deletes the
/// key, any other value is merged into the existing one (or null).
pub open spec fn members_merge(ma: Seq<(Seq<char>, Json)>, mb: Seq<(Seq<char>, Json)>) -> Seq<
    (Seq<char>, Json),
>
    decreases mb,
{
    if mb.len() == 0 {
        ma
    } else {
        let k = mb[0].0;
        let v = mb[0].1;
        let next = if v == Json::Null {
            remove_key(ma, k)
        } else {
            put_key(ma, k, json_merge(get_or_null(ma, k), v))
        };
        members_merge(next, mb.subrange(1, mb.len() as int))
    }
}

proof fn lemma_key_index(m: Seq<(Seq<char>, Json)>, k: Seq<char>)
    ensures
        -1 <= key_index(m, k) < m.len(),
        key_index(m, k) >= 0 ==> m[key_index(m, k)].0 == k,
        key_index(m, k) == -1 ==> forall|i: int| 0 <= i < m.len() ==> m[i].0 != k,
    decreases m.len(),
{
    if m.len() > 0 {
        let p = m.subrange(0, m.len() - 1);
        lemma_key_index(p, k);
        assert forall|i: int| 0 <= i < m.len() - 1 implies m[i] == p[i] by {}
    }
}

impl JsonValue {
    /// A copy of this value.
    pub fn deep_copy(&self) -> (r: JsonValue)
        ensures
            r@ == self@,
        decreases self,
    {
        match self {
            JsonValue::Null => JsonValue::Null,
            JsonValue::Bool(b) => JsonValue::Bool(*b),
            JsonValue::Number(n) => JsonValue::Number(n.clone()),
            JsonValue::Str(s) => JsonValue::Str(s.clone()),
            JsonValue::Array(items) => {
                let mut out: Vec<JsonValue> = Vec::new();
                let mut i: usize = 0;
                while i < items.len()
                    invariant
                        i <= items.len(),
                        *self is Array,
                        self->Array_0 == *items,
                        items_view(out@) == items_view(items@.subrange(0, i as int)),
                    decreases items.len() - i,
                {
                    proof {
                        assert(decreases_to!(*self => self->Array_0));
                        vstd::std_specs::vec::axiom_vec_index_decreases(self->Array_0, i as int);
                        assert(decreases_to!(*self => items[i as int]));
                    }
                    let c = items[i].deep_copy();
                    proof {
                        let ghost before = out@;
                        assert(out@.push(c).subrange(0, before.len() as int) =~= before);
                        assert(items@.subrange(0, i + 1).subrange(0, i as int) =~= items@.subrange(
                            0,
                            i as int,
                        ));
                    }
                    out.push(c);
                    i += 1;
                }
                proof {
                    assert(items@.subrange(0, items.len() as int) =~= items@);
                }
                JsonValue::Array(out)
            },
            JsonValue::Object(members) => {
                let mut out: Vec<(String, JsonValue)> = Vec::new();
                let mut i: usize = 0;
                while i < members.len()
                    invariant
                        i <= members.len(),
                        *self is Object,
                        self->Object_0 == *members,
                        members_view(out@) == members_view(members@.subrange(0, i as int)),
                    decreases members.len() - i,
                {
                    proof {
                        assert(decreases_to!(*self => self->Object_0));
                        vstd::std_specs::vec::axiom_vec_index_decreases(self->Object_0, i as int);
                        assert(decreases_to!(*self => members[i as int].1));
                    }
                    let c = members[i].1.deep_copy();
                    let k = members[i].0.clone();
                    proof {
                        let ghost before = out@;
                        assert(out@.push((k, c)).subrange(0, before.len() as int) =~= before);
                        assert(members@.subrange(0, i + 1).subrange(0, i as int)
                            =~= members@.subrange(0, i as int));
                    }
                    out.push((k, c));
                    i += 1;
                }
                proof {
                    assert(members@.subrange(0, members.len() as int) =~= members@);
                }
                JsonValue::Object(out)
            },
        }
    }

    /// Whether this value is null.
    pub fn is_null(&self) -> (r: bool)
        ensures
            r == (self@ == Json::Null),
    {
        match self {
            JsonValue::Null => true,
            _ => false,
        }
    }
}

/// Position of the first member named `k`.
fn find_member(m: &Vec<(String, JsonValue)>, k: &String) -> (r: Option<usize>)
    ensures
        r matches Some(j) ==> key_index(members_view(m@), k@) == j,
        r is None ==> key_index(members_view(m@), k@) == -1,
{
    let ghost mv = members_view(m@);
    proof {
        lemma_members_view(m@);
    }
    let mut found: Option<usize> = None;
    let mut i: usize = 0;
    while i < m.len()
        invariant
            i <= m.len(),
            mv == members_view(m@),
            mv.len() == m.len(),
            forall|j: int| 0 <= j < m.len() ==> #[trigger] mv[j] == (m@[j].0@, json_view(m@[j].1)),
            found matches Some(j) ==> key_index(mv.subrange(0, i as int), k@) == j,
            found is None ==> key_index(mv.subrange(0, i as int), k@) == -1,
        decreases m.len() - i,
    {
        proof {
            assert(mv.subrange(0, i + 1).subrange(0, i as int) =~= mv.subrange(0, i as int));
        }
        if found.is_none() && m[i].0.eq(k) {
            found = Some(i);
        }
        i += 1;
    }
    proof {
        assert(mv.subrange(0, m.len() as int) =~= mv);
    }
    found
}

/// Removes every member named `k`.
fn remove_member(m: &mut Vec<(String, JsonValue)>, k: &String)
    ensures
        members_view(final(m)@) == remove_key(members_view(old(m)@), k@),
{
    let ghost mv = members_view(old(m)@);
    let ghost orig = old(m)@;
    proof {
        lemma_members_view(orig);
    }
    let mut rest: Vec<(String, JsonValue)> = Vec::new();
    std::mem::swap(m, &mut rest);
    let n = rest.len();
    let mut i: usize = 0;
    while i < n
        invariant
            i <= n,
            n == orig.len(),
            mv.len() == orig.len(),
            forall|j: int| 0 <= j < orig.len() ==> #[trigger] mv[j] == (orig[j].0@, json_view(orig[j].1)),
            rest@ == orig.subrange(i as int, n as int),
            members_view(m@) == remove_key(mv.subrange(0, i as int), k@),
        decreases n - i,
    {
        let e = rest.remove(0);
        proof {
            assert(orig[i as int] == e);
            assert(mv.subrange(0, i + 1).subrange(0, i as int) =~= mv.subrange(0, i as int));
            assert(rest@ =~= orig.subrange(i + 1, n as int));
            assert(m@.push(e).subrange(0, m@.len() as int) =~= m@);
        }
        if !e.0.eq(k) {
            m.push(e);
        }
        i += 1;
    }
    proof {
        assert(mv.subrange(0, n as int) =~= mv);
    }
}

/// Deep merge of `b` into `a` (see [`json_merge`]).
pub fn merge_json(a: &mut JsonValue, b: &JsonValue)
    ensures
        final(a)@ == json_merge(old(a)@, b@),
    decreases b,
{
    match b {
        JsonValue::Object(mb) => {
            let mut taken = JsonValue::Null;
            std::mem::swap(a, &mut taken);
            match taken {
                JsonValue::Object(mut ma) => {
                    let n = mb.len();
                    let ghost target = members_merge(members_view(ma@), members_view(mb@));
                    let ghost mbv = members_view(mb@);
                    proof {
                        lemma_members_view(mb@);
                        assert(mbv.subrange(0, n as int) =~= mbv);
                    }
                    let mut i: usize = 0;
                    while i < n
                        invariant
                            i <= n,
                            n == mb.len(),
                            *b == JsonValue::Object(*mb),
                            mbv == members_view(mb@),
                            mbv.len() == mb.len(),
                            forall|j: int|
                                0 <= j < mb.len() ==> #[trigger] mbv[j] == (
                                    mb@[j].0@,
                                    json_view(mb@[j].1),
                                ),
                            members_merge(members_view(ma@), mbv.subrange(i as int, n as int))
                                == target,
                        decreases n - i,
                    {
                        let key = &mb[i].0;
                        let val = &mb[i].1;
                        let ghost cur = members_view(ma@);
                        let ghost rest = mbv.subrange(i as int, n as int);
                        proof {
                            assert(rest[0] == (key@, val@));
                            assert(rest.subrange(1, rest.len() as int) =~= mbv.subrange(
                                i + 1,
                                n as int,
                            ));
                            lemma_members_view(ma@);
                            lemma_key_index(cur, key@);
                        }
                        if val.is_null() {
                            remove_member(&mut ma, key);
                            proof {
                                assert(members_merge(cur, rest) == members_merge(
                                    remove_key(cur, key@),
                                    rest.subrange(1, rest.len() as int),
                                ));
                            }
                        } else {
                            match find_member(&ma, key) {
                                Some(j) => {
                                    let ghost before = ma@;
                                    let (kk, mut child) = ma.remove(j);
                                    let ghost child_old = child@;
                                    proof {
                                        assert(before[j as int] == (kk, child));
                                        assert(cur[j as int] == (kk@, child_old));
                                        assert(decreases_to!(*b => b->Object_0));
                                        vstd::std_specs::vec::axiom_vec_index_decreases(
                                            b->Object_0,
                                            i as int,
                                        );
                                        assert(decreases_to!(*b => mb[i as int].1));
                                    }
                                    merge_json(&mut child, val);
                                    let ghost merged = child@;
                                    ma.insert(j, (kk, child));
                                    proof {
                                        lemma_members_view(ma@);
                                        assert(ma@ =~= before.update(j as int, (kk, child)));
                                        assert(members_view(ma@) =~= cur.update(
                                            j as int,
                                            (key@, merged),
                                        ));
                                        assert(get_or_null(cur, key@) == child_old);
                                        assert(members_view(ma@) == put_key(cur, key@, json_merge(get_or_null(cur, key@), val@)));
                                        assert(members_merge(cur, rest) == members_merge(
                                            put_key(cur, key@, json_merge(get_or_null(cur, key@), val@)),
                                            rest.subrange(1, rest.len() as int),
                                        ));
                                    }
                                },
                                None => {
                                    let c = val.deep_copy();
                                    let kc = key.clone();
                                    proof {
                                        assert(ma@.push((kc, c)).subrange(0, ma@.len() as int)
                                            =~= ma@);
                                    }
                                    ma.push((kc, c));
                                    proof {
                                        assert(json_merge(Json::Null, val@) == val@);
                                        assert(members_view(ma@) == put_key(cur, key@, json_merge(get_or_null(cur, key@), val@)));
                                    }
                                },
                            }
                        }
                        i += 1;
                    }
                    *a = JsonValue::Object(ma);
                },
                _ => {
                    *a = b.deep_copy();
                },
            }
        },
        _ => {
            *a = b.deep_copy();
        },
    }
}


/// Whether a document is well formed: the members of every object have
/// distinct names.
pub open spec fn json_wf(j: Json) -> bool
    decreases j,
{
    match j {
        Json::Array(items) => items_wf(items),
        Json::Object(m) => keys_unique(m) && member_values_wf(m),
        _ => true,
    }
}

/// Whether every item is well formed.
pub open spec fn items_wf(s: Seq<Json>) -> bool
    decreases s,
{
    s.len() == 0 || (items_wf(s.subrange(0, s.len() - 1)) && json_wf(s[s.len() - 1]))
}

/// Whether every member value is well formed.
pub open spec fn member_values_wf(m: Seq<(Seq<char>, Json)>) -> bool
    decreases m,
{
    m.len() == 0 || (member_values_wf(m.subrange(0, m.len() - 1)) && json_wf(m[m.len() - 1].1))
}

/// What serde_json reads from a byte string: the document it holds, or none
/// when the bytes are not exactly one JSON document.
pub uninterp spec fn json_parse(bytes: Seq<u8>) -> Option<Json>;

/// The text serde_json writes for a document, or none when a number of the
/// document is not a valid JSON number.
pub uninterp spec fn json_text(v: Json) -> Option<Seq<u8>>;

#[verifier::external_type_specification]
#[verifier::external_body]
pub struct ExSerdeJsonValue(serde_json::Value);

/// Moves a serde_json value into a [`JsonValue`], variant by variant.
#[verifier::external_body]
fn json_from_serde(v: serde_json::Value) -> JsonValue {
    match v {
        serde_json::Value::Null => JsonValue::Null,
        serde_json::Value::Bool(b) => JsonValue::Bool(b),
        serde_json::Value::Number(n) => JsonValue::Number(n.to_string()),
        serde_json::Value::String(s) => JsonValue::Str(s),
        serde_json::Value::Array(a) => JsonValue::Array(a.into_iter().map(json_from_serde).collect()),
        serde_json::Value::Object(m) => JsonValue::Object(
            m.into_iter().map(|(k, v)| (k, json_from_serde(v))).collect(),
        ),
    }
}

/// Copies a [`JsonValue`] into a serde_json value, variant by variant; none
/// when a number's text is not one that serde_json reads as a number.
#[verifier::external_body]
fn json_to_serde(v: &JsonValue) -> Option<serde_json::Value> {
    Some(match v {
        JsonValue::Null => serde_json::Value::Null,
        JsonValue::Bool(b) => serde_json::Value::Bool(*b),
        JsonValue::Number(n) => serde_json::Value::Number(n.parse().ok()?),
        JsonValue::Str(s) => serde_json::Value::String(s.clone()),
        JsonValue::Array(a) => serde_json::Value::Array(a.iter().map(json_to_serde).collect::<Option<_>>()?),
        JsonValue::Object(m) => serde_json::Value::Object(
            m.iter().map(|(k, v)| Some((k.clone(), json_to_serde(v)?))).collect::<Option<_>>()?,
        ),
    })
}

/// Relies on serde_json::from_slice (into a serde_json::Value): whether the
/// bytes hold one document, and which, depends on the bytes alone; its
/// objects are maps, so their member names are distinct.
#[verifier::external_body]
fn parse_json(bytes: &[u8]) -> (r: Option<JsonValue>)
    ensures
        r is None <==> json_parse(bytes@) is None,
        r matches Some(v) ==> json_parse(bytes@) == Some(v@) && json_wf(v@),
{
    serde_json::from_slice::<serde_json::Value>(bytes).ok().map(json_from_serde)
}

/// Relies on serde_json::to_vec: the text written depends on the document alone.
#[verifier::external_body]
fn write_json(v: &JsonValue) -> (r: Option<Vec<u8>>)
    ensures
        r is None <==> json_text(v@) is None,
        r matches Some(b) ==> json_text(v@) == Some(b@),
{
    serde_json::to_vec(&json_to_serde(v)?).ok()
}

impl JsonValue {
    /// Reads one JSON document from `bytes`.
    pub fn from_bytes(bytes: &[u8]) -> (r: Option<JsonValue>)
        ensures
            r is None <==> json_parse(bytes@) is None,
            r matches Some(v) ==> json_parse(bytes@) == Some(v@) && json_wf(v@),
    {
        parse_json(bytes)
    }

    /// Writes this document as JSON text.
    pub fn to_bytes(&self) -> (r: Option<Vec<u8>>)
        ensures
            r is None <==> json_text(self@) is None,
            r matches Some(b) ==> json_text(self@) == Some(b@),
    {
        write_json(self)
    }

    /// Whether two documents are the same tree, members compared in order.
    pub fn same(&self, other: &JsonValue) -> (r: bool)
        ensures
            r == (self@ == other@),
        decreases self,
    {
        match (self, other) {
            (JsonValue::Null, JsonValue::Null) => true,
            (JsonValue::Bool(a), JsonValue::Bool(b)) => *a == *b,
            (JsonValue::Number(a), JsonValue::Number(b)) => a.eq(b),
            (JsonValue::Str(a), JsonValue::Str(b)) => a.eq(b),
            (JsonValue::Array(a), JsonValue::Array(b)) => {
                proof {
                    lemma_items_view(a@);
                    lemma_items_view(b@);
                }
                if a.len() != b.len() {
                    return false;
                }
                let mut i: usize = 0;
                while i < a.len()
                    invariant
                        i <= a.len(),
                        a.len() == b.len(),
                        *self is Array,
                        self->Array_0 == *a,
                        *other is Array,
                        other->Array_0 == *b,
                        items_view(a@).len() == a.len(),
                        items_view(b@).len() == b.len(),
                        forall|j: int| 0 <= j < a.len() ==> #[trigger] items_view(a@)[j] == json_view(a@[j]),
                        forall|j: int| 0 <= j < b.len() ==> #[trigger] items_view(b@)[j] == json_view(b@[j]),
                        forall|j: int| 0 <= j < i ==> items_view(a@)[j] == items_view(b@)[j],
                    decreases a.len() - i,
                {
                    proof {
                        assert(decreases_to!(*self => self->Array_0));
                        vstd::std_specs::vec::axiom_vec_index_decreases(self->Array_0, i as int);
                    }
                    if !a[i].same(&b[i]) {
                        proof {
                            assert(items_view(a@)[i as int] != items_view(b@)[i as int]);
                        }
                        return false;
                    }
                    i += 1;
                }
                proof {
                    assert(items_view(a@) =~= items_view(b@));
                }
                true
            },
            (JsonValue::Object(a), JsonValue::Object(b)) => {
                proof {
                    lemma_members_view(a@);
                    lemma_members_view(b@);
                }
                if a.len() != b.len() {
                    return false;
                }
                let mut i: usize = 0;
                while i < a.len()
                    invariant
                        i <= a.len(),
                        a.len() == b.len(),
                        *self is Object,
                        self->Object_0 == *a,
                        *other is Object,
                        other->Object_0 == *b,
                        members_view(a@).len() == a.len(),
                        members_view(b@).len() == b.len(),
                        forall|j: int|
                            0 <= j < a.len() ==> #[trigger] members_view(a@)[j] == (
                                a@[j].0@,
                                json_view(a@[j].1),
                            ),
                        forall|j: int|
                            0 <= j < b.len() ==> #[trigger] members_view(b@)[j] == (
                                b@[j].0@,
                                json_view(b@[j].1),
                            ),
                        forall|j: int| 0 <= j < i ==> members_view(a@)[j] == members_view(b@)[j],
                    decreases a.len() - i,
                {
                    proof {
                        assert(decreases_to!(*self => self->Object_0));
                        vstd::std_specs::vec::axiom_vec_index_decreases(self->Object_0, i as int);
                    }
                    if !a[i].0.eq(&b[i].0) {
                        proof {
                            assert(members_view(a@)[i as int] != members_view(b@)[i as int]);
                        }
                        return false;
                    }
                    if !a[i].1.same(&b[i].1) {
                        proof {
                            assert(members_view(a@)[i as int] != members_view(b@)[i as int]);
                        }
                        return false;
                    }
                    i += 1;
                }
                proof {
                    assert(members_view(a@) =~= members_view(b@));
                }
                true
            },
            _ => false,
        }
    }
}

} // verus!

verus! {

/// Whether no member of `m` is named `k`.
pub open spec fn no_key(m: Seq<(Seq<char>, Json)>, k: Seq<char>) -> bool {
    forall|i: int| 0 <= i < m.len() ==> (#[trigger] m[i]).0 != k
}

/// Whether the members of `m` have distinct names.
pub open spec fn keys_unique(m: Seq<(Seq<char>, Json)>) -> bool {
    forall|i: int, j: int| 0 <= i < j < m.len() ==> (#[trigger] m[i]).0 != (#[trigger] m[j]).0
}

/// Whether no name is a member of both `a` and `b`.
pub open spec fn keys_disjoint(a: Seq<(Seq<char>, Json)>, b: Seq<(Seq<char>, Json)>) -> bool {
    forall|i: int, j: int| 0 <= i < a.len() && 0 <= j < b.len() ==> (#[trigger] a[i]).0 != (#[trigger] b[j]).0
}

/// The members of `m` whose value is not null, in order.
pub open spec fn non_null(m: Seq<(Seq<char>, Json)>) -> Seq<(Seq<char>, Json)>
    decreases m.len(),
{
    if m.len() == 0 {
        m
    } else {
        let r = non_null(m.subrange(1, m.len() as int));
        if m[0].1 == Json::Null {
            r
        } else {
            seq![m[0]] + r
        }
    }
}

proof fn lemma_no_key_index(m: Seq<(Seq<char>, Json)>, k: Seq<char>)
    ensures
        no_key(m, k) <==> key_index(m, k) == -1,
{
    lemma_key_index(m, k);
    if key_index(m, k) >= 0 {
        assert(m[key_index(m, k)].0 == k);
    }
}

proof fn lemma_remove_absent(m: Seq<(Seq<char>, Json)>, k: Seq<char>)
    requires
        no_key(m, k),
    ensures
        remove_key(m, k) == m,
    decreases m.len(),
{
    if m.len() > 0 {
        let p = m.subrange(0, m.len() - 1);
        assert forall|i: int| 0 <= i < p.len() implies (#[trigger] p[i]).0 != k by {
            assert(p[i] == m[i]);
        }
        lemma_remove_absent(p, k);
        assert(m[m.len() - 1].0 != k);
        assert(p.push(m[m.len() - 1]) =~= m);
    }
}

proof fn lemma_non_null_members(m: Seq<(Seq<char>, Json)>)
    ensures
        non_null(m).len() <= m.len(),
        forall|i: int| 0 <= i < non_null(m).len() ==> exists|j: int| 0 <= j < m.len() && m[j] == #[trigger] non_null(m)[i],
        forall|i: int| 0 <= i < non_null(m).len() ==> (#[trigger] non_null(m)[i]).1 != Json::Null,
    decreases m.len(),
{
    if m.len() > 0 {
        let rest = m.subrange(1, m.len() as int);
        lemma_non_null_members(rest);
        let r = non_null(rest);
        assert forall|i: int| 0 <= i < non_null(m).len() implies exists|j: int| 0 <= j < m.len() && m[j] == #[trigger] non_null(m)[i] by {
            if m[0].1 == Json::Null {
                let j = choose|j: int| 0 <= j < rest.len() && rest[j] == r[i];
                assert(m[j + 1] == rest[j]);
            } else if i == 0 {
                assert(m[0] == non_null(m)[0]);
            } else {
                assert(non_null(m)[i] == r[i - 1]);
                let j = choose|j: int| 0 <= j < rest.len() && rest[j] == r[i - 1];
                assert(m[j + 1] == rest[j]);
            }
        }
        assert forall|i: int| 0 <= i < non_null(m).len() implies (#[trigger] non_null(m)[i]).1 != Json::Null by {
            if m[0].1 != Json::Null && i > 0 {
                assert(non_null(m)[i] == r[i - 1]);
            }
        }
    }
}

proof fn lemma_non_null_unique(m: Seq<(Seq<char>, Json)>)
    requires
        keys_unique(m),
    ensures
        keys_unique(non_null(m)),
    decreases m.len(),
{
    if m.len() > 0 {
        let rest = m.subrange(1, m.len() as int);
        assert forall|i: int, j: int| 0 <= i < j < rest.len() implies (#[trigger] rest[i]).0 != (#[trigger] rest[j]).0 by {
            assert(rest[i] == m[i + 1] && rest[j] == m[j + 1]);
        }
        lemma_non_null_unique(rest);
        lemma_non_null_members(rest);
        let r = non_null(rest);
        if m[0].1 != Json::Null {
            let n = non_null(m);
            assert forall|i: int, j: int| 0 <= i < j < n.len() implies (#[trigger] n[i]).0 != (#[trigger] n[j]).0 by {
                assert(n[j] == r[j - 1]);
                if i == 0 {
                    let q = choose|q: int| 0 <= q < rest.len() && rest[q] == r[j - 1];
                    assert(rest[q] == m[q + 1]);
                } else {
                    assert(n[i] == r[i - 1]);
                }
            }
        }
    }
}

proof fn lemma_non_null_concat(x: Seq<(Seq<char>, Json)>, y: Seq<(Seq<char>, Json)>)
    ensures
        non_null(x + y) == non_null(x) + non_null(y),
    decreases x.len(),
{
    if x.len() == 0 {
        assert(x + y =~= y);
        assert(non_null(x) + non_null(y) =~= non_null(y));
    } else {
        let xr = x.subrange(1, x.len() as int);
        lemma_non_null_concat(xr, y);
        assert((x + y).subrange(1, (x + y).len() as int) =~= xr + y);
        assert((x + y)[0] == x[0]);
        if x[0].1 == Json::Null {
        } else {
            assert(seq![x[0]] + (non_null(xr) + non_null(y)) =~= (seq![x[0]] + non_null(xr)) + non_null(y));
        }
    }
}

proof fn lemma_non_null_idempotent(m: Seq<(Seq<char>, Json)>)
    ensures
        non_null(non_null(m)) == non_null(m),
    decreases m.len(),
{
    if m.len() > 0 {
        let rest = m.subrange(1, m.len() as int);
        lemma_non_null_idempotent(rest);
        if m[0].1 != Json::Null {
            let one = seq![m[0]];
            lemma_non_null_concat(one, non_null(rest));
            let tail = one.subrange(1, 1);
            assert(tail =~= Seq::<(Seq<char>, Json)>::empty());
            assert(non_null(tail) == tail);
            assert(one[0] == m[0]);
            assert(non_null(one) == seq![one[0]] + non_null(tail));
            assert(non_null(one) =~= one);
        }
    }
}

/// Merging members of names that `ma` lacks appends the non-null ones.
proof fn lemma_merge_disjoint(ma: Seq<(Seq<char>, Json)>, mb: Seq<(Seq<char>, Json)>)
    requires
        keys_unique(mb),
        keys_disjoint(ma, mb),
    ensures
        members_merge(ma, mb) == ma + non_null(mb),
    decreases mb.len(),
{
    if mb.len() == 0 {
        assert(ma + non_null(mb) =~= ma);
    } else {
        let k = mb[0].0;
        let v = mb[0].1;
        let rest = mb.subrange(1, mb.len() as int);
        assert forall|i: int, j: int| 0 <= i < j < rest.len() implies (#[trigger] rest[i]).0 != (#[trigger] rest[j]).0 by {
            assert(rest[i] == mb[i + 1] && rest[j] == mb[j + 1]);
        }
        assert forall|i: int| 0 <= i < ma.len() implies (#[trigger] ma[i]).0 != k by {
            assert(ma[i].0 != mb[0].0);
        }
        lemma_no_key_index(ma, k);
        if v == Json::Null {
            lemma_remove_absent(ma, k);
            assert forall|i: int, j: int| 0 <= i < ma.len() && 0 <= j < rest.len() implies (#[trigger] ma[i]).0 != (#[trigger] rest[j]).0 by {
                assert(rest[j] == mb[j + 1]);
            }
            lemma_merge_disjoint(ma, rest);
        } else {
            let next = ma.push((k, v));
            assert(json_merge(Json::Null, v) == v);
            assert(put_key(ma, k, json_merge(get_or_null(ma, k), v)) == next);
            assert forall|i: int, j: int| 0 <= i < next.len() && 0 <= j < rest.len() implies (#[trigger] next[i]).0 != (#[trigger] rest[j]).0 by {
                assert(rest[j] == mb[j + 1]);
                if i == ma.len() {
                    assert(next[i].0 == mb[0].0);
                } else {
                    assert(next[i] == ma[i]);
                }
            }
            lemma_merge_disjoint(next, rest);
            assert(next + non_null(rest) =~= ma + (seq![mb[0]] + non_null(rest)));
        }
    }
}

/// Deep merge of objects is associative when no member name occurs in two
/// of them: merging `b` then `c` into `a` gives what merging into `a` the
/// merge of `c` into `b` gives.
pub proof fn lemma_merge_associative_on_disjoint_keys(
    a: Seq<(Seq<char>, Json)>,
    b: Seq<(Seq<char>, Json)>,
    c: Seq<(Seq<char>, Json)>,
)
    requires
        keys_unique(a),
        keys_unique(b),
        keys_unique(c),
        keys_disjoint(a, b),
        keys_disjoint(a, c),
        keys_disjoint(b, c),
    ensures
        json_merge(json_merge(Json::Object(a), Json::Object(b)), Json::Object(c)) == json_merge(
            Json::Object(a),
            json_merge(Json::Object(b), Json::Object(c)),
        ),
{
    lemma_merge_disjoint(a, b);
    lemma_merge_disjoint(b, c);
    lemma_non_null_members(b);
    lemma_non_null_members(c);
    lemma_non_null_unique(c);
    let ab = a + non_null(b);
    let bc = b + non_null(c);
    assert forall|i: int, j: int| 0 <= i < ab.len() && 0 <= j < c.len() implies (#[trigger] ab[i]).0 != (#[trigger] c[j]).0 by {
        if i < a.len() {
            assert(ab[i] == a[i]);
        } else {
            assert(ab[i] == non_null(b)[i - a.len()]);
            let q = choose|q: int| 0 <= q < b.len() && b[q] == non_null(b)[i - a.len()];
        }
    }
    lemma_merge_disjoint(ab, c);
    assert forall|i: int, j: int| 0 <= i < j < bc.len() implies (#[trigger] bc[i]).0 != (#[trigger] bc[j]).0 by {
        if j < b.len() {
            assert(bc[i] == b[i] && bc[j] == b[j]);
        } else if i < b.len() {
            assert(bc[i] == b[i]);
            assert(bc[j] == non_null(c)[j - b.len()]);
            let q = choose|q: int| 0 <= q < c.len() && c[q] == non_null(c)[j - b.len()];
        } else {
            assert(bc[i] == non_null(c)[i - b.len()]);
            assert(bc[j] == non_null(c)[j - b.len()]);
        }
    }
    assert forall|i: int, j: int| 0 <= i < a.len() && 0 <= j < bc.len() implies (#[trigger] a[i]).0 != (#[trigger] bc[j]).0 by {
        if j < b.len() {
            assert(bc[j] == b[j]);
        } else {
            assert(bc[j] == non_null(c)[j - b.len()]);
            let q = choose|q: int| 0 <= q < c.len() && c[q] == non_null(c)[j - b.len()];
        }
    }
    lemma_merge_disjoint(a, bc);
    lemma_non_null_concat(b, non_null(c));
    lemma_non_null_idempotent(c);
    assert(ab + non_null(c) =~= a + (non_null(b) + non_null(c)));
}

/// A null value deletes: when member `k` of `b` is null (and `b`'s names are
/// distinct), merging `b` into `a` leaves no member `k`.
pub proof fn lemma_merge_null_deletes(a: Seq<(Seq<char>, Json)>, b: Seq<(Seq<char>, Json)>, k: Seq<char>)
    requires
        keys_unique(b),
        exists|i: int| 0 <= i < b.len() && b[i] == (k, Json::Null),
    ensures
        json_merge(Json::Object(a), Json::Object(b)) matches Json::Object(m) && no_key(m, k),
{
    lemma_members_merge_null_deletes(a, b, k);
}

/// Members whose names are in neither `m` nor `mb` stay absent.
proof fn lemma_merge_keeps_absent(m: Seq<(Seq<char>, Json)>, mb: Seq<(Seq<char>, Json)>, k: Seq<char>)
    requires
        no_key(m, k),
        no_key(mb, k),
    ensures
        no_key(members_merge(m, mb), k),
    decreases mb.len(),
{
    if mb.len() > 0 {
        let k2 = mb[0].0;
        let v = mb[0].1;
        let rest = mb.subrange(1, mb.len() as int);
        assert forall|i: int| 0 <= i < rest.len() implies (#[trigger] rest[i]).0 != k by {
            assert(rest[i] == mb[i + 1]);
        }
        assert(k2 != k);
        let next = if v == Json::Null {
            remove_key(m, k2)
        } else {
            put_key(m, k2, json_merge(get_or_null(m, k2), v))
        };
        if v == Json::Null {
            lemma_remove_keeps_absent(m, k2, k);
        } else {
            lemma_key_index(m, k2);
            let w = json_merge(get_or_null(m, k2), v);
            assert forall|i: int| 0 <= i < next.len() implies (#[trigger] next[i]).0 != k by {
                if key_index(m, k2) >= 0 {
                    if i != key_index(m, k2) {
                        assert(next[i] == m[i]);
                    }
                } else if i < m.len() {
                    assert(next[i] == m[i]);
                }
            }
        }
        lemma_merge_keeps_absent(next, rest, k);
    }
}

proof fn lemma_remove_keeps_absent(m: Seq<(Seq<char>, Json)>, k2: Seq<char>, k: Seq<char>)
    requires
        no_key(m, k),
    ensures
        no_key(remove_key(m, k2), k),
    decreases m.len(),
{
    if m.len() > 0 {
        let p = m.subrange(0, m.len() - 1);
        assert forall|i: int| 0 <= i < p.len() implies (#[trigger] p[i]).0 != k by {
            assert(p[i] == m[i]);
        }
        lemma_remove_keeps_absent(p, k2, k);
        assert(m[m.len() - 1].0 != k);
    }
}

proof fn lemma_remove_deletes(m: Seq<(Seq<char>, Json)>, k: Seq<char>)
    ensures
        no_key(remove_key(m, k), k),
    decreases m.len(),
{
    if m.len() > 0 {
        lemma_remove_deletes(m.subrange(0, m.len() - 1), k);
    }
}

proof fn lemma_members_merge_null_deletes(a: Seq<(Seq<char>, Json)>, b: Seq<(Seq<char>, Json)>, k: Seq<char>)
    requires
        keys_unique(b),
        exists|i: int| 0 <= i < b.len() && b[i] == (k, Json::Null),
    ensures
        no_key(members_merge(a, b), k),
    decreases b.len(),
{
    let i = choose|i: int| 0 <= i < b.len() && b[i] == (k, Json::Null);
    let rest = b.subrange(1, b.len() as int);
    let v = b[0].1;
    let k2 = b[0].0;
    let next = if v == Json::Null {
        remove_key(a, k2)
    } else {
        put_key(a, k2, json_merge(get_or_null(a, k2), v))
    };
    assert forall|p: int, q: int| 0 <= p < q < rest.len() implies (#[trigger] rest[p]).0 != (#[trigger] rest[q]).0 by {
        assert(rest[p] == b[p + 1] && rest[q] == b[q + 1]);
    }
    if i == 0 {
        lemma_remove_deletes(a, k);
        assert forall|j: int| 0 <= j < rest.len() implies (#[trigger] rest[j]).0 != k by {
            assert(rest[j] == b[j + 1]);
        }
        lemma_merge_keeps_absent(next, rest, k);
    } else {
        assert(rest[i - 1] == b[i]);
        lemma_members_merge_null_deletes(next, rest, k);
    }
}

} // verus!

verus! {

/// Distinct member names, and well-formed member values.
pub open spec fn members_wf(m: Seq<(Seq<char>, Json)>) -> bool {
    keys_unique(m) && forall|i: int| 0 <= i < m.len() ==> #[trigger] json_wf(m[i].1)
}

proof fn lemma_remove_key_members(m: Seq<(Seq<char>, Json)>, k: Seq<char>)
    ensures
        forall|i: int| 0 <= i < remove_key(m, k).len() ==> exists|j: int| 0 <= j < m.len() && m[j] == #[trigger] remove_key(m, k)[i],
    decreases m.len(),
{
    if m.len() > 0 {
        let p = m.subrange(0, m.len() - 1);
        lemma_remove_key_members(p, k);
        let r = remove_key(p, k);
        assert forall|i: int| 0 <= i < remove_key(m, k).len() implies exists|j: int| 0 <= j < m.len() && m[j] == #[trigger] remove_key(m, k)[i] by {
            if i < r.len() {
                let j = choose|j: int| 0 <= j < p.len() && p[j] == r[i];
                assert(m[j] == p[j]);
                assert(remove_key(m, k)[i] == r[i]);
            } else {
                assert(remove_key(m, k)[i] == m[m.len() - 1]);
            }
        }
    }
}

proof fn lemma_remove_key_wf(m: Seq<(Seq<char>, Json)>, k: Seq<char>)
    requires
        members_wf(m),
    ensures
        members_wf(remove_key(m, k)),
    decreases m.len(),
{
    if m.len() > 0 {
        let p = m.subrange(0, m.len() - 1);
        assert(members_wf(p)) by {
            assert forall|i: int, j: int| 0 <= i < j < p.len() implies (#[trigger] p[i]).0 != (#[trigger] p[j]).0 by {
                assert(p[i] == m[i] && p[j] == m[j]);
            }
            assert forall|i: int| 0 <= i < p.len() implies #[trigger] json_wf(p[i].1) by {
                assert(p[i] == m[i]);
            }
        }
        lemma_remove_key_wf(p, k);
        lemma_remove_key_members(p, k);
        let r = remove_key(p, k);
        let last = m[m.len() - 1];
        if last.0 != k {
            let n = r.push(last);
            assert(remove_key(m, k) == n);
            assert forall|i: int, j: int| 0 <= i < j < n.len() implies (#[trigger] n[i]).0 != (#[trigger] n[j]).0 by {
                if j == n.len() - 1 {
                    let q = choose|q: int| 0 <= q < p.len() && p[q] == r[i];
                    assert(m[q] == p[q]);
                    assert(n[i] == r[i]);
                } else {
                    assert(n[i] == r[i] && n[j] == r[j]);
                }
            }
            assert forall|i: int| 0 <= i < n.len() implies #[trigger] json_wf(n[i].1) by {
                if i < r.len() {
                    assert(n[i] == r[i]);
                }
            }
        }
    }
}

proof fn lemma_put_key_wf(m: Seq<(Seq<char>, Json)>, k: Seq<char>, v: Json)
    requires
        members_wf(m),
        json_wf(v),
    ensures
        members_wf(put_key(m, k, v)),
{
    lemma_key_index(m, k);
    lemma_no_key_index(m, k);
    let n = put_key(m, k, v);
    let x = key_index(m, k);
    assert forall|i: int, j: int| 0 <= i < j < n.len() implies (#[trigger] n[i]).0 != (#[trigger] n[j]).0 by {
        if x >= 0 {
            assert(n[i].0 == m[i].0 && n[j].0 == m[j].0);
        } else if j == m.len() {
            assert(n[i] == m[i]);
        } else {
            assert(n[i] == m[i] && n[j] == m[j]);
        }
    }
    assert forall|i: int| 0 <= i < n.len() implies #[trigger] json_wf(n[i].1) by {
        if (x >= 0 && i != x) || (x < 0 && i < m.len()) {
            assert(n[i] == m[i]);
        }
    }
}

proof fn lemma_members_merge_wf(ma: Seq<(Seq<char>, Json)>, mb: Seq<(Seq<char>, Json)>)
    requires
        members_wf(ma),
        forall|i: int| 0 <= i < mb.len() ==> #[trigger] json_wf(mb[i].1),
    ensures
        members_wf(members_merge(ma, mb)),
    decreases mb,
{
    if mb.len() > 0 {
        let k = mb[0].0;
        let v = mb[0].1;
        let rest = mb.subrange(1, mb.len() as int);
        assert(json_wf(v));
        let next = if v == Json::Null {
            lemma_remove_key_wf(ma, k);
            remove_key(ma, k)
        } else {
            let g = get_or_null(ma, k);
            lemma_key_index(ma, k);
            assert(json_wf(g)) by {
                if key_index(ma, k) >= 0 {
                    assert(json_wf(ma[key_index(ma, k)].1));
                }
            }
            assert(decreases_to!(mb => mb[0]));
            lemma_json_merge_wf(g, v);
            lemma_put_key_wf(ma, k, json_merge(g, v));
            put_key(ma, k, json_merge(g, v))
        };
        assert forall|i: int| 0 <= i < rest.len() implies #[trigger] json_wf(rest[i].1) by {
            assert(rest[i] == mb[i + 1]);
        }
        lemma_members_merge_wf(next, rest);
    }
}

proof fn lemma_member_values_wf(m: Seq<(Seq<char>, Json)>)
    ensures
        member_values_wf(m) <==> forall|i: int| 0 <= i < m.len() ==> #[trigger] json_wf(m[i].1),
    decreases m.len(),
{
    if m.len() > 0 {
        let p = m.subrange(0, m.len() - 1);
        lemma_member_values_wf(p);
        assert forall|i: int| 0 <= i < p.len() implies p[i] == m[i] by {}
        if member_values_wf(m) {
            assert forall|i: int| 0 <= i < m.len() implies #[trigger] json_wf(m[i].1) by {
                if i < p.len() {
                    assert(json_wf(p[i].1));
                }
            }
        }
        if forall|i: int| 0 <= i < m.len() ==> #[trigger] json_wf(m[i].1) {
            assert forall|i: int| 0 <= i < p.len() implies #[trigger] json_wf(p[i].1) by {
                assert(json_wf(m[i].1));
            }
            assert(json_wf(m[m.len() - 1].1));
        }
    }
}

/// Merging well-formed documents gives a well-formed document.
pub proof fn lemma_json_merge_wf(a: Json, b: Json)
    requires
        json_wf(a),
        json_wf(b),
    ensures
        json_wf(json_merge(a, b)),
    decreases b,
{
    match b {
        Json::Object(mb) => match a {
            Json::Object(ma) => {
                lemma_member_values_wf(ma);
                lemma_member_values_wf(mb);
                lemma_members_merge_wf(ma, mb);
                lemma_member_values_wf(members_merge(ma, mb));
            },
            _ => {},
        },
        _ => {},
    }
}

} // verus!
