//! Event payloads, their merge rules and their byte forms.
use vstd::prelude::*;
use vstd::utf8::{decode_utf8, encode_utf8, valid_utf8};
use crate::json::{json_merge, json_parse, json_text, merge_json, Json, JsonValue};

verus! {

/// The payload an event carries.
#[derive(Debug)]
pub enum Data {
    String(String),
    Json(JsonValue),
    Bytes(Vec<u8>),
    Empty,
}

/// Mathematical model of a [`Data`].
pub enum DataModel {
    Str(Seq<char>),
    Json(Json),
    Bytes(Seq<u8>),
    Empty,
}

impl View for Data {
    type V = DataModel;

    open spec fn view(&self) -> DataModel {
        match self {
            Data::String(s) => DataModel::Str(s@),
            Data::Json(j) => DataModel::Json(j@),
            Data::Bytes(b) => DataModel::Bytes(b@),
            Data::Empty => DataModel::Empty,
        }
    }
}

/// How a payload arrives in text form, and so how it is read.
#[derive(Debug, Clone, Copy, PartialEq, Eq, Structural)]
pub enum DataType {
    String,
    Bytes,
    Json,
}

/// How an incoming payload is folded into the payload an event holds.
#[derive(Debug, Clone, Copy, PartialEq, Eq, Structural)]
pub enum MergePolicy {
    Yes,
    No,
    Overwrite,
}

/// `a.merge(b)`: objects merge deeply, strings and byte strings are appended,
/// an empty `b` keeps `a`, and any other pair is replaced by `b`.
pub open spec fn data_merge(a: DataModel, b: DataModel) -> DataModel {
    match (a, b) {
        (DataModel::Json(x), DataModel::Json(y)) => DataModel::Json(json_merge(x, y)),
        (DataModel::Str(x), DataModel::Str(y)) => DataModel::Str(x + y),
        (DataModel::Bytes(x), DataModel::Str(y)) => DataModel::Bytes(x + encode_utf8(y)),
        (DataModel::Bytes(x), DataModel::Bytes(y)) => DataModel::Bytes(x + y),
        (_, DataModel::Empty) => a,
        _ => b,
    }
}

/// Folding `b` into `a` under a merge policy.
pub open spec fn policy_merge(a: DataModel, b: DataModel, policy: MergePolicy) -> DataModel {
    match policy {
        MergePolicy::Yes => data_merge(a, b),
        MergePolicy::No => a,
        MergePolicy::Overwrite => b,
    }
}

/// What a byte string received from outside stands for: a JSON document if it
/// is one, else text if it is valid UTF-8, else the bytes themselves.
pub open spec fn payload_of_bytes(bytes: Seq<u8>) -> DataModel {
    match json_parse(bytes) {
        Some(j) => DataModel::Json(j),
        None => if valid_utf8(bytes) {
            DataModel::Str(decode_utf8(bytes))
        } else {
            DataModel::Bytes(bytes)
        },
    }
}

/// The bytes a payload is sent as; none when a JSON document cannot be written.
pub open spec fn data_bytes(d: DataModel) -> Option<Seq<u8>> {
    match d {
        DataModel::Json(j) => json_text(j),
        DataModel::Str(s) => Some(encode_utf8(s)),
        DataModel::Bytes(b) => Some(b),
        DataModel::Empty => Some(Seq::empty()),
    }
}

/// A payload read in full as text of the given type; none when the bytes are
/// not of that type.
pub open spec fn data_of_type(bytes: Seq<u8>, data_type: DataType) -> Option<DataModel> {
    match data_type {
        DataType::String => if valid_utf8(bytes) {
            Some(DataModel::Str(decode_utf8(bytes)))
        } else {
            None
        },
        DataType::Bytes => Some(DataModel::Bytes(bytes)),
        DataType::Json => match json_parse(bytes) {
            Some(j) => Some(DataModel::Json(j)),
            None => None,
        },
    }
}

/// Relies on core::str::from_utf8: it accepts exactly the valid UTF-8 byte
/// strings, and decodes them.
#[verifier::external_body]
pub(crate) fn utf8_text(bytes: &[u8]) -> (r: Option<String>)
    ensures
        r is Some <==> valid_utf8(bytes@),
        r matches Some(s) ==> s@ == decode_utf8(bytes@),
{
    core::str::from_utf8(bytes).ok().map(|s| s.to_string())
}

/// Appends `b` to `a`.
pub fn append_bytes(a: &mut Vec<u8>, b: &[u8])
    ensures
        final(a)@ == old(a)@ + b@,
{
    let mut i: usize = 0;
    while i < b.len()
        invariant
            i <= b.len(),
            a@ == old(a)@ + b@.subrange(0, i as int),
        decreases b.len() - i,
    {
        a.push(b[i]);
        i += 1;
        proof {
            assert(a@ =~= old(a)@ + b@.subrange(0, i as int));
        }
    }
    proof {
        assert(b@.subrange(0, b.len() as int) =~= b@);
    }
}

/// A copy of a byte string.
pub fn copy_bytes(b: &[u8]) -> (r: Vec<u8>)
    ensures
        r@ == b@,
{
    let mut r: Vec<u8> = Vec::new();
    append_bytes(&mut r, b);
    proof {
        assert(r@ =~= b@);
    }
    r
}

impl Data {
    /// A copy of this payload.
    pub fn copy(&self) -> (r: Data)
        ensures
            r@ == self@,
    {
        match self {
            Data::String(s) => Data::String(s.clone()),
            Data::Json(j) => Data::Json(j.deep_copy()),
            Data::Bytes(b) => Data::Bytes(copy_bytes(b.as_slice())),
            Data::Empty => Data::Empty,
        }
    }

    /// Reads a payload of the given type from the full content of a source.
    pub fn from_bytes(bytes: Vec<u8>, data_type: DataType) -> (r: Option<Data>)
        ensures
            r is None <==> data_of_type(bytes@, data_type) is None,
            r matches Some(d) ==> data_of_type(bytes@, data_type) == Some(d@),
    {
        match data_type {
            DataType::String => match utf8_text(bytes.as_slice()) {
                Some(s) => Some(Data::String(s)),
                None => None,
            },
            DataType::Bytes => Some(Data::Bytes(bytes)),
            DataType::Json => match JsonValue::from_bytes(bytes.as_slice()) {
                Some(j) => Some(Data::Json(j)),
                None => None,
            },
        }
    }

    /// The bytes this payload is sent as.
    pub fn to_bytes(&self) -> (r: Option<Vec<u8>>)
        ensures
            r is None <==> data_bytes(self@) is None,
            r matches Some(b) ==> data_bytes(self@) == Some(b@),
    {
        match self {
            Data::Json(j) => j.to_bytes(),
            Data::String(s) => Some(copy_bytes(s.as_str().as_bytes())),
            Data::Bytes(b) => Some(copy_bytes(b.as_slice())),
            Data::Empty => Some(Vec::new()),
        }
    }

    /// The bytes this payload is sent as (the same as [`Data::to_bytes`]).
    pub fn as_bytes(&self) -> (r: Option<Vec<u8>>)
        ensures
            r is None <==> data_bytes(self@) is None,
            r matches Some(b) ==> data_bytes(self@) == Some(b@),
    {
        self.to_bytes()
    }

    /// Folds `data` into this payload (see [`data_merge`]).
    pub fn merge(&mut self, data: Data)
        ensures
            final(self)@ == data_merge(old(self)@, data@),
    {
        let mut cur = Data::Empty;
        std::mem::swap(self, &mut cur);
        *self = match (cur, data) {
            (Data::Json(mut a), Data::Json(b)) => {
                merge_json(&mut a, &b);
                Data::Json(a)
            },
            (Data::String(mut a), Data::String(b)) => {
                a.append(b.as_str());
                Data::String(a)
            },
            (Data::Bytes(mut a), Data::String(b)) => {
                append_bytes(&mut a, b.as_str().as_bytes());
                Data::Bytes(a)
            },
            (Data::Bytes(mut a), Data::Bytes(b)) => {
                append_bytes(&mut a, b.as_slice());
                Data::Bytes(a)
            },
            (c, Data::Empty) => c,
            (_, d) => d,
        };
    }

    /// Folds `data` into this payload under `policy`.
    pub fn merge_with_policy(&mut self, data: Data, policy: MergePolicy)
        ensures
            final(self)@ == policy_merge(old(self)@, data@, policy),
    {
        match policy {
            MergePolicy::Yes => self.merge(data),
            MergePolicy::No => {},
            MergePolicy::Overwrite => {
                *self = data;
            },
        }
    }

    /// Reads `bytes` as JSON, else as UTF-8 text, else as raw bytes, and folds
    /// the result into this payload.
    pub fn try_merge_bytes(&mut self, bytes: &[u8])
        ensures
            final(self)@ == data_merge(old(self)@, payload_of_bytes(bytes@)),
    {
        let data = match JsonValue::from_bytes(bytes) {
            Some(v) => Data::Json(v),
            None => match utf8_text(bytes) {
                Some(s) => Data::String(s),
                None => Data::Bytes(copy_bytes(bytes)),
            },
        };
        self.merge(data);
    }

    /// Whether two payloads are equal (JSON members compared in order).
    pub fn same(&self, other: &Data) -> (r: bool)
        ensures
            r == (self@ == other@),
    {
        match (self, other) {
            (Data::String(a), Data::String(b)) => a.eq(b),
            (Data::Json(a), Data::Json(b)) => a.same(b),
            (Data::Bytes(a), Data::Bytes(b)) => bytes_equal(a.as_slice(), b.as_slice()),
            (Data::Empty, Data::Empty) => true,
            _ => false,
        }
    }
}

/// Whether two byte strings are equal.
pub fn bytes_equal(a: &[u8], b: &[u8]) -> (r: bool)
    ensures
        r == (a@ == b@),
{
    if a.len() != b.len() {
        return false;
    }
    let mut i: usize = 0;
    while i < a.len()
        invariant
            i <= a.len(),
            a.len() == b.len(),
            forall|j: int| 0 <= j < i ==> a@[j] == b@[j],
        decreases a.len() - i,
    {
        if a[i] != b[i] {
            return false;
        }
        i += 1;
    }
    proof {
        assert(a@ =~= b@);
    }
    true
}

impl PartialEq for Data {
    fn eq(&self, other: &Data) -> (r: bool) {
        self.same(other)
    }
}

impl vstd::std_specs::cmp::PartialEqSpecImpl for Data {
    open spec fn obeys_eq_spec() -> bool {
        true
    }

    open spec fn eq_spec(&self, other: &Data) -> bool {
        self@ == other@
    }
}

/// Annotations accumulated along a chain of events: a JSON document merged
/// deeply, like structured payloads.
#[derive(Debug)]
pub struct Metadata(pub JsonValue);

impl View for Metadata {
    type V = Json;

    open spec fn view(&self) -> Json {
        self.0@
    }
}

impl Metadata {
    /// Empty metadata: an empty object.
    pub fn empty() -> (r: Metadata)
        ensures
            r@ == Json::Object(Seq::empty()),
    {
        let r = Metadata(JsonValue::Object(Vec::new()));
        proof {
            assert(crate::json::members_view(Seq::<(String, JsonValue)>::empty()) =~= Seq::empty());
        }
        r
    }

    /// Folds `metadata` into this one (see [`json_merge`]).
    pub fn merge(&mut self, metadata: Metadata)
        ensures
            final(self)@ == json_merge(old(self)@, metadata@),
    {
        merge_json(&mut self.0, &metadata.0);
    }

    /// A copy of this metadata.
    pub fn copy(&self) -> (r: Metadata)
        ensures
            r@ == self@,
    {
        Metadata(self.0.deep_copy())
    }
}

} // verus!

verus! {

/// Merging with an empty payload changes nothing, on either side: merging
/// empty into `a` keeps `a`, and merging `b` into empty gives `b`.
pub proof fn lemma_merge_empty_identity(a: DataModel, b: DataModel)
    ensures
        data_merge(a, DataModel::Empty) == a,
        data_merge(DataModel::Empty, b) == b,
{
}

} // verus!

verus! {

/// A null member deletes: merging a structured payload whose object has a
/// null member `k` (and distinct member names) into a structured object
/// leaves no member `k`.
pub proof fn lemma_data_merge_null_deletes(
    a: Seq<(Seq<char>, Json)>,
    b: Seq<(Seq<char>, Json)>,
    k: Seq<char>,
)
    requires
        crate::json::keys_unique(b),
        exists|i: int| 0 <= i < b.len() && b[i] == (k, Json::Null),
    ensures
        data_merge(DataModel::Json(Json::Object(a)), DataModel::Json(Json::Object(b))) matches DataModel::Json(
            Json::Object(m),
        ) && crate::json::no_key(m, k),
{
    crate::json::lemma_merge_null_deletes(a, b, k);
}

/// Merging structured payloads is associative when no member name occurs in
/// two of the three objects.
pub proof fn lemma_data_merge_associative_on_disjoint_keys(
    a: Seq<(Seq<char>, Json)>,
    b: Seq<(Seq<char>, Json)>,
    c: Seq<(Seq<char>, Json)>,
)
    requires
        crate::json::keys_unique(a),
        crate::json::keys_unique(b),
        crate::json::keys_unique(c),
        crate::json::keys_disjoint(a, b),
        crate::json::keys_disjoint(a, c),
        crate::json::keys_disjoint(b, c),
    ensures
        ({
            let (x, y, z) = (DataModel::Json(Json::Object(a)), DataModel::Json(Json::Object(b)), DataModel::Json(Json::Object(c)));
            data_merge(data_merge(x, y), z) == data_merge(x, data_merge(y, z))
        }),
{
    crate::json::lemma_merge_associative_on_disjoint_keys(a, b, c);
}

} // verus!

verus! {

/// Whether a payload is well formed: a structured one has distinct member
/// names in every object (as every parsed document has).
pub open spec fn data_wf(d: DataModel) -> bool {
    match d {
        DataModel::Json(j) => crate::json::json_wf(j),
        _ => true,
    }
}

/// Merging well-formed payloads gives a well-formed payload.
pub proof fn lemma_data_merge_wf(a: DataModel, b: DataModel)
    requires
        data_wf(a),
        data_wf(b),
    ensures
        data_wf(data_merge(a, b)),
{
    if let (DataModel::Json(x), DataModel::Json(y)) = (a, b) {
        crate::json::lemma_json_merge_wf(x, y);
    }
}

} // verus!

verus! {

/// What writing a payload to a file does.
#[derive(Debug)]
pub enum FileContent {
    /// An empty payload: the file is left alone.
    Nothing,
    /// The bytes to write.
    Bytes(Vec<u8>),
    /// A structured payload that cannot be written.
    Unwritable,
}

/// What a file-write action writes: nothing for an empty payload, else the
/// payload's bytes (raw text, raw bytes, or JSON text).
pub fn file_content(data: &Data) -> (r: FileContent)
    ensures
        data@ == DataModel::Empty ==> r is Nothing,
        data@ != DataModel::Empty ==> match data_bytes(data@) {
            Some(b) => r matches FileContent::Bytes(v) && v@ == b,
            None => r is Unwritable,
        },
{
    match data {
        Data::Empty => FileContent::Nothing,
        _ => match data.to_bytes() {
            Some(b) => FileContent::Bytes(b),
            None => FileContent::Unwritable,
        },
    }
}

} // verus!
