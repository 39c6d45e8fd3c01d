use hvents::data::{Data, DataType, MergePolicy, Metadata};
use hvents::json::JsonValue;

fn json(text: &str) -> JsonValue {
    JsonValue::from_bytes(text.as_bytes()).unwrap()
}

fn json_data(text: &str) -> Data {
    Data::Json(json(text))
}

#[test]
fn test_data_json_serialization() {
    let text = r#"{"a":"b"}"#;
    let value = json(text);
    let data = Data::from_bytes(text.as_bytes().to_vec(), DataType::Json).unwrap();
    assert_eq!(data, Data::Json(value));
}

#[test]
fn test_data_string_serialization() {
    let data = Data::from_bytes(b"simple string".to_vec(), DataType::String).unwrap();
    assert_eq!(data, Data::String("simple string".to_string()));
}

#[test]
fn test_merge_bytes_with_string() {
    let mut data = Data::Bytes(b"1".to_vec());
    data.merge(Data::String("2".to_string()));
    assert_eq!(data.as_bytes().unwrap(), b"12".to_vec());
    assert!(matches!(data, Data::Bytes(_)));

    let mut data = Data::String("1".to_string());
    data.merge(Data::Bytes(b"2".to_vec()));
    assert_eq!(data.as_bytes().unwrap(), b"2".to_vec());
    assert!(matches!(data, Data::Bytes(_)));
}

#[test]
fn test_overwrite_string_with_bytes() {
    let mut data = Data::String("1".to_string());
    data.merge(Data::Bytes(b"2".to_vec()));
    assert_eq!(data.as_bytes().unwrap(), b"2".to_vec());
    assert!(matches!(data, Data::Bytes(_)));
}

#[test]
fn test_merge_json() {
    let mut data = json_data(r#"{"a":"1"}"#);
    data.merge(json_data(r#"{"b":"2"}"#));
    assert_eq!(data.as_bytes().unwrap(), br#"{"a":"1","b":"2"}"#.to_vec());
    assert!(matches!(data, Data::Json(_)));
}

#[test]
fn test_overwrite_empty() {
    let json_value = json_data(r#"{"a":"1"}"#);
    let string_data = Data::String("1".to_string());
    let byte_data = Data::Bytes(b"1".to_vec());

    let mut data = Data::Empty;
    data.merge(json_value);
    assert!(matches!(data, Data::Json(_)));
    let mut data = Data::Empty;
    data.merge(string_data);
    assert!(matches!(data, Data::String(_)));
    let mut data = Data::Empty;
    data.merge(byte_data);
    assert!(matches!(data, Data::Bytes(_)));
}

#[test]
fn test_skip_overwrite_if_empty() {
    let mut json_value = json_data(r#"{"a":"1"}"#);
    let mut string_data = Data::String("1".to_string());
    let mut byte_data = Data::Bytes(b"1".to_vec());

    json_value.merge(Data::Empty);
    assert!(matches!(json_value, Data::Json(_)));
    string_data.merge(Data::Empty);
    assert!(matches!(string_data, Data::String(_)));
    byte_data.merge(Data::Empty);
    assert!(matches!(byte_data, Data::Bytes(_)));
}

#[test]
fn merge_with_empty_keeps_either_side() {
    let mut a = Data::String("abc".to_string());
    a.merge(Data::Empty);
    assert_eq!(a, Data::String("abc".to_string()));
    let mut e = Data::Empty;
    e.merge(Data::Bytes(vec![1, 2]));
    assert_eq!(e, Data::Bytes(vec![1, 2]));
    let mut e = Data::Empty;
    e.merge(Data::Empty);
    assert_eq!(e, Data::Empty);
}

#[test]
fn deep_structured_merge_deletes_null_keys() {
    let mut seed = json_data(r#"{"a":{"b":1,"c":2}}"#);
    seed.merge(json_data(r#"{"a":{"c":null,"d":3}}"#));
    assert_eq!(seed.to_bytes().unwrap(), br#"{"a":{"b":1,"d":3}}"#.to_vec());
}

#[test]
fn structured_merge_is_not_commutative() {
    let mut ab = json_data(r#"{"k":1}"#);
    ab.merge(json_data(r#"{"k":2}"#));
    let mut ba = json_data(r#"{"k":2}"#);
    ba.merge(json_data(r#"{"k":1}"#));
    assert_eq!(ab.to_bytes().unwrap(), br#"{"k":2}"#.to_vec());
    assert_eq!(ba.to_bytes().unwrap(), br#"{"k":1}"#.to_vec());
}

#[test]
fn structured_merge_is_associative_on_disjoint_keys() {
    let a = r#"{"a":1}"#;
    let b = r#"{"b":{"x":true}}"#;
    let c = r#"{"c":"z"}"#;
    let mut left = json_data(a);
    left.merge(json_data(b));
    left.merge(json_data(c));
    let mut bc = json_data(b);
    bc.merge(json_data(c));
    let mut right = json_data(a);
    right.merge(bc);
    assert_eq!(left, right);
    assert_eq!(left.to_bytes().unwrap(), br#"{"a":1,"b":{"x":true},"c":"z"}"#.to_vec());
}

#[test]
fn non_object_replaces_structured_value() {
    let mut a = json_data(r#"{"a":1}"#);
    a.merge(json_data("[1,2]"));
    assert_eq!(a.to_bytes().unwrap(), b"[1,2]".to_vec());
}

#[test]
fn string_merge_appends() {
    let mut a = Data::String("ab".to_string());
    a.merge(Data::String("cd".to_string()));
    assert_eq!(a, Data::String("abcd".to_string()));
}

#[test]
fn bytes_merge_appends_bytes() {
    let mut a = Data::Bytes(vec![0xff]);
    a.merge(Data::Bytes(vec![0x00, 0x01]));
    assert_eq!(a, Data::Bytes(vec![0xff, 0x00, 0x01]));
}

#[test]
fn try_merge_bytes_reads_json_then_text_then_bytes() {
    let mut a = Data::Empty;
    a.try_merge_bytes(br#"{"x":1}"#);
    assert!(matches!(a, Data::Json(_)));
    let mut b = Data::Empty;
    b.try_merge_bytes("hé".as_bytes());
    assert_eq!(b, Data::String("hé".to_string()));
    let mut c = Data::Empty;
    c.try_merge_bytes(&[0xff, 0xfe]);
    assert_eq!(c, Data::Bytes(vec![0xff, 0xfe]));
}

#[test]
fn merge_policies() {
    let mut yes = Data::String("a".to_string());
    yes.merge_with_policy(Data::String("b".to_string()), MergePolicy::Yes);
    assert_eq!(yes, Data::String("ab".to_string()));
    let mut no = Data::String("a".to_string());
    no.merge_with_policy(Data::String("b".to_string()), MergePolicy::No);
    assert_eq!(no, Data::String("a".to_string()));
    let mut over = Data::String("a".to_string());
    over.merge_with_policy(Data::String("b".to_string()), MergePolicy::Overwrite);
    assert_eq!(over, Data::String("b".to_string()));
}

#[test]
fn payload_bytes_of_each_kind() {
    assert_eq!(Data::Empty.to_bytes().unwrap(), Vec::<u8>::new());
    assert_eq!(Data::String("é".to_string()).to_bytes().unwrap(), "é".as_bytes().to_vec());
    assert_eq!(json_data(r#"{"b":2,"a":1}"#).to_bytes().unwrap(), br#"{"a":1,"b":2}"#.to_vec());
    let bad_number = Data::Json(JsonValue::Number("not a number".to_string()));
    assert!(bad_number.to_bytes().is_none());
}

#[test]
fn data_from_bytes_rejects_wrong_type() {
    assert!(Data::from_bytes(vec![0xff], DataType::String).is_none());
    assert!(Data::from_bytes(b"{".to_vec(), DataType::Json).is_none());
    assert_eq!(Data::from_bytes(vec![0xff], DataType::Bytes).unwrap(), Data::Bytes(vec![0xff]));
}

#[test]
fn metadata_merges_deeply() {
    let mut m = Metadata(json(r#"{"a":{"b":1}}"#));
    m.merge(Metadata(json(r#"{"a":{"c":2}}"#)));
    assert_eq!(m.0.to_bytes().unwrap(), br#"{"a":{"b":1,"c":2}}"#.to_vec());
    let mut n = Metadata(JsonValue::Null);
    n.merge(Metadata(json(r#"{"z":0}"#)));
    assert_eq!(n.0.to_bytes().unwrap(), br#"{"z":0}"#.to_vec());
}
