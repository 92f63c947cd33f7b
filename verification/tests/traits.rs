use transit_rs::de::json::JsonDeserializer as CachedDeserializer;
use transit_rs::de::json_verbose::JsonDeserializer;
use transit_rs::de::{Error, ErrorKind, TransitDeserialize, TransitDeserializer};
use transit_rs::json::Json;
use transit_rs::ser::json::JsonSerializer as CachedSerializer;
use transit_rs::ser::json_verbose::JsonSerializer;
use transit_rs::ser::key::TfSerializeKey;
use transit_rs::ser::{TransitKeySerializer, TransitSerialize, TransitSerializer};
use transit_rs::value::Value;

fn s(text: &str) -> Json {
    Json::Str(text.to_owned())
}

fn arr(items: Vec<Json>) -> Json {
    Json::Array(items)
}

fn obj(members: Vec<(&str, Json)>) -> Json {
    Json::Object(members.into_iter().map(|(k, v)| (k.to_owned(), v)).collect())
}

fn write_with<S: TransitSerializer, T: TransitSerialize>(serializer: &mut S, v: &T) -> S::Output {
    v.transit_serialize(serializer).map_err(|e| e.message()).unwrap()
}

fn key_with<S: TransitKeySerializer, T: TransitSerialize>(
    serializer: &mut S,
    v: &T,
) -> Option<S::Output> {
    v.transit_serialize_key(serializer).map(|r| r.map_err(|e| e.message()).unwrap())
}

#[test]
fn a_value_is_written_with_the_encoder_of_any_surface() {
    let v = vec![Some(7i32), None];
    let mut verbose = JsonSerializer::default();
    assert_eq!(write_with(&mut verbose, &v), arr(vec![Json::Int(7), Json::Null]));
    let mut top = JsonSerializer::top();
    assert_eq!(write_with(&mut top, &true), obj(vec![("~#", Json::Bool(true))]));
    let mut cached = CachedSerializer::top();
    assert_eq!(write_with(&mut cached, &"text"), arr(vec![s("~#"), s("text")]));
    assert_eq!(write_with(&mut cached, &v), arr(vec![Json::Int(7), Json::Null]));
    assert_eq!(write_with(&mut cached, &Box::new(5i64)), arr(vec![s("~#"), Json::Int(5)]));
}

#[test]
fn a_key_is_written_with_the_encoder_of_any_surface() {
    let mut verbose = JsonSerializer::default();
    assert_eq!(key_with(&mut verbose, &5i32), Some("~i5".to_owned()));
    assert_eq!(key_with(&mut verbose, &true), Some("~?t".to_owned()));
    assert_eq!(key_with(&mut verbose, &"long key"), Some("long key".to_owned()));
    assert_eq!(key_with(&mut verbose, &"long key"), Some("long key".to_owned()));
    assert_eq!(key_with(&mut verbose, &None::<i32>), Some("~_".to_owned()));
    assert_eq!(key_with(&mut verbose, &Some(3i64)), Some("~i3".to_owned()));
    assert_eq!(key_with(&mut verbose, &vec![1i32]), None);
    assert_eq!(key_with(&mut verbose, &Value::SetOf(vec![])), None);

    let mut cached = CachedSerializer::top();
    assert_eq!(key_with(&mut cached, &"long key"), Some("long key".to_owned()));
    assert_eq!(key_with(&mut cached, &"long key"), Some("^0".to_owned()));
    assert_eq!(key_with(&mut cached, &-12345i64), Some("~i-12345".to_owned()));
    assert_eq!(key_with(&mut cached, &-12345i64), Some("^1".to_owned()));
    assert_eq!(key_with(&mut cached, &vec![1i32]), None);
}

#[test]
fn a_value_is_read_with_the_decoder_of_any_surface() {
    let mut verbose = JsonDeserializer;
    let v: Vec<Option<i32>> =
        TransitDeserialize::transit_deserialize(&mut verbose, &arr(vec![Json::Int(7), Json::Null]))
            .unwrap();
    assert_eq!(v, vec![Some(7), None]);
    let k: i64 = TransitDeserialize::transit_deserialize_key(&verbose, "~i-4").unwrap();
    assert_eq!(k, -4);
    let r: Result<Vec<i32>, Error> = TransitDeserialize::transit_deserialize_key(&verbose, "~i-4");
    assert_eq!(r.unwrap_err().kind(), ErrorKind::CannotBeKey);

    let mut cached = CachedDeserializer::new();
    let v: Vec<String> =
        TransitDeserialize::transit_deserialize(&mut cached, &arr(vec![s("a"), s("~~b")])).unwrap();
    assert_eq!(v, vec!["a".to_owned(), "~b".to_owned()]);
    let b: bool = TransitDeserialize::transit_deserialize_key(&cached, "~?f").unwrap();
    assert!(!b);
    assert_eq!(verbose.deserialize_key(&i64::shape(), "~i1").unwrap(), Value::Int(1));
}

#[test]
fn errors_carry_their_messages() {
    let e = Error::DoNotMatch("not a list".to_owned());
    assert_eq!(e.kind(), ErrorKind::DoNotMatch);
    assert_eq!(e.message(), "not a list");
    let e = Error::ItWontFit("too large".to_owned());
    assert_eq!((e.kind(), e.message()), (ErrorKind::ItWontFit, "too large".to_owned()));
    let e = Error::CannotBeKey("a list cannot be a key");
    assert_eq!((e.kind(), e.message()), (ErrorKind::CannotBeKey, "a list cannot be a key".to_owned()));
    let e = Error::CacheMiss("^7".to_owned());
    assert_eq!((e.kind(), e.message()), (ErrorKind::CacheMiss, "^7".to_owned()));
    let e = Error::CacheOverflow;
    assert_eq!((e.kind(), e.message()), (ErrorKind::CacheOverflow, String::new()));
}

#[test]
fn key_forms_of_the_scalars() {
    assert_eq!("text".to_owned().serialize_key(), "text");
    assert_eq!("~text".to_owned().serialize_key(), "~~text");
    assert_eq!("^text".to_owned().serialize_key(), "~^text");
    assert_eq!(true.serialize_key(), "~?t");
    assert_eq!(false.serialize_key(), "~?f");
    assert_eq!(42i32.serialize_key(), "~i42");
    assert_eq!((-42i32).serialize_key(), "~i-42");
    assert_eq!(i32::MIN.serialize_key(), "~i-2147483648");
    assert_eq!(42i64.serialize_key(), "~i42");
    assert_eq!(i64::MIN.serialize_key(), "~i-9223372036854775808");
    assert_eq!(42u32.serialize_key(), "~i42");
    assert_eq!(u32::MAX.serialize_key(), "~i4294967295");
}
