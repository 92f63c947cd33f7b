use std::collections::{BTreeMap, BTreeSet};
use transit_rs::de::ErrorKind;
use transit_rs::json::Json;
use transit_rs::ser::json::{to_transit_json, JsonSerializer};
use transit_rs::ser::{
    TransitArraySerializer, TransitMapSerializer, TransitSerialize, TransitTaggedArraySerializer,
    TransitTaggedMapSerializer,
};
use transit_rs::value::Value;

fn s(text: &str) -> Json {
    Json::Str(text.to_owned())
}

fn text(v: &str) -> Value {
    Value::Str(v.to_owned())
}

fn arr(items: Vec<Json>) -> Json {
    Json::Array(items)
}

fn pairs<K: TransitSerialize, V: TransitSerialize>(m: &BTreeMap<K, V>) -> Vec<(Value, Value)> {
    m.iter().map(|(k, v)| (k.to_value(), v.to_value())).collect()
}

fn text_map(entries: &[(&str, &str)]) -> Value {
    let mut m = BTreeMap::new();
    for (k, v) in entries {
        m.insert(*k, *v);
    }
    Value::MapOf(pairs(&m))
}

#[test]
fn json_scalar_map_btree() {
    let mut m = BTreeMap::new();
    m.insert(4, "yolo");
    m.insert(-6, "swag");

    let tr = to_transit_json(Value::MapOf(pairs(&m))).unwrap();
    assert_eq!(arr(vec![s("^"), s("~i-6"), s("swag"), s("~i4"), s("yolo")]), tr);
}

#[test]
fn json_map_composite_keys() {
    let mut key1: BTreeMap<bool, &str> = BTreeMap::new();
    key1.insert(true, "test");
    key1.insert(false, "tset");

    let mut m = BTreeMap::new();
    m.insert(key1, 1337);
    let value = Value::MapOf(
        m.iter().map(|(k, v)| (Value::MapOf(pairs(k)), v.to_value())).collect(),
    );

    let tr = to_transit_json(value).unwrap();
    assert_eq!(
        arr(vec![
            s("~#cmap"),
            arr(vec![
                arr(vec![s("^"), s("~?f"), s("tset"), s("~?t"), s("test")]),
                Json::Int(1337)
            ]),
        ]),
        tr
    );
}

#[test]
fn json_quoting() {
    let tr = to_transit_json(5i32).unwrap();
    assert_eq!(arr(vec![s("~#"), Json::Int(5)]), tr);
}

#[test]
fn json_tagged_set() {
    let mut hs = BTreeSet::new();
    hs.insert(0);
    hs.insert(2);
    hs.insert(4);

    let tr = to_transit_json(Value::SetOf(hs.iter().map(|x: &i32| x.to_value()).collect())).unwrap();
    assert_eq!(
        arr(vec![s("~#set"), arr(vec![Json::Int(0), Json::Int(2), Json::Int(4)])]),
        tr
    );
}

#[test]
fn json_array() {
    let mut m1 = BTreeMap::new();
    let mut m2 = BTreeMap::new();
    m1.insert("test", true);
    m1.insert("hih", true);
    m2.insert("ok", true);
    m2.insert("not ok", false);
    let v = vec![Box::new(Value::MapOf(pairs(&m1))), Box::new(Value::MapOf(pairs(&m2)))];

    let tr = to_transit_json(v).unwrap();
    assert_eq!(
        arr(vec![
            arr(vec![s("^"), s("hih"), Json::Bool(true), s("test"), Json::Bool(true)]),
            arr(vec![s("^"), s("not ok"), Json::Bool(false), s("ok"), Json::Bool(true)]),
        ]),
        tr
    );
}

#[test]
fn null() {
    let kek = Some("swag");
    let lol = None;
    let v = vec![kek, lol];
    let tr = to_transit_json(v).unwrap();

    assert_eq!(arr(vec![s("swag"), Json::Null]), tr);
}

#[test]
fn null_key() {
    let mut hm = BTreeMap::new();
    let lol: Option<i32> = None;
    hm.insert(lol, 1337);
    let tr = to_transit_json(Value::MapOf(pairs(&hm))).unwrap();

    assert_eq!(arr(vec![s("^"), s("~_"), Json::Int(1337)]), tr);
}

#[test]
fn some_key_is_the_key_of_what_is_inside() {
    let mut hm = BTreeMap::new();
    hm.insert(Some(7), "seven");
    hm.insert(None, "none");
    let tr = to_transit_json(Value::MapOf(pairs(&hm))).unwrap();

    assert_eq!(arr(vec![s("^"), s("~_"), s("none"), s("~i7"), s("seven")]), tr);
}

#[test]
fn repeated_keys_become_references() {
    let v = Value::List(vec![
        text_map(&[("key1", "one"), ("key2", "two")]),
        text_map(&[("ayy", "lmao"), ("key1", "three"), ("key2", "four")]),
        text_map(&[("key1", "five"), ("key2", "six")]),
    ]);
    let tr = to_transit_json(v).unwrap();
    assert_eq!(
        arr(vec![
            arr(vec![s("^"), s("key1"), s("one"), s("key2"), s("two")]),
            arr(vec![s("^"), s("ayy"), s("lmao"), s("^0"), s("three"), s("^1"), s("four")]),
            arr(vec![s("^"), s("^0"), s("five"), s("^1"), s("six")]),
        ]),
        tr
    );
}

#[test]
fn tags_and_keys_share_the_cache() {
    let v = Value::List(vec![
        Value::SetOf(vec![text_map(&[("key1", "one"), ("key2", "two")])]),
        Value::SetOf(vec![text_map(&[("ayy", "lmao"), ("key1", "three"), ("key2", "four")])]),
    ]);
    let tr = to_transit_json(v).unwrap();
    assert_eq!(
        arr(vec![
            arr(vec![
                s("~#set"),
                arr(vec![arr(vec![s("^"), s("key1"), s("one"), s("key2"), s("two")])])
            ]),
            arr(vec![
                s("^0"),
                arr(vec![arr(vec![
                    s("^"),
                    s("ayy"),
                    s("lmao"),
                    s("^1"),
                    s("three"),
                    s("^2"),
                    s("four")
                ])])
            ]),
        ]),
        tr
    );
}

#[test]
fn a_key_is_admitted_before_its_value_is_written() {
    // the key "outer" is written before the keys inside its value
    let inner = text_map(&[("inner", "x")]);
    let v = Value::List(vec![
        Value::MapOf(vec![(Value::Str("outer".to_owned()), inner)]),
        text_map(&[("inner", "y"), ("outer", "z")]),
    ]);
    let tr = to_transit_json(v).unwrap();
    assert_eq!(
        arr(vec![
            arr(vec![s("^"), s("outer"), arr(vec![s("^"), s("inner"), s("x")])]),
            arr(vec![s("^"), s("^1"), s("y"), s("^0"), s("z")]),
        ]),
        tr
    );
}

#[test]
fn cmap_tag_is_cached_too() {
    let composite = |n: i64| {
        Value::MapOf(vec![(Value::List(vec![Value::Int(n)]), Value::Int(n))])
    };
    let tr = to_transit_json(Value::List(vec![composite(1), composite(2)])).unwrap();
    assert_eq!(
        arr(vec![
            arr(vec![s("~#cmap"), arr(vec![arr(vec![Json::Int(1)]), Json::Int(1)])]),
            arr(vec![s("^0"), arr(vec![arr(vec![Json::Int(2)]), Json::Int(2)])]),
        ]),
        tr
    );
}

#[test]
fn mixed_keys_go_into_cmap_as_values() {
    let v = Value::MapOf(vec![
        (Value::Int(1), Value::Str("one".to_owned())),
        (Value::List(vec![]), Value::Str("list".to_owned())),
        (Value::Str("~x".to_owned()), Value::Null),
    ]);
    let tr = to_transit_json(v).unwrap();
    assert_eq!(
        arr(vec![
            s("~#cmap"),
            arr(vec![Json::Int(1), s("one"), arr(vec![]), s("list"), s("~~x"), Json::Null])
        ]),
        tr
    );
}

#[test]
fn empty_composites() {
    assert_eq!(to_transit_json(Value::MapOf(vec![])).unwrap(), arr(vec![s("^")]));
    assert_eq!(to_transit_json(Value::List(vec![])).unwrap(), arr(vec![]));
    assert_eq!(
        to_transit_json(Value::SetOf(vec![])).unwrap(),
        arr(vec![s("~#set"), arr(vec![])])
    );
}

#[test]
fn too_many_keys_overflow_the_cache() {
    let many = |n: i64| -> Value {
        Value::MapOf((0..n).map(|i| (Value::Str(format!("key-{}", i)), Value::Int(i))).collect())
    };
    assert!(to_transit_json(many(1980)).is_ok());
    let r = to_transit_json(many(1981));
    assert_eq!(r.unwrap_err().kind(), ErrorKind::CacheOverflow);
    // short keys never count
    let short = Value::MapOf((0..3000).map(|i| (Value::Int(i % 100), Value::Int(i))).collect());
    assert!(to_transit_json(short).is_ok());
}

#[test]
fn writers_of_the_cached_surface() {
    let mut ser = JsonSerializer::top();
    assert_eq!(ser.serialize_null(), arr(vec![s("~#"), Json::Null]));
    assert_eq!(ser.serialize_string("^x"), arr(vec![s("~#"), s("~^x")]));
    assert_eq!(ser.serialize_bool(true), arr(vec![s("~#"), Json::Bool(true)]));
    assert_eq!(ser.serialize_instant("2000-01-01T00:00:00Z"), arr(vec![s("~#"), s("~t2000-01-01T00:00:00Z")]));

    let mut w = ser.serialize_array(Some(2));
    w.serialize_item(Json::Int(1));
    w.serialize_item(Json::Int(2));
    assert_eq!(w.end(), arr(vec![Json::Int(1), Json::Int(2)]));

    assert_eq!(ser.serialize_key("long key").unwrap(), "long key");
    assert_eq!(ser.serialize_key("long key").unwrap(), "^0");
    assert_eq!(ser.serialize_key("key").unwrap(), "key");

    // every key has a key form: the array that begins with ^, the keys through the cache
    let mut m = ser.serialize_map(None);
    m.serialize_pair(text("a"), Value::Int(1));
    m.serialize_pair(text("long key"), Value::Int(2));
    m.serialize_pair(Value::Int(-12345), Value::Int(3));
    assert_eq!(
        m.end(&mut ser).unwrap(),
        arr(vec![
            s("^"),
            s("a"),
            Json::Int(1),
            s("^0"),
            Json::Int(2),
            s("~i-12345"),
            Json::Int(3)
        ])
    );

    // one key has none: the ~#cmap envelope, every key as a value and none through the cache
    let mut c = ser.serialize_map(Some(2));
    c.serialize_pair(Value::List(vec![]), Value::Int(1));
    c.serialize_pair(text("another long key"), Value::Int(2));
    assert_eq!(
        c.end(&mut ser).unwrap(),
        arr(vec![
            s("~#cmap"),
            arr(vec![arr(vec![]), Json::Int(1), s("another long key"), Json::Int(2)])
        ])
    );
    assert_eq!(ser.serialize_key("another long key").unwrap(), "another long key");

    // the tag of the envelope is in the cache now
    let mut c = ser.serialize_map(Some(0));
    c.serialize_pair(Value::SetOf(vec![]), Value::Null);
    assert_eq!(
        c.end(&mut ser).unwrap(),
        arr(vec![s("^2"), arr(vec![arr(vec![s("~#set"), arr(vec![])]), Json::Null])])
    );

    // no key at all
    assert_eq!(ser.serialize_map(None).end(&mut ser).unwrap(), arr(vec![s("^")]));

    // a tag passes through the cache when its writer is opened, before the map
    let mut t = ser.serialize_tagged_map("~#record", Some(1)).unwrap();
    t.serialize_pair(text("~#record"), text("long key"));
    assert_eq!(
        t.end(&mut ser).unwrap(),
        arr(vec![s("~#record"), arr(vec![s("^"), s("~~#record"), s("long key")])])
    );
    let mut t = ser.serialize_tagged_map("~#record", None).unwrap();
    t.serialize_pair(text("long key"), Value::Null);
    assert_eq!(
        t.end(&mut ser).unwrap(),
        arr(vec![s("^5"), arr(vec![s("^"), s("^0"), Json::Null])])
    );
    let mut t = ser.serialize_tagged_array("~#record", None).unwrap();
    t.serialize_item(Json::Int(1));
    assert_eq!(t.end(), arr(vec![s("^5"), arr(vec![Json::Int(1)])]));
}
