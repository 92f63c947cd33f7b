use chrono::{DateTime, TimeZone, Utc};
use std::cell::Cell;
use std::collections::{BTreeMap, BTreeSet};
use transit_rs::de::json_verbose::read_document;
use transit_rs::de::{Error, Shape};
use transit_rs::json::Json;
use transit_rs::ser::json_verbose::{to_transit_json, JsonSerializer};
use transit_rs::ser::{
    TransitArraySerializer, TransitKeySerializer, TransitMapSerializer, TransitSerialize,
    TransitSerializer, TransitTaggedArraySerializer, TransitTaggedMapSerializer,
};
use transit_rs::value::Value;

fn s(text: &str) -> Json {
    Json::Str(text.to_owned())
}

fn arr(items: Vec<Json>) -> Json {
    Json::Array(items)
}

fn obj(members: Vec<(&str, Json)>) -> Json {
    Json::Object(members.into_iter().map(|(k, v)| (k.to_owned(), v)).collect())
}

fn pairs<K: TransitSerialize, V: TransitSerialize>(m: &BTreeMap<K, V>) -> Vec<(Value, Value)> {
    m.iter().map(|(k, v)| (k.to_value(), v.to_value())).collect()
}

fn set<T: TransitSerialize>(items: &BTreeSet<T>) -> Value {
    Value::SetOf(items.iter().map(|x| x.to_value()).collect())
}

fn text(v: &str) -> Value {
    Value::Str(v.to_owned())
}

fn boxed(shape: Shape) -> Box<Shape> {
    Box::new(shape)
}

#[test]
fn json_verbose_scalar_map_btree() {
    let mut m = BTreeMap::new();
    m.insert(4, "yolo");
    m.insert(-6, "swag");

    let tr = to_transit_json(Value::MapOf(pairs(&m)));
    assert_eq!(obj(vec![("~i4", s("yolo")), ("~i-6", s("swag"))]), tr);

    // and read: the same document gives the same map
    let read = read_document(
        &Shape::MapOf(boxed(Shape::Int32), boxed(Shape::Str)),
        &obj(vec![("~i4", s("yolo")), ("~i-6", s("swag"))]),
    )
    .unwrap();
    let mut got: BTreeMap<i32, String> = BTreeMap::new();
    match read {
        Value::MapOf(read_pairs) => {
            for (k, v) in read_pairs {
                match (k, v) {
                    (Value::Int(k), Value::Str(v)) => {
                        got.insert(k as i32, v);
                    }
                    other => panic!("unexpected pair {:?}", other),
                }
            }
        }
        other => panic!("unexpected value {:?}", other),
    }
    let mut expected = BTreeMap::new();
    expected.insert(4, "yolo".to_owned());
    expected.insert(-6, "swag".to_owned());
    assert_eq!(expected, got);
}

#[test]
fn json_verbose_map_composite_keys() {
    let mut key1: BTreeMap<bool, &str> = BTreeMap::new();
    key1.insert(true, "test");
    key1.insert(false, "tset");

    let mut m = BTreeMap::new();
    m.insert(key1, 1337);
    let value = Value::MapOf(
        m.iter().map(|(k, v)| (Value::MapOf(pairs(k)), v.to_value())).collect(),
    );

    let tr = to_transit_json(&value);
    let doc = obj(vec![(
        "~#cmap",
        arr(vec![obj(vec![("~?t", s("test")), ("~?f", s("tset"))]), Json::Int(1337)]),
    )]);
    assert_eq!(doc, tr);

    // and read: the same document gives the same map
    let shape = Shape::MapOf(
        boxed(Shape::MapOf(boxed(Shape::Bool), boxed(Shape::Str))),
        boxed(Shape::Int32),
    );
    let read = read_document(&shape, &doc).unwrap();
    let mut got: BTreeMap<BTreeMap<bool, String>, i32> = BTreeMap::new();
    match read {
        Value::MapOf(read_pairs) => {
            for (k, v) in read_pairs {
                let mut key: BTreeMap<bool, String> = BTreeMap::new();
                match k {
                    Value::MapOf(inner) => {
                        for (ik, iv) in inner {
                            match (ik, iv) {
                                (Value::Bool(b), Value::Str(t)) => {
                                    key.insert(b, t);
                                }
                                other => panic!("unexpected pair {:?}", other),
                            }
                        }
                    }
                    other => panic!("unexpected key {:?}", other),
                }
                match v {
                    Value::Int(n) => {
                        got.insert(key, n as i32);
                    }
                    other => panic!("unexpected value {:?}", other),
                }
            }
        }
        other => panic!("unexpected value {:?}", other),
    }
    let mut expected_key: BTreeMap<bool, String> = BTreeMap::new();
    expected_key.insert(true, "test".to_owned());
    expected_key.insert(false, "tset".to_owned());
    let mut expected = BTreeMap::new();
    expected.insert(expected_key, 1337);
    assert_eq!(got, expected);
}

#[test]
fn json_verbose_quoting() {
    let tr = to_transit_json(5i32);
    assert_eq!(obj(vec![("~#", Json::Int(5))]), tr);
}

#[test]
fn json_verbose_tagged_set() {
    let mut hs = BTreeSet::new();
    hs.insert(0);
    hs.insert(2);
    hs.insert(4);

    let tr = to_transit_json(set(&hs));
    assert_eq!(
        obj(vec![("~#set", arr(vec![Json::Int(0), Json::Int(2), Json::Int(4)]))]),
        tr
    );
}

struct Test {
    yolo: &'static str,
    swag: i32,
    written: Cell<u32>,
}

impl TransitSerialize for Test {
    fn to_value(&self) -> Value {
        Value::TaggedMap(
            "~#test".to_owned(),
            vec![
                ("yolo".to_value(), self.yolo.to_value()),
                ("swag".to_value(), self.swag.to_value()),
            ],
        )
    }

    fn transit_serialize<S: TransitSerializer>(&self, serializer: &mut S) -> Result<S::Output, Error> {
        self.written.set(self.written.get() + 1);
        let mut ser = serializer.serialize_tagged_map("~#test", Some(2))?;
        ser.serialize_pair("yolo".to_value(), self.yolo.to_value());
        ser.serialize_pair("swag".to_value(), self.swag.to_value());
        ser.end(serializer)
    }

    fn transit_serialize_key<KS: TransitKeySerializer>(
        &self,
        _serializer: &mut KS,
    ) -> Option<Result<KS::Output, Error>> {
        None
    }
}

#[test]
fn custom_struct() {
    let t = Test {
        yolo: "test",
        swag: -1337,
        written: Cell::new(0),
    };
    let tr = to_transit_json(&t);
    assert_eq!(
        obj(vec![(
            "~#test",
            obj(vec![("yolo", s("test")), ("swag", Json::Int(-1337))])
        )]),
        tr
    );
    // the document was written by the writers that the type itself drives
    assert_eq!(t.written.get(), 1);
    assert_eq!(to_transit_json(Box::new(&t)), tr);
    assert_eq!(t.written.get(), 2);
    assert_eq!(to_transit_json(t.to_value()), tr);
}

#[test]
fn custom_struct_on_the_cached_surface() {
    let t = Test {
        yolo: "test",
        swag: -1337,
        written: Cell::new(0),
    };
    let tr = transit_rs::ser::json::to_transit_json(&t).unwrap();
    assert_eq!(
        Json::Array(vec![
            s("~#test"),
            arr(vec![s("^"), s("yolo"), s("test"), s("swag"), Json::Int(-1337)])
        ]),
        tr
    );
    assert_eq!(t.written.get(), 1);
    assert_eq!(transit_rs::ser::json::to_transit_json(t.to_value()).unwrap(), tr);
}

#[test]
fn custom_derive_stuct_map() {
    #[derive(Clone)]
    struct User {
        name: String,
        related: BTreeSet<String>,
        registered: DateTime<Utc>,
        skills_by_rates: BTreeMap<i32, BTreeSet<String>>,
    }

    impl TransitSerialize for User {
        fn to_value(&self) -> Value {
            Value::record(
                "User",
                vec![
                    ("name".to_owned(), self.name.to_value()),
                    ("related".to_owned(), set(&self.related)),
                    (
                        "registered".to_owned(),
                        Value::instant(
                            self.registered.timestamp(),
                            self.registered.timestamp_subsec_nanos(),
                        )
                        .unwrap(),
                    ),
                    (
                        "skills_by_rates".to_owned(),
                        Value::MapOf(
                            self.skills_by_rates
                                .iter()
                                .map(|(k, v)| (k.to_value(), set(v)))
                                .collect(),
                        ),
                    ),
                ],
            )
        }
    }

    let mut rel = BTreeSet::new();
    rel.insert("Billy".to_owned());
    rel.insert("Mark".to_owned());
    rel.insert("Steve".to_owned());

    let mut skills = BTreeMap::new();
    let mut hs1 = BTreeSet::new();
    hs1.insert("Linux".to_owned());
    hs1.insert("Git".to_owned());
    skills.insert(3, hs1);
    let mut hs2 = BTreeSet::new();
    hs2.insert("Performance artist".to_owned());
    skills.insert(2, hs2);
    let mut hs3 = BTreeSet::new();
    hs3.insert("Rust".to_owned());
    skills.insert(1, hs3);

    let u = User {
        name: "Van".to_owned(),
        related: rel,
        registered: Utc.with_ymd_and_hms(1995, 10, 11, 0, 0, 0).unwrap(),
        skills_by_rates: skills,
    };
    let tr = to_transit_json(u);
    assert_eq!(
        obj(vec![(
            "~#user",
            obj(vec![
                ("name", s("Van")),
                (
                    "related",
                    obj(vec![("~#set", arr(vec![s("Billy"), s("Mark"), s("Steve")]))])
                ),
                ("registered", s("~t1995-10-11T00:00:00Z")),
                (
                    "skills_by_rates",
                    obj(vec![
                        ("~i3", obj(vec![("~#set", arr(vec![s("Git"), s("Linux")]))])),
                        ("~i2", obj(vec![("~#set", arr(vec![s("Performance artist")]))])),
                        ("~i1", obj(vec![("~#set", arr(vec![s("Rust")]))])),
                    ])
                ),
            ])
        )]),
        tr
    );
}

#[test]
fn custom_derive_stuct_tuple() {
    #[derive(Clone)]
    struct Point(i32, i32);

    impl TransitSerialize for Point {
        fn to_value(&self) -> Value {
            Value::tuple("Point", vec![self.0.to_value(), self.1.to_value()])
        }
    }
    let p = Point(13, 37);

    let tr = to_transit_json(p);
    assert_eq!(obj(vec![("~#point", arr(vec![Json::Int(13), Json::Int(37)]))]), tr);
}

#[test]
fn custom_derive_enum() {
    #[derive(Clone)]
    enum Event {
        TemperatureChanged { room_name: String, temperature: i32 },
        GoneOffline(String),
        LightsStatus { room_names: Vec<String> },
    }

    impl TransitSerialize for Event {
        fn to_value(&self) -> Value {
            match self {
                Event::TemperatureChanged {
                    room_name,
                    temperature,
                } => Value::record(
                    "TemperatureChanged",
                    vec![
                        ("room_name".to_owned(), room_name.to_value()),
                        ("temperature".to_owned(), temperature.to_value()),
                    ],
                ),
                Event::GoneOffline(syn0) => Value::tuple("GoneOffline", vec![syn0.to_value()]),
                Event::LightsStatus { room_names } => Value::record(
                    "LightsStatus",
                    vec![("room_names".to_owned(), room_names.to_value())],
                ),
            }
        }
    }

    let e1 = Event::TemperatureChanged {
        room_name: "Kitchen".to_owned(),
        temperature: 32,
    };
    let tr1 = to_transit_json(e1);
    assert_eq!(
        obj(vec![(
            "~#temperaturechanged",
            obj(vec![("room_name", s("Kitchen")), ("temperature", Json::Int(32))])
        )]),
        tr1
    );

    let e2 = Event::GoneOffline("device".to_owned());
    let tr2 = to_transit_json(e2);
    assert_eq!(obj(vec![("~#goneoffline", arr(vec![s("device")]))]), tr2);

    let names = vec!["test1".to_owned(), "test2".to_owned()];
    let e3 = Event::LightsStatus { room_names: names };
    let tr3 = to_transit_json(e3);
    assert_eq!(
        obj(vec![(
            "~#lightsstatus",
            obj(vec![("room_names", arr(vec![s("test1"), s("test2")]))])
        )]),
        tr3
    );
}

#[test]
fn json_verbose_array() {
    let mut m1 = BTreeMap::new();
    let mut m2 = BTreeMap::new();
    m1.insert("test", true);
    m1.insert("hih", true);
    m2.insert("ok", true);
    m2.insert("not ok", false);
    let v = vec![Box::new(Value::MapOf(pairs(&m1))), Box::new(Value::MapOf(pairs(&m2)))];

    let tr = to_transit_json(v);
    assert_eq!(
        arr(vec![
            obj(vec![("test", Json::Bool(true)), ("hih", Json::Bool(true))]),
            obj(vec![("ok", Json::Bool(true)), ("not ok", Json::Bool(false))]),
        ]),
        tr
    );
}

#[test]
fn verbose_null_and_null_key() {
    let v = vec![Some("swag"), None];
    assert_eq!(to_transit_json(v), arr(vec![s("swag"), Json::Null]));

    let mut hm = BTreeMap::new();
    let lol: Option<i32> = None;
    hm.insert(lol, 1337);
    assert_eq!(
        to_transit_json(Value::MapOf(pairs(&hm))),
        obj(vec![("~_", Json::Int(1337))])
    );
}

#[test]
fn text_that_looks_like_a_code_is_escaped() {
    assert_eq!(to_transit_json("~foo"), obj(vec![("~#", s("~~foo"))]));
    assert_eq!(to_transit_json("^0"), obj(vec![("~#", s("~^0"))]));
    assert_eq!(to_transit_json("foo~"), obj(vec![("~#", s("foo~"))]));
    assert_eq!(to_transit_json(""), obj(vec![("~#", s(""))]));
    let m = Value::MapOf(vec![
        (Value::Str("~i4".to_owned()), Value::Int(1)),
        (Value::Int(4), Value::Int(2)),
        (Value::Str("~#cmap".to_owned()), Value::Int(3)),
    ]);
    assert_eq!(
        to_transit_json(m),
        obj(vec![("~~i4", Json::Int(1)), ("~i4", Json::Int(2)), ("~~#cmap", Json::Int(3))])
    );
}

#[test]
fn integer_keys_are_written_in_decimal() {
    let key = |n: i64| Value::Int(n).key().unwrap();
    assert_eq!(key(0), "~i0");
    assert_eq!(key(7), "~i7");
    assert_eq!(key(10), "~i10");
    assert_eq!(key(-1), "~i-1");
    assert_eq!(key(1234567890), "~i1234567890");
    assert_eq!(key(i64::MAX), "~i9223372036854775807");
    assert_eq!(key(i64::MIN), "~i-9223372036854775808");
    assert_eq!(Value::Bool(true).key().unwrap(), "~?t");
    assert_eq!(Value::Bool(false).key().unwrap(), "~?f");
    assert_eq!(Value::Null.key().unwrap(), "~_");
    assert_eq!(Value::Str("plain".to_owned()).key().unwrap(), "plain");
    assert_eq!(Value::Str("~plain".to_owned()).key().unwrap(), "~~plain");
    assert_eq!(Value::Instant("2000-01-01T00:00:00Z".to_owned()).key().unwrap(), "~t2000-01-01T00:00:00Z");
    assert_eq!(Value::List(vec![]).key(), None);
    assert_eq!(Value::MapOf(vec![]).key(), None);
    assert_eq!(Value::SetOf(vec![]).key(), None);
}

#[test]
fn a_map_goes_into_cmap_exactly_where_a_key_has_no_key_form() {
    let scalar = Value::MapOf(vec![
        (Value::Null, Value::Int(0)),
        (Value::Bool(true), Value::Int(1)),
        (Value::Int(2), Value::Int(2)),
        (Value::Str("three".to_owned()), Value::Int(3)),
    ]);
    assert_eq!(
        to_transit_json(scalar),
        obj(vec![
            ("~_", Json::Int(0)),
            ("~?t", Json::Int(1)),
            ("~i2", Json::Int(2)),
            ("three", Json::Int(3))
        ])
    );
    let mixed = Value::MapOf(vec![
        (Value::Bool(true), Value::Int(1)),
        (Value::SetOf(vec![]), Value::Int(2)),
    ]);
    assert_eq!(
        to_transit_json(mixed),
        obj(vec![(
            "~#cmap",
            arr(vec![
                Json::Bool(true),
                Json::Int(1),
                obj(vec![("~#set", arr(vec![]))]),
                Json::Int(2)
            ])
        )])
    );
    assert_eq!(to_transit_json(Value::MapOf(vec![])), obj(vec![]));
}

#[test]
fn a_key_written_twice_keeps_its_place_and_its_last_value() {
    let twice = Value::MapOf(vec![
        (Value::Int(1), Value::Str("first".to_owned())),
        (Value::Int(2), Value::Str("other".to_owned())),
        (Value::Int(1), Value::Str("last".to_owned())),
    ]);
    match to_transit_json(twice) {
        Json::Object(members) => {
            assert_eq!(members.len(), 2);
            assert_eq!(members[0], ("~i1".to_owned(), s("last")));
            assert_eq!(members[1], ("~i2".to_owned(), s("other")));
        }
        other => panic!("unexpected node {:?}", other),
    }
}

#[test]
fn writers_of_the_verbose_surface() {
    let top = JsonSerializer::top();
    let inner = JsonSerializer::default();
    assert_eq!(top.serialize_null(), obj(vec![("~#", Json::Null)]));
    assert_eq!(inner.serialize_null(), Json::Null);
    assert_eq!(top.serialize_int(-3), obj(vec![("~#", Json::Int(-3))]));
    assert_eq!(inner.serialize_bool(false), Json::Bool(false));
    assert_eq!(inner.serialize_string("~"), s("~~"));
    assert_eq!(inner.serialize_instant("x"), s("~tx"));
    assert_eq!(inner.serialize_key("~i5"), "~i5");

    let mut w = inner.serialize_array(None);
    w.serialize_item(Json::Int(1));
    assert_eq!(w.end(), arr(vec![Json::Int(1)]));

    // every key has a key form: the object of the key forms
    let mut inner = inner;
    let mut m = inner.serialize_map(Some(2));
    m.serialize_pair(text("a"), Value::Int(1));
    m.serialize_pair(Value::Int(7), Value::Int(2));
    assert_eq!(
        m.end(&mut inner).unwrap(),
        obj(vec![("~i7", Json::Int(2)), ("a", Json::Int(1))])
    );

    // one key has none: the ~#cmap envelope, every key as a value
    let mut c = inner.serialize_map(Some(3));
    c.serialize_pair(Value::Int(1), text("one"));
    c.serialize_pair(Value::List(vec![]), text("two"));
    c.serialize_pair(Value::Null, text("three"));
    assert_eq!(
        c.end(&mut inner).unwrap(),
        obj(vec![(
            "~#cmap",
            arr(vec![Json::Int(1), s("one"), arr(vec![]), s("two"), Json::Null, s("three")])
        )])
    );

    // no key at all: the empty object
    assert_eq!(inner.serialize_map(None).end(&mut inner).unwrap(), obj(vec![]));

    let mut t = top.serialize_tagged_array("~#pair", Some(2));
    t.serialize_item(Json::Int(1));
    t.serialize_item(Json::Int(2));
    assert_eq!(t.end(), obj(vec![("~#pair", arr(vec![Json::Int(1), Json::Int(2)]))]));

    let mut top = top;
    let mut t = top.serialize_tagged_map("~#rec", None);
    t.serialize_pair(text("x"), Value::Int(1));
    assert_eq!(t.end(&mut top).unwrap(), obj(vec![("~#rec", obj(vec![("x", Json::Int(1))]))]));
    let mut t = top.serialize_tagged_map("~#rec", None);
    t.serialize_pair(Value::SetOf(vec![]), Value::Int(1));
    assert_eq!(
        t.end(&mut top).unwrap(),
        obj(vec![(
            "~#rec",
            obj(vec![("~#cmap", arr(vec![obj(vec![("~#set", arr(vec![]))]), Json::Int(1)]))])
        )])
    );
}
