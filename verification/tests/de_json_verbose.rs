use std::collections::{BTreeMap, HashMap};
use transit_rs::de::json_verbose::{from_transit_json, read_document, JsonDeserializer};
use transit_rs::de::{ErrorKind, Shape, TransitDeserialize, TransitType};
use transit_rs::json::Json;
use transit_rs::value::Value;

fn s(text: &str) -> Json {
    Json::Str(text.to_owned())
}

fn arr(items: Vec<Json>) -> Json {
    Json::Array(items)
}

fn obj(members: Vec<(&str, Json)>) -> Json {
    Json::Object(members.into_iter().map(|(k, v)| (k.to_owned(), v)).collect())
}

fn boxed(shape: Shape) -> Box<Shape> {
    Box::new(shape)
}

fn text(v: &str) -> Value {
    Value::Str(v.to_owned())
}

fn kind_of(shape: &Shape, doc: &Json) -> ErrorKind {
    read_document(shape, doc).unwrap_err().kind()
}

#[test]
fn dumb_array() {
    let v = vec![1, 2, 3];
    let tr: Vec<i32> =
        from_transit_json(&arr(vec![Json::Int(1), Json::Int(2), Json::Int(3)])).unwrap();
    assert_eq!(v, tr);
}

#[test]
fn map_composite_keys_hashmap() {
    let mut key1: BTreeMap<bool, String> = BTreeMap::new();
    key1.insert(true, "test".to_owned());
    key1.insert(false, "tset".to_owned());

    let mut m = HashMap::new();
    m.insert(key1, 1337);

    let shape = Shape::MapOf(
        boxed(Shape::MapOf(boxed(Shape::Bool), boxed(Shape::Str))),
        boxed(Shape::Int32),
    );
    let read = read_document(
        &shape,
        &obj(vec![(
            "~#cmap",
            arr(vec![obj(vec![("~?t", s("test")), ("~?f", s("tset"))]), Json::Int(1337)]),
        )]),
    )
    .unwrap();
    let mut tr: HashMap<BTreeMap<bool, String>, i32> = HashMap::new();
    match read {
        Value::MapOf(pairs) => {
            for (k, v) in pairs {
                let mut key: BTreeMap<bool, String> = BTreeMap::new();
                match k {
                    Value::MapOf(inner) => {
                        for (ik, iv) in inner {
                            match (ik, iv) {
                                (Value::Bool(b), Value::Str(t)) => {
                                    key.insert(b, t);
                                }
                                other => panic!("unexpected pair {:?}", other),
                            }
                        }
                    }
                    other => panic!("unexpected key {:?}", other),
                }
                match v {
                    Value::Int(n) => {
                        tr.insert(key, n as i32);
                    }
                    other => panic!("unexpected value {:?}", other),
                }
            }
        }
        other => panic!("unexpected value {:?}", other),
    }
    assert_eq!(tr, m);
}

#[test]
fn a_bare_scalar_is_no_document() {
    assert_eq!(kind_of(&Shape::Int, &Json::Int(5)), ErrorKind::DoNotMatch);
    assert_eq!(kind_of(&Shape::Str, &s("five")), ErrorKind::DoNotMatch);
    assert_eq!(kind_of(&Shape::Null, &Json::Null), ErrorKind::DoNotMatch);
    assert_eq!(
        read_document(&Shape::Int, &obj(vec![("~#", Json::Int(5))])).unwrap(),
        Value::Int(5)
    );
    assert_eq!(
        read_document(&Shape::Optional(boxed(Shape::List(boxed(Shape::Int)))), &obj(vec![("~#", Json::Null)])).unwrap(),
        Value::Null
    );
}

#[test]
fn scalars_are_read_where_values_stand() {
    let quoted = |j: Json| obj(vec![("~#", j)]);
    assert_eq!(read_document(&Shape::Bool, &quoted(Json::Bool(true))).unwrap(), Value::Bool(true));
    assert_eq!(read_document(&Shape::Null, &quoted(Json::Null)).unwrap(), Value::Null);
    assert_eq!(read_document(&Shape::Str, &quoted(s("plain"))).unwrap(), text("plain"));
    assert_eq!(read_document(&Shape::Str, &quoted(s("~~tilde"))).unwrap(), text("~tilde"));
    assert_eq!(read_document(&Shape::Str, &quoted(s("~^caret"))).unwrap(), text("^caret"));
    assert_eq!(
        read_document(&Shape::Instant, &quoted(s("~t1995-10-11T00:00:00Z"))).unwrap(),
        Value::Instant("1995-10-11T00:00:00Z".to_owned())
    );
    assert_eq!(
        read_document(&Shape::Optional(boxed(Shape::Int)), &quoted(Json::Int(3))).unwrap(),
        Value::Int(3)
    );
    assert_eq!(kind_of(&Shape::Bool, &quoted(Json::Int(1))), ErrorKind::DoNotMatch);
    assert_eq!(kind_of(&Shape::Int, &quoted(s("~i5"))), ErrorKind::DoNotMatch);
    assert_eq!(kind_of(&Shape::Str, &quoted(s("~i5"))), ErrorKind::DoNotMatch);
    assert_eq!(kind_of(&Shape::Str, &quoted(s("^0"))), ErrorKind::DoNotMatch);
    assert_eq!(kind_of(&Shape::Str, &quoted(s("~"))), ErrorKind::DoNotMatch);
    assert_eq!(kind_of(&Shape::Instant, &quoted(s("1995"))), ErrorKind::DoNotMatch);
    assert_eq!(kind_of(&Shape::Null, &quoted(Json::Bool(false))), ErrorKind::DoNotMatch);
}

#[test]
fn integers_are_narrowed() {
    let quoted = |j: Json| obj(vec![("~#", j)]);
    assert_eq!(
        read_document(&Shape::Int32, &quoted(Json::Int(2147483647))).unwrap(),
        Value::Int(2147483647)
    );
    assert_eq!(
        read_document(&Shape::Int32, &quoted(Json::Int(-2147483648))).unwrap(),
        Value::Int(-2147483648)
    );
    assert_eq!(kind_of(&Shape::Int32, &quoted(Json::Int(2147483648))), ErrorKind::ItWontFit);
    assert_eq!(kind_of(&Shape::Int32, &quoted(Json::Int(-2147483649))), ErrorKind::ItWontFit);
    assert_eq!(
        read_document(&Shape::Int, &quoted(Json::Int(2147483648))).unwrap(),
        Value::Int(2147483648)
    );
    let r: Result<i32, _> = from_transit_json(&quoted(Json::Int(1i64 << 40)));
    assert_eq!(r.unwrap_err().kind(), ErrorKind::ItWontFit);
    let r: Result<i64, _> = from_transit_json(&quoted(Json::Int(1i64 << 40)));
    assert_eq!(r.unwrap(), 1i64 << 40);
}

#[test]
fn keys_are_read_from_their_key_forms() {
    let map_of = |k: Shape| Shape::MapOf(boxed(k), boxed(Shape::Int));
    let one = |key: &str| obj(vec![(key, Json::Int(1))]);
    let read = |k: Shape, key: &str| read_document(&map_of(k), &one(key));
    let pair = |k: Value| Value::MapOf(vec![(k, Value::Int(1))]);

    assert_eq!(read(Shape::Int, "~i12").unwrap(), pair(Value::Int(12)));
    assert_eq!(read(Shape::Int, "~i-12").unwrap(), pair(Value::Int(-12)));
    assert_eq!(read(Shape::Int, "~i007").unwrap(), pair(Value::Int(7)));
    assert_eq!(read(Shape::Int, "~i-0").unwrap(), pair(Value::Int(0)));
    assert_eq!(
        read(Shape::Int, "~i9223372036854775807").unwrap(),
        pair(Value::Int(i64::MAX))
    );
    assert_eq!(
        read(Shape::Int, "~i-9223372036854775808").unwrap(),
        pair(Value::Int(i64::MIN))
    );
    assert_eq!(read(Shape::Int, "~i9223372036854775808").unwrap_err().kind(), ErrorKind::ItWontFit);
    assert_eq!(read(Shape::Int, "~i-9223372036854775809").unwrap_err().kind(), ErrorKind::ItWontFit);
    assert_eq!(
        read(Shape::Int, "~i99999999999999999999999999999999999999999999").unwrap_err().kind(),
        ErrorKind::ItWontFit
    );
    assert_eq!(read(Shape::Int32, "~i2147483648").unwrap_err().kind(), ErrorKind::ItWontFit);
    assert_eq!(read(Shape::Int32, "~i2147483647").unwrap(), pair(Value::Int(2147483647)));
    for bad in ["~i", "~i-", "~i+5", "~i5x", "x~i5", "~i 5", "5", "~d5", "~i٣"] {
        assert_eq!(read(Shape::Int, bad).unwrap_err().kind(), ErrorKind::DoNotMatch, "{}", bad);
    }

    assert_eq!(read(Shape::Bool, "~?t").unwrap(), pair(Value::Bool(true)));
    assert_eq!(read(Shape::Bool, "~?f").unwrap(), pair(Value::Bool(false)));
    assert_eq!(read(Shape::Bool, "~?x").unwrap_err().kind(), ErrorKind::DoNotMatch);
    assert_eq!(read(Shape::Bool, "true").unwrap_err().kind(), ErrorKind::DoNotMatch);

    assert_eq!(read(Shape::Null, "~_").unwrap(), pair(Value::Null));
    assert_eq!(read(Shape::Null, "null").unwrap_err().kind(), ErrorKind::DoNotMatch);

    assert_eq!(read(Shape::Str, "plain").unwrap(), pair(text("plain")));
    assert_eq!(read(Shape::Str, "~~i5").unwrap(), pair(text("~i5")));
    assert_eq!(read(Shape::Str, "~i5").unwrap_err().kind(), ErrorKind::DoNotMatch);

    assert_eq!(
        read(Shape::Instant, "~t2000-01-01T00:00:00Z").unwrap(),
        pair(Value::Instant("2000-01-01T00:00:00Z".to_owned()))
    );

    assert_eq!(read(Shape::Optional(boxed(Shape::Int)), "~_").unwrap(), pair(Value::Null));
    assert_eq!(read(Shape::Optional(boxed(Shape::Int)), "~i3").unwrap(), pair(Value::Int(3)));
    assert_eq!(
        read(Shape::Optional(boxed(Shape::Str)), "~~_").unwrap(),
        pair(text("~_"))
    );
}

#[test]
fn a_tag_other_than_cmap_does_not_match_a_map_with_composite_keys() {
    let shape = Shape::MapOf(boxed(Shape::List(boxed(Shape::Int32))), boxed(Shape::Int32));
    let doc = obj(vec![("~#set", arr(vec![arr(vec![Json::Int(1)]), Json::Int(2)]))]);
    assert_eq!(kind_of(&shape, &doc), ErrorKind::DoNotMatch);
    // the same pairs under the tag expected
    let doc = obj(vec![("~#cmap", arr(vec![arr(vec![Json::Int(1)]), Json::Int(2)]))]);
    assert_eq!(
        read_document(&shape, &doc).unwrap(),
        Value::MapOf(vec![(Value::List(vec![Value::Int(1)]), Value::Int(2))])
    );
    // that something cannot be a key is the answer of reading a key text alone
    assert_eq!(
        transit_rs::de::impls::deserialize_key(&Shape::List(boxed(Shape::Int32)), "~#set")
            .unwrap_err()
            .kind(),
        ErrorKind::CannotBeKey
    );
    // a key of a scalar shape keeps its own error
    let narrow = Shape::MapOf(boxed(Shape::Int32), boxed(Shape::Int32));
    assert_eq!(
        kind_of(&narrow, &obj(vec![("~i99999999999", Json::Int(1))])),
        ErrorKind::ItWontFit
    );
}

#[test]
fn a_composite_cannot_be_a_key() {
    let one = obj(vec![("plain", Json::Int(1))]);
    for key in [
        Shape::List(boxed(Shape::Int)),
        Shape::SetOf(boxed(Shape::Int)),
        Shape::MapOf(boxed(Shape::Int), boxed(Shape::Int)),
        Shape::TaggedArray("~#t".to_owned(), boxed(Shape::Int)),
        Shape::TaggedMap("~#t".to_owned(), boxed(Shape::Int), boxed(Shape::Int)),
        Shape::Optional(boxed(Shape::List(boxed(Shape::Int)))),
    ] {
        let shape = Shape::MapOf(boxed(key), boxed(Shape::Int));
        assert_eq!(kind_of(&shape, &one), ErrorKind::DoNotMatch);
        // an empty object is the empty map, whatever the keys would be
        assert_eq!(read_document(&shape, &obj(vec![])).unwrap(), Value::MapOf(vec![]));
    }
    // the null key of an optional composite
    let shape = Shape::MapOf(
        boxed(Shape::Optional(boxed(Shape::List(boxed(Shape::Int))))),
        boxed(Shape::Int),
    );
    assert_eq!(
        read_document(&shape, &obj(vec![("~_", Json::Int(1))])).unwrap(),
        Value::MapOf(vec![(Value::Null, Value::Int(1))])
    );
}

#[test]
fn envelopes_are_checked() {
    let ints = Shape::SetOf(boxed(Shape::Int));
    let doc = obj(vec![("~#set", arr(vec![Json::Int(1), Json::Int(2)]))]);
    assert_eq!(
        read_document(&ints, &doc).unwrap(),
        Value::SetOf(vec![Value::Int(1), Value::Int(2)])
    );
    assert_eq!(kind_of(&ints, &arr(vec![Json::Int(1)])), ErrorKind::DoNotMatch);
    assert_eq!(kind_of(&ints, &obj(vec![("~#list", arr(vec![]))])), ErrorKind::DoNotMatch);
    assert_eq!(kind_of(&ints, &obj(vec![("~#set", obj(vec![]))])), ErrorKind::DoNotMatch);
    assert_eq!(
        kind_of(&ints, &obj(vec![("~#set", arr(vec![])), ("more", Json::Null)])),
        ErrorKind::DoNotMatch
    );
    // a set found where a map under ~#cmap is expected
    let map = Shape::MapOf(boxed(Shape::List(boxed(Shape::Int))), boxed(Shape::Int));
    assert_eq!(kind_of(&map, &doc), ErrorKind::DoNotMatch);
    // a map under ~#cmap with a key that has no value
    assert_eq!(
        kind_of(&map, &obj(vec![("~#cmap", arr(vec![arr(vec![])]))])),
        ErrorKind::DoNotMatch
    );
    assert_eq!(kind_of(&map, &obj(vec![("~#cmap", Json::Null)])), ErrorKind::DoNotMatch);
    assert_eq!(kind_of(&map, &arr(vec![])), ErrorKind::DoNotMatch);
    // scalar keys are read from ~#cmap too
    let scalar = Shape::MapOf(boxed(Shape::Int), boxed(Shape::Str));
    assert_eq!(
        read_document(&scalar, &obj(vec![("~#cmap", arr(vec![Json::Int(1), s("one")]))])).unwrap(),
        Value::MapOf(vec![(Value::Int(1), text("one"))])
    );

    let tagged = Shape::TaggedArray("~#point".to_owned(), boxed(Shape::Int));
    assert_eq!(
        read_document(&tagged, &obj(vec![("~#point", arr(vec![Json::Int(13), Json::Int(37)]))]))
            .unwrap(),
        Value::TaggedArray("~#point".to_owned(), vec![Value::Int(13), Value::Int(37)])
    );
    assert_eq!(
        kind_of(&tagged, &obj(vec![("~#other", arr(vec![]))])),
        ErrorKind::DoNotMatch
    );
    let record = Shape::TaggedMap("~#rec".to_owned(), boxed(Shape::Str), boxed(Shape::Int));
    assert_eq!(
        read_document(&record, &obj(vec![("~#rec", obj(vec![("x", Json::Int(1))]))])).unwrap(),
        Value::TaggedMap("~#rec".to_owned(), vec![(text("x"), Value::Int(1))])
    );
}

#[test]
fn the_first_error_in_the_document_decides() {
    let shape = Shape::List(boxed(Shape::Int32));
    let doc = arr(vec![Json::Int(1), Json::Int(1 << 40), s("x")]);
    assert_eq!(kind_of(&shape, &doc), ErrorKind::ItWontFit);
    let doc = arr(vec![Json::Int(1), s("x"), Json::Int(1 << 40)]);
    assert_eq!(kind_of(&shape, &doc), ErrorKind::DoNotMatch);
}

#[test]
fn the_deserializer_tells_nodes_apart() {
    let d = JsonDeserializer;
    assert_eq!(d.deserialize_string(&s("x")).unwrap(), "x");
    assert_eq!(d.deserialize_string(&Json::Int(1)).unwrap_err().kind(), ErrorKind::DoNotMatch);
    assert_eq!(d.deserialize_bool(&Json::Bool(true)).unwrap(), true);
    assert_eq!(d.deserialize_bool(&Json::Null).unwrap_err().kind(), ErrorKind::DoNotMatch);
    assert_eq!(d.deserialize_int(&Json::Int(-4)).unwrap(), -4);
    assert_eq!(d.deserialize_int(&s("4")).unwrap_err().kind(), ErrorKind::DoNotMatch);
    let a = arr(vec![Json::Null, Json::Null]);
    let (items, hint) = d.deserialize_array(&a).unwrap();
    assert_eq!((items.len(), hint), (2, Some(2)));
    assert_eq!(d.deserialize_array(&obj(vec![])).unwrap_err().kind(), ErrorKind::DoNotMatch);
    let o = obj(vec![("k", Json::Null)]);
    let (members, hint) = d.deserialize_map(&o).unwrap();
    assert_eq!((members[0].0.as_str(), hint), ("k", Some(1)));
    assert_eq!(d.deserialize_map(&a).unwrap_err().kind(), ErrorKind::DoNotMatch);
}

#[test]
fn typed_targets() {
    let quoted = |j: Json| obj(vec![("~#", j)]);
    let b: bool = from_transit_json(&quoted(Json::Bool(true))).unwrap();
    assert!(b);
    let t: String = from_transit_json(&quoted(s("~~x"))).unwrap();
    assert_eq!(t, "~x");
    let o: Option<i32> = from_transit_json(&quoted(Json::Null)).unwrap();
    assert_eq!(o, None);
    let o: Option<i32> = from_transit_json(&quoted(Json::Int(3))).unwrap();
    assert_eq!(o, Some(3));
    let v: Vec<Option<String>> = from_transit_json(&arr(vec![s("a"), Json::Null])).unwrap();
    assert_eq!(v, vec![Some("a".to_owned()), None]);
    let v: Vec<Vec<i64>> = from_transit_json(&arr(vec![arr(vec![Json::Int(1)]), arr(vec![])])).unwrap();
    assert_eq!(v, vec![vec![1], vec![]]);
    let r: Result<Vec<bool>, _> = from_transit_json(&arr(vec![Json::Int(1)]));
    assert_eq!(r.unwrap_err().kind(), ErrorKind::DoNotMatch);

    assert_eq!(<bool as TransitDeserialize>::transit_type(), TransitType::Scalar);
    assert_eq!(<Option<String> as TransitDeserialize>::transit_type(), TransitType::Scalar);
    assert_eq!(<Vec<i32> as TransitDeserialize>::transit_type(), TransitType::Composite);
    assert_eq!(<Option<Vec<i32>> as TransitDeserialize>::transit_type(), TransitType::Composite);
    assert_eq!(<Vec<i32> as TransitDeserialize>::shape(), Shape::List(boxed(Shape::Int32)));
}
