use transit_rs::de::json::{
    from_transit_json, read_document, transcode_to_verbose, JsonDeserializer,
};
use transit_rs::de::{ErrorKind, Shape, TransitDeserializer};
use transit_rs::json::Json;
use transit_rs::value::Value;

fn s(text: &str) -> Json {
    Json::Str(text.to_owned())
}

fn arr(items: Vec<Json>) -> Json {
    Json::Array(items)
}

fn obj(members: Vec<(&str, Json)>) -> Json {
    Json::Object(members.into_iter().map(|(k, v)| (k.to_owned(), v)).collect())
}

fn boxed(shape: Shape) -> Box<Shape> {
    Box::new(shape)
}

fn text(v: &str) -> Value {
    Value::Str(v.to_owned())
}

fn text_map(entries: &[(&str, &str)]) -> Value {
    Value::MapOf(entries.iter().map(|(k, v)| (text(k), text(v))).collect())
}

fn texts() -> Shape {
    Shape::MapOf(boxed(Shape::Str), boxed(Shape::Str))
}

#[test]
fn cached_scalar_map_is_read() {
    let doc = arr(vec![s("^"), s("~i-6"), s("swag"), s("~i4"), s("yolo")]);
    let shape = Shape::MapOf(boxed(Shape::Int32), boxed(Shape::Str));
    assert_eq!(
        read_document(&shape, &doc).unwrap(),
        Value::MapOf(vec![(Value::Int(-6), text("swag")), (Value::Int(4), text("yolo"))])
    );
    assert_eq!(
        transcode_to_verbose(&doc).unwrap(),
        obj(vec![("~i4", s("yolo")), ("~i-6", s("swag"))])
    );
}

#[test]
fn cached_composite_keys_are_read() {
    let doc = arr(vec![
        s("~#cmap"),
        arr(vec![arr(vec![s("^"), s("~?f"), s("tset"), s("~?t"), s("test")]), Json::Int(1337)]),
    ]);
    let shape = Shape::MapOf(
        boxed(Shape::MapOf(boxed(Shape::Bool), boxed(Shape::Str))),
        boxed(Shape::Int32),
    );
    assert_eq!(
        read_document(&shape, &doc).unwrap(),
        Value::MapOf(vec![(
            Value::MapOf(vec![
                (Value::Bool(false), text("tset")),
                (Value::Bool(true), text("test"))
            ]),
            Value::Int(1337)
        )])
    );
    assert_eq!(
        transcode_to_verbose(&doc).unwrap(),
        obj(vec![(
            "~#cmap",
            arr(vec![obj(vec![("~?t", s("test")), ("~?f", s("tset"))]), Json::Int(1337)])
        )])
    );
}

#[test]
fn cached_quoting_is_read() {
    let doc = arr(vec![s("~#"), Json::Int(5)]);
    assert_eq!(read_document(&Shape::Int, &doc).unwrap(), Value::Int(5));
    let n: i32 = from_transit_json(&doc).unwrap();
    assert_eq!(n, 5);
    assert_eq!(transcode_to_verbose(&doc).unwrap(), obj(vec![("~#", Json::Int(5))]));
    assert_eq!(
        read_document(&Shape::Int, &Json::Int(5)).unwrap_err().kind(),
        ErrorKind::DoNotMatch
    );
}

#[test]
fn cached_set_is_read() {
    let doc = arr(vec![s("~#set"), arr(vec![Json::Int(0), Json::Int(2), Json::Int(4)])]);
    assert_eq!(
        read_document(&Shape::SetOf(boxed(Shape::Int)), &doc).unwrap(),
        Value::SetOf(vec![Value::Int(0), Value::Int(2), Value::Int(4)])
    );
}

#[test]
fn references_are_resolved_in_the_order_of_the_document() {
    let doc = arr(vec![
        arr(vec![s("^"), s("key1"), s("one"), s("key2"), s("two")]),
        arr(vec![s("^"), s("ayy"), s("lmao"), s("^0"), s("three"), s("^1"), s("four")]),
        arr(vec![s("^"), s("^0"), s("five"), s("^1"), s("six")]),
    ]);
    assert_eq!(
        read_document(&Shape::List(boxed(texts())), &doc).unwrap(),
        Value::List(vec![
            text_map(&[("key1", "one"), ("key2", "two")]),
            text_map(&[("ayy", "lmao"), ("key1", "three"), ("key2", "four")]),
            text_map(&[("key1", "five"), ("key2", "six")]),
        ])
    );
    assert_eq!(
        transcode_to_verbose(&doc).unwrap(),
        arr(vec![
            obj(vec![("key1", s("one")), ("key2", s("two"))]),
            obj(vec![("ayy", s("lmao")), ("key1", s("three")), ("key2", s("four"))]),
            obj(vec![("key1", s("five")), ("key2", s("six"))]),
        ])
    );
}

#[test]
fn tags_are_resolved_like_keys() {
    let doc = arr(vec![
        arr(vec![
            s("~#set"),
            arr(vec![arr(vec![s("^"), s("key1"), s("one"), s("key2"), s("two")])]),
        ]),
        arr(vec![
            s("^0"),
            arr(vec![arr(vec![
                s("^"),
                s("ayy"),
                s("lmao"),
                s("^1"),
                s("three"),
                s("^2"),
                s("four"),
            ])]),
        ]),
    ]);
    assert_eq!(
        read_document(&Shape::List(boxed(Shape::SetOf(boxed(texts())))), &doc).unwrap(),
        Value::List(vec![
            Value::SetOf(vec![text_map(&[("key1", "one"), ("key2", "two")])]),
            Value::SetOf(vec![text_map(&[("ayy", "lmao"), ("key1", "three"), ("key2", "four")])]),
        ])
    );
}

#[test]
fn a_reference_to_nothing_is_a_miss() {
    let doc = arr(vec![s("^"), s("^0"), s("x")]);
    assert_eq!(read_document(&texts(), &doc).unwrap_err().kind(), ErrorKind::CacheMiss);
    let doc = arr(vec![s("^"), s("long key"), s("x"), s("^1"), s("y")]);
    assert_eq!(read_document(&texts(), &doc).unwrap_err().kind(), ErrorKind::CacheMiss);
    let doc = arr(vec![s("^7"), arr(vec![])]);
    assert_eq!(
        read_document(&Shape::SetOf(boxed(Shape::Int)), &doc).unwrap_err().kind(),
        ErrorKind::CacheMiss
    );
    // a short key is never in the cache
    let doc = arr(vec![arr(vec![s("^"), s("key"), s("x")]), arr(vec![s("^"), s("^0"), s("y")])]);
    assert_eq!(
        read_document(&Shape::List(boxed(texts())), &doc).unwrap_err().kind(),
        ErrorKind::CacheMiss
    );
}

#[test]
fn malformed_cached_documents() {
    // an object has no place on the cached surface
    assert_eq!(
        read_document(&texts(), &obj(vec![("a", s("b"))])).unwrap_err().kind(),
        ErrorKind::DoNotMatch
    );
    // a key without a value
    assert_eq!(
        read_document(&texts(), &arr(vec![s("^"), s("a")])).unwrap_err().kind(),
        ErrorKind::DoNotMatch
    );
    // a key that is no string
    assert_eq!(
        read_document(&texts(), &arr(vec![s("^"), Json::Int(1), s("a")])).unwrap_err().kind(),
        ErrorKind::DoNotMatch
    );
    // a tag with two payloads
    assert_eq!(
        read_document(
            &Shape::SetOf(boxed(Shape::Int)),
            &arr(vec![s("~#set"), arr(vec![]), arr(vec![])])
        )
        .unwrap_err()
        .kind(),
        ErrorKind::DoNotMatch
    );
    // a list where a map is expected
    assert_eq!(
        read_document(&texts(), &arr(vec![s("a"), s("b")])).unwrap_err().kind(),
        ErrorKind::DoNotMatch
    );
}

#[test]
fn too_many_keys_overflow_the_cache_of_the_decoder() {
    let doc = |n: i64| {
        let mut items = vec![s("^")];
        for i in 0..n {
            items.push(Json::Str(format!("key-{}", i)));
            items.push(Json::Int(i));
        }
        arr(items)
    };
    let shape = Shape::MapOf(boxed(Shape::Str), boxed(Shape::Int));
    assert!(read_document(&shape, &doc(1980)).is_ok());
    assert_eq!(
        read_document(&shape, &doc(1981)).unwrap_err().kind(),
        ErrorKind::CacheOverflow
    );
}

#[test]
fn the_cached_deserializer_keeps_its_cache_between_nodes() {
    let mut d = JsonDeserializer::new();
    let first = arr(vec![s("^"), s("long key"), Json::Int(1)]);
    let second = arr(vec![s("^"), s("^0"), Json::Int(2)]);
    let shape = Shape::MapOf(boxed(Shape::Str), boxed(Shape::Int));
    assert_eq!(
        d.deserialize_value(&shape, &first).unwrap(),
        Value::MapOf(vec![(text("long key"), Value::Int(1))])
    );
    assert_eq!(
        d.deserialize_value(&shape, &second).unwrap(),
        Value::MapOf(vec![(text("long key"), Value::Int(2))])
    );
    assert_eq!(d.deserialize_int(&Json::Int(3)).unwrap(), 3);
    assert_eq!(d.deserialize_key(&Shape::Int, "~i9").unwrap(), Value::Int(9));
    let mut fresh = JsonDeserializer::new();
    assert_eq!(
        fresh.deserialize_value(&shape, &second).unwrap_err().kind(),
        ErrorKind::CacheMiss
    );
}
