use transit_rs::de::json as cached_de;
use transit_rs::de::json_verbose as verbose_de;
use transit_rs::de::Shape;
use transit_rs::json::Json;
use transit_rs::ser::json as cached_ser;
use transit_rs::ser::json_verbose as verbose_ser;
use transit_rs::value::Value;

fn boxed(shape: Shape) -> Box<Shape> {
    Box::new(shape)
}

fn text(v: &str) -> Value {
    Value::Str(v.to_owned())
}

fn samples() -> Vec<(Shape, Value)> {
    let words = Shape::List(boxed(Shape::Str));
    let by_number = Shape::MapOf(boxed(Shape::Int), boxed(words_shape()));
    vec![
        (Shape::Null, Value::Null),
        (Shape::Bool, Value::Bool(true)),
        (Shape::Int, Value::Int(i64::MIN)),
        (Shape::Int32, Value::Int(-2147483648)),
        (Shape::Str, text("")),
        (Shape::Str, text("~")),
        (Shape::Str, text("^")),
        (Shape::Str, text("~#cmap")),
        (Shape::Str, text("^0")),
        (Shape::Str, text("plain text")),
        (Shape::Instant, Value::Instant("1995-10-11T00:00:00Z".to_owned())),
        (Shape::Optional(boxed(Shape::Int)), Value::Null),
        (Shape::Optional(boxed(Shape::Int)), Value::Int(3)),
        (Shape::Optional(boxed(words_shape())), Value::Null),
        (words, Value::List(vec![text("^"), text("~#set"), text("^0"), text("x")])),
        (Shape::List(boxed(Shape::Int)), Value::List(vec![])),
        (
            Shape::SetOf(boxed(Shape::Instant)),
            Value::SetOf(vec![Value::Instant("a".to_owned()), Value::Instant("b".to_owned())]),
        ),
        (
            by_number,
            Value::MapOf(vec![
                (Value::Int(1), Value::List(vec![text("one")])),
                (Value::Int(-1), Value::List(vec![])),
            ]),
        ),
        (
            Shape::MapOf(boxed(Shape::Str), boxed(Shape::Int)),
            Value::MapOf(vec![
                (text("~i4"), Value::Int(1)),
                (text("^0"), Value::Int(2)),
                (text("long key"), Value::Int(3)),
                (text("~#cmap"), Value::Int(4)),
                (text(""), Value::Int(5)),
            ]),
        ),
        (
            Shape::MapOf(boxed(Shape::Optional(boxed(Shape::Str))), boxed(Shape::Bool)),
            Value::MapOf(vec![(Value::Null, Value::Bool(false)), (text("~_"), Value::Bool(true))]),
        ),
        (
            Shape::MapOf(boxed(words_shape()), boxed(Shape::Str)),
            Value::MapOf(vec![
                (Value::List(vec![text("a")]), text("first")),
                (Value::List(vec![]), text("second")),
            ]),
        ),
        (
            Shape::MapOf(boxed(Shape::Optional(boxed(words_shape()))), boxed(Shape::Int)),
            Value::MapOf(vec![(Value::Null, Value::Int(1))]),
        ),
        (
            Shape::MapOf(boxed(Shape::Optional(boxed(words_shape()))), boxed(Shape::Int)),
            Value::MapOf(vec![(Value::Null, Value::Int(1)), (Value::List(vec![]), Value::Int(2))]),
        ),
        (
            Shape::TaggedArray("~#point".to_owned(), boxed(Shape::Int32)),
            Value::TaggedArray("~#point".to_owned(), vec![Value::Int(13), Value::Int(37)]),
        ),
        (
            Shape::TaggedMap("~#".to_owned(), boxed(Shape::Str), boxed(Shape::Str)),
            Value::TaggedMap("~#".to_owned(), vec![(text("k"), text("v"))]),
        ),
        (
            Shape::List(boxed(Shape::TaggedMap(
                "~#user".to_owned(),
                boxed(Shape::Str),
                boxed(Shape::Optional(boxed(Shape::Str))),
            ))),
            Value::List(vec![
                Value::TaggedMap(
                    "~#user".to_owned(),
                    vec![(text("name"), text("Van")), (text("nickname"), Value::Null)],
                ),
                Value::TaggedMap(
                    "~#user".to_owned(),
                    vec![(text("name"), text("Billy")), (text("nickname"), text("name"))],
                ),
            ]),
        ),
    ]
}

fn words_shape() -> Shape {
    Shape::List(boxed(Shape::Str))
}

#[test]
fn what_the_verbose_surface_writes_is_read_back() {
    for (shape, value) in samples() {
        let doc = verbose_ser::to_transit_json(&value);
        assert!(doc.is_composite(), "{:?}", doc);
        assert_eq!(verbose_de::read_document(&shape, &doc).unwrap(), value, "{:?}", doc);
    }
}

#[test]
fn what_the_cached_surface_writes_is_read_back() {
    for (shape, value) in samples() {
        let doc = cached_ser::to_transit_json(&value).unwrap();
        assert!(doc.is_composite(), "{:?}", doc);
        assert_eq!(cached_de::read_document(&shape, &doc).unwrap(), value, "{:?}", doc);
    }
}

#[test]
fn the_surfaces_hold_the_same_value() {
    for (shape, value) in samples() {
        let cached = cached_ser::to_transit_json(&value).unwrap();
        let verbose = cached_de::transcode_to_verbose(&cached).unwrap();
        assert_eq!(verbose, verbose_ser::to_transit_json(&value));
        assert_eq!(verbose_de::read_document(&shape, &verbose).unwrap(), value);
    }
}

#[test]
fn typed_values_are_read_back() {
    let v: Vec<Option<String>> = vec![Some("~x".to_owned()), None, Some("long text".to_owned())];
    let back: Vec<Option<String>> =
        verbose_de::from_transit_json(&verbose_ser::to_transit_json(&v)).unwrap();
    assert_eq!(back, v);
    let back: Vec<Option<String>> =
        cached_de::from_transit_json(&cached_ser::to_transit_json(&v).unwrap()).unwrap();
    assert_eq!(back, v);

    let n: i32 = verbose_de::from_transit_json(&verbose_ser::to_transit_json(-7i32)).unwrap();
    assert_eq!(n, -7);
    let b: bool = cached_de::from_transit_json(&cached_ser::to_transit_json(true).unwrap()).unwrap();
    assert!(b);
}

#[test]
fn nodes_are_equal_whatever_the_order_of_members() {
    let s = |t: &str| Json::Str(t.to_owned());
    let a = Json::Object(vec![
        ("x".to_owned(), Json::Int(1)),
        ("y".to_owned(), Json::Array(vec![s("a"), Json::Null])),
    ]);
    let b = Json::Object(vec![
        ("y".to_owned(), Json::Array(vec![s("a"), Json::Null])),
        ("x".to_owned(), Json::Int(1)),
    ]);
    assert_eq!(a, b);
    assert!(a.same(&b));
    let c = Json::Object(vec![
        ("y".to_owned(), Json::Array(vec![Json::Null, s("a")])),
        ("x".to_owned(), Json::Int(1)),
    ]);
    assert_ne!(a, c);
    let d = Json::Object(vec![("x".to_owned(), Json::Int(1))]);
    assert_ne!(a, d);
    assert_ne!(d, a);
    assert_ne!(Json::Array(vec![]), Json::Object(vec![]));
    assert_ne!(Json::Int(0), Json::Bool(false));
    assert_ne!(s("1"), Json::Int(1));
    assert_eq!(Json::Array(vec![s("a"), s("b")]), Json::Array(vec![s("a"), s("b")]));
    assert_ne!(Json::Array(vec![s("a"), s("b")]), Json::Array(vec![s("b"), s("a")]));
}

#[test]
fn instants_are_written_by_the_calendar() {
    assert_eq!(
        Value::instant(813369600, 0),
        Some(Value::Instant("1995-10-11T00:00:00Z".to_owned()))
    );
    assert_eq!(Value::instant(0, 0), Some(Value::Instant("1970-01-01T00:00:00Z".to_owned())));
    assert_eq!(
        Value::instant(1, 500_000_000),
        Some(Value::Instant("1970-01-01T00:00:01.500Z".to_owned()))
    );
    assert_eq!(Value::instant(i64::MAX, 0), None);
    assert_eq!(
        verbose_ser::to_transit_json(Value::instant(813369600, 0).unwrap()),
        Json::Object(vec![("~#".to_owned(), Json::Str("~t1995-10-11T00:00:00Z".to_owned()))])
    );
}

#[test]
fn records_and_tuples_are_tagged_in_lower_case() {
    assert_eq!(
        Value::record("TemperatureChanged", vec![("room_name".to_owned(), text("Kitchen"))]),
        Value::TaggedMap(
            "~#temperaturechanged".to_owned(),
            vec![(text("room_name"), text("Kitchen"))]
        )
    );
    assert_eq!(
        Value::tuple("Point", vec![Value::Int(13), Value::Int(37)]),
        Value::TaggedArray("~#point".to_owned(), vec![Value::Int(13), Value::Int(37)])
    );
    assert_eq!(Value::tuple("ÄB", vec![]), Value::TaggedArray("~#äb".to_owned(), vec![]));
}

#[test]
fn well_formed_values_are_told_from_the_others() {
    for (_, value) in samples() {
        assert!(value.is_well_formed(), "{:?}", value);
        assert!(value.same(&value.clone()));
    }
    let twice = Value::MapOf(vec![(Value::Int(1), Value::Null), (Value::Int(1), Value::Null)]);
    assert!(!twice.is_well_formed());
    assert!(!Value::List(vec![Value::Null, twice]).is_well_formed());
    let deep = Value::MapOf(vec![
        (Value::List(vec![text("a")]), Value::Null),
        (Value::List(vec![text("a")]), Value::Int(1)),
    ]);
    assert!(!deep.is_well_formed());
    assert!(!Value::TaggedArray("point".to_owned(), vec![]).is_well_formed());
    assert!(!Value::TaggedMap("~point".to_owned(), vec![]).is_well_formed());
    assert!(Value::TaggedMap("~#".to_owned(), vec![]).is_well_formed());
    // a set holds each of its items once
    assert!(!Value::SetOf(vec![Value::Int(1), Value::Int(1)]).is_well_formed());
    assert!(!Value::SetOf(vec![text("a"), Value::List(vec![]), text("a")]).is_well_formed());
    assert!(Value::SetOf(vec![Value::Int(1), Value::Int(2)]).is_well_formed());
    assert!(Value::List(vec![Value::Int(1), Value::Int(1)]).is_well_formed());

    assert!(!Value::Int(1).same(&Value::Int(2)));
    assert!(!Value::Str("1".to_owned()).same(&Value::Instant("1".to_owned())));
    assert!(!Value::List(vec![]).same(&Value::SetOf(vec![])));
    assert!(!Value::List(vec![Value::Null]).same(&Value::List(vec![])));
    assert!(!Value::MapOf(vec![(Value::Null, Value::Int(1))])
        .same(&Value::MapOf(vec![(Value::Null, Value::Int(2))])));
    assert!(!Value::TaggedArray("~#a".to_owned(), vec![])
        .same(&Value::TaggedArray("~#b".to_owned(), vec![])));
}
