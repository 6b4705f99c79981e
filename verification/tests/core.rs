//! Scenario tests for the merge engine, the coercion table, enum
//! resolution, path navigation and the RON adapter.

use confval::de::{deserialize, DeErrorKind, Field, Shape, Typed, VariantDef, VariantShape};
use confval::merge::{merge, merge_values, Source};
use confval::ronfmt::parse;
use confval::value::{get_at, Kind, Value, ValueKind};

fn v(kind: ValueKind) -> Value {
    Value { origin: None, kind }
}

fn table(entries: Vec<(&str, Value)>) -> Value {
    v(ValueKind::Table(
        entries.into_iter().map(|(k, val)| (k.to_string(), val)).collect(),
    ))
}

fn source(value_root: Value) -> Source {
    Source { origin: None, value_root }
}

fn lookup<'a>(tree: &'a Value, key: &str) -> Option<&'a Value> {
    get_at(tree, &vec![key.to_string()])
}

#[test]
fn merge_last_writer_wins() {
    let a = table(vec![
        ("kept", v(ValueKind::Integer(1))),
        ("overridden", v(ValueKind::Integer(2))),
    ]);
    let b = table(vec![("other", v(ValueKind::Boolean(true)))]);
    let c = table(vec![("overridden", v(ValueKind::Integer(99)))]);

    let two = merge(vec![
        source(table(vec![
            ("kept", v(ValueKind::Integer(1))),
            ("overridden", v(ValueKind::Integer(2))),
        ])),
        source(table(vec![("other", v(ValueKind::Boolean(true)))])),
    ]);
    assert_eq!(lookup(&two, "overridden"), Some(&v(ValueKind::Integer(2))));

    let three = merge(vec![source(a), source(b), source(c)]);
    assert_eq!(lookup(&three, "overridden"), Some(&v(ValueKind::Integer(99))));
    assert_eq!(lookup(&three, "kept"), Some(&v(ValueKind::Integer(1))));
    assert_eq!(lookup(&three, "other"), Some(&v(ValueKind::Boolean(true))));
}

#[test]
fn merge_null_override() {
    let first = table(vec![("x", v(ValueKind::Integer(1)))]);
    let second = table(vec![("x", v(ValueKind::Nil))]);
    let merged = merge(vec![source(first), source(second)]);

    let x = lookup(&merged, "x").expect("key must stay present");
    assert_eq!(x.kind, ValueKind::Nil);

    let opt = deserialize(x, &Shape::Optional(Box::new(Shape::Int)), &mut Vec::new());
    assert_eq!(opt.unwrap(), Typed::OptNone);
}

#[test]
fn merge_array_replace() {
    let first = table(vec![(
        "arr",
        v(ValueKind::Array(vec![
            v(ValueKind::Integer(1)),
            v(ValueKind::Integer(2)),
        ])),
    )]);
    let second = table(vec![(
        "arr",
        v(ValueKind::Array(vec![v(ValueKind::Integer(9))])),
    )]);
    let merged = merge(vec![source(first), source(second)]);

    assert_eq!(
        lookup(&merged, "arr"),
        Some(&v(ValueKind::Array(vec![v(ValueKind::Integer(9))])))
    );
}

#[test]
fn merge_deep_tables_and_identity() {
    let first = table(vec![(
        "db",
        table(vec![
            ("host", v(ValueKind::Str("localhost".to_string()))),
            ("port", v(ValueKind::Integer(5432))),
        ]),
    )]);
    let second = table(vec![("db", table(vec![("port", v(ValueKind::Integer(6543)))]))]);
    let merged = merge_values(first, second);

    let port = get_at(&merged, &vec!["db".to_string(), "port".to_string()]);
    assert_eq!(port, Some(&v(ValueKind::Integer(6543))));
    let host = get_at(&merged, &vec!["db".to_string(), "host".to_string()]);
    assert_eq!(host, Some(&v(ValueKind::Str("localhost".to_string()))));

    let empty = merge(vec![]);
    assert_eq!(empty.kind, ValueKind::Table(vec![]));

    let single = merge(vec![source(table(vec![("k", v(ValueKind::Integer(7)))]))]);
    assert_eq!(lookup(&single, "k"), Some(&v(ValueKind::Integer(7))));
}

#[test]
fn primitive_round_trips() {
    let b = v(ValueKind::Boolean(true));
    assert_eq!(
        deserialize(&b, &Shape::Bool, &mut Vec::new()).unwrap(),
        Typed::Bool(true)
    );

    let i = v(ValueKind::Integer(-42));
    assert_eq!(
        deserialize(&i, &Shape::Int, &mut Vec::new()).unwrap(),
        Typed::Int(-42)
    );

    let f = v(ValueKind::Float(2.75f64.to_bits()));
    assert_eq!(
        deserialize(&f, &Shape::Float, &mut Vec::new()).unwrap(),
        Typed::Float(2.75f64.to_bits())
    );

    let s = v(ValueKind::Str("hello".to_string()));
    assert_eq!(
        deserialize(&s, &Shape::Str, &mut Vec::new()).unwrap(),
        Typed::Str("hello".to_string())
    );
}

fn diode_shape() -> Shape {
    Shape::Enum(
        "Diode".to_string(),
        vec![
            VariantDef { name: "Off".to_string(), payload: VariantShape::Unit },
            VariantDef {
                name: "Brightness".to_string(),
                payload: VariantShape::Newtype(Box::new(Shape::Int)),
            },
            VariantDef {
                name: "Blinking".to_string(),
                payload: VariantShape::Tuple(vec![Shape::Int, Shape::Int]),
            },
        ],
    )
}

#[test]
fn enum_string_form() {
    let off = v(ValueKind::Str("Off".to_string()));
    assert_eq!(
        deserialize(&off, &diode_shape(), &mut Vec::new()).unwrap(),
        Typed::Variant("Off".to_string(), Box::new(Typed::Unit))
    );
}

#[test]
fn enum_single_key_table() {
    let bright = table(vec![("Brightness", v(ValueKind::Integer(100)))]);
    assert_eq!(
        deserialize(&bright, &diode_shape(), &mut Vec::new()).unwrap(),
        Typed::Variant("Brightness".to_string(), Box::new(Typed::Int(100)))
    );

    let blink = table(vec![(
        "Blinking",
        v(ValueKind::Array(vec![
            v(ValueKind::Integer(300)),
            v(ValueKind::Integer(700)),
        ])),
    )]);
    assert_eq!(
        deserialize(&blink, &diode_shape(), &mut Vec::new()).unwrap(),
        Typed::Variant(
            "Blinking".to_string(),
            Box::new(Typed::Tuple(vec![Typed::Int(300), Typed::Int(700)]))
        )
    );
}

#[test]
fn enum_ambiguity_rejected() {
    let two_keys = table(vec![
        ("Brightness", v(ValueKind::Integer(100))),
        ("Off", v(ValueKind::Nil)),
    ]);
    let e = deserialize(&two_keys, &diode_shape(), &mut Vec::new()).unwrap_err();
    assert!(matches!(
        e.kind,
        DeErrorKind::AmbiguousEnumRepresentation { .. }
    ));

    let arr = v(ValueKind::Array(vec![
        v(ValueKind::Integer(100)),
        v(ValueKind::Integer(100)),
    ]));
    let e2 = deserialize(&arr, &diode_shape(), &mut Vec::new()).unwrap_err();
    assert!(matches!(
        e2.kind,
        DeErrorKind::AmbiguousEnumRepresentation { .. }
    ));
}

#[test]
fn bool_coercion() {
    for text in ["true", "TRUE", "True", "1", "on", "yes"] {
        let val = v(ValueKind::Str(text.to_string()));
        assert_eq!(
            deserialize(&val, &Shape::Bool, &mut Vec::new()).unwrap(),
            Typed::Bool(true),
            "{} should coerce to true",
            text
        );
    }
    for text in ["false", "FALSE", "0", "off", "no"] {
        let val = v(ValueKind::Str(text.to_string()));
        assert_eq!(
            deserialize(&val, &Shape::Bool, &mut Vec::new()).unwrap(),
            Typed::Bool(false),
            "{} should coerce to false",
            text
        );
    }
    let bad = v(ValueKind::Str("fals".to_string()));
    let e = deserialize(&bad, &Shape::Bool, &mut Vec::new()).unwrap_err();
    assert!(matches!(
        e.kind,
        DeErrorKind::TypeMismatch { expected: Kind::Boolean, .. }
    ));
}

#[test]
fn int_coercion() {
    let ok = v(ValueKind::Str("123".to_string()));
    assert_eq!(
        deserialize(&ok, &Shape::Int, &mut Vec::new()).unwrap(),
        Typed::Int(123)
    );

    let neg = v(ValueKind::Str("-7".to_string()));
    assert_eq!(
        deserialize(&neg, &Shape::Int, &mut Vec::new()).unwrap(),
        Typed::Int(-7)
    );

    let min = v(ValueKind::Str("-9223372036854775808".to_string()));
    assert_eq!(
        deserialize(&min, &Shape::Int, &mut Vec::new()).unwrap(),
        Typed::Int(i64::MIN)
    );

    for text in ["", "-", "12a", "99999999999999999999"] {
        let bad = v(ValueKind::Str(text.to_string()));
        let e = deserialize(&bad, &Shape::Int, &mut Vec::new()).unwrap_err();
        assert!(
            matches!(e.kind, DeErrorKind::TypeMismatch { expected: Kind::Integer, .. }),
            "{:?} should not coerce",
            text
        );
    }
}

#[test]
fn tuple_arity_mismatch() {
    let arr = v(ValueKind::Array(vec![v(ValueKind::Integer(1))]));
    let shape = Shape::Tuple(vec![Shape::Int, Shape::Int]);
    let e = deserialize(&arr, &shape, &mut Vec::new()).unwrap_err();
    assert!(matches!(
        e.kind,
        DeErrorKind::ArityMismatch { expected: 2, found: 1 }
    ));
}

#[test]
fn missing_field_reported() {
    let t = table(vec![("present", v(ValueKind::Integer(1)))]);
    let shape = Shape::Record(vec![Field {
        name: "absent".to_string(),
        alias: None,
        shape: Shape::Int,
    }]);
    let e = deserialize(&t, &shape, &mut Vec::new()).unwrap_err();
    match e.kind {
        DeErrorKind::MissingField { field } => assert_eq!(field, "absent"),
        other => panic!("wrong error {:?}", other),
    }
}

#[test]
fn sequence_error_paths_use_indices() {
    let arr = v(ValueKind::Array(vec![
        v(ValueKind::Integer(0)),
        v(ValueKind::Integer(1)),
        v(ValueKind::Str("oops".to_string())),
    ]));
    let t = table(vec![("items", arr)]);
    let shape = Shape::Record(vec![Field {
        name: "items".to_string(),
        alias: None,
        shape: Shape::Sequence(Box::new(Shape::Int)),
    }]);
    let e = deserialize(&t, &shape, &mut Vec::new()).unwrap_err();
    assert_eq!(e.path_string(), "items.2");
}

#[test]
fn unknown_keys_ignored() {
    let t = table(vec![
        ("wanted", v(ValueKind::Integer(5))),
        ("extra", v(ValueKind::Str("ignored".to_string()))),
    ]);
    let shape = Shape::Record(vec![Field {
        name: "wanted".to_string(),
        alias: None,
        shape: Shape::Int,
    }]);
    assert_eq!(
        deserialize(&t, &shape, &mut Vec::new()).unwrap(),
        Typed::Record(vec![("wanted".to_string(), Typed::Int(5))])
    );
}

#[test]
fn get_at_navigation() {
    let tree = table(vec![(
        "a",
        table(vec![("b", v(ValueKind::Integer(3)))]),
    )]);
    assert_eq!(
        get_at(&tree, &vec!["a".to_string(), "b".to_string()]),
        Some(&v(ValueKind::Integer(3)))
    );
    assert_eq!(get_at(&tree, &vec!["a".to_string(), "c".to_string()]), None);
    assert_eq!(
        get_at(
            &tree,
            &vec!["a".to_string(), "b".to_string(), "c".to_string()]
        ),
        None
    );
    assert_eq!(get_at(&tree, &vec![]), Some(&tree));
}

#[test]
fn parse_ron_documents() {
    let rows = parse(None, "{ \"a\": 1, \"b\": [true, 'x'], \"c\": Some(()) }").unwrap();
    assert_eq!(rows.len(), 3);
    assert_eq!(rows[0], ("a".to_string(), v(ValueKind::Integer(1))));
    assert_eq!(
        rows[1],
        (
            "b".to_string(),
            v(ValueKind::Array(vec![
                v(ValueKind::Boolean(true)),
                v(ValueKind::Str("x".to_string())),
            ]))
        )
    );
    assert_eq!(rows[2], ("c".to_string(), v(ValueKind::Nil)));

    assert_eq!(parse(None, "()").unwrap(), vec![]);
    let non_table = parse(None, "42").unwrap_err();
    assert_eq!(
        non_table.message,
        "root of a configuration document must be a table"
    );
    assert!(parse(None, "[1, 2]").is_err());
    assert!(parse(None, "{ not ron").is_err());
    let bad_key = parse(None, "{ 1: 2 }").unwrap_err();
    assert_eq!(bad_key.message, "map key must be a string");

    let uri = "conf/app.ron".to_string();
    let located = parse(Some(&uri), "{ 1: 2 }").unwrap_err();
    assert_eq!(located.origin, Some(uri.clone()));
    let parse_fail = parse(Some(&uri), "{ not ron").unwrap_err();
    assert_eq!(parse_fail.origin, Some(uri));
    assert!(!parse_fail.message.is_empty());
}

#[test]
fn parse_tags_origins() {
    let uri = "conf/app.ron".to_string();
    let rows = parse(Some(&uri), "{ \"k\": { \"n\": 1 } }").unwrap();
    assert_eq!(rows[0].1.origin, Some(uri.clone()));
    match &rows[0].1.kind {
        ValueKind::Table(inner) => assert_eq!(inner[0].1.origin, Some(uri)),
        other => panic!("not a table: {:?}", other),
    }
}

#[test]
fn set_at_replaces_and_creates() {
    let tree = table(vec![(
        "db",
        table(vec![("port", v(ValueKind::Integer(5432)))]),
    )]);
    let updated = confval::value::set_at(
        tree,
        &vec!["db".to_string(), "port".to_string()],
        v(ValueKind::Integer(9999)),
    );
    assert_eq!(
        get_at(&updated, &vec!["db".to_string(), "port".to_string()]),
        Some(&v(ValueKind::Integer(9999)))
    );

    let grown = confval::value::set_at(
        updated,
        &vec!["new".to_string(), "leaf".to_string()],
        v(ValueKind::Boolean(true)),
    );
    assert_eq!(
        get_at(&grown, &vec!["new".to_string(), "leaf".to_string()]),
        Some(&v(ValueKind::Boolean(true)))
    );
    assert_eq!(
        get_at(&grown, &vec!["db".to_string(), "port".to_string()]),
        Some(&v(ValueKind::Integer(9999)))
    );
}

#[test]
fn deserialize_at_subtree() {
    let tree = table(vec![(
        "server",
        table(vec![("port", v(ValueKind::Str("8080".to_string())))]),
    )]);
    let got = confval::de::deserialize_at(
        &tree,
        &vec!["server".to_string(), "port".to_string()],
        &Shape::Int,
    );
    assert_eq!(got.unwrap(), Typed::Int(8080));

    let missing = confval::de::deserialize_at(
        &tree,
        &vec!["server".to_string(), "host".to_string()],
        &Shape::Str,
    );
    let e = missing.unwrap_err();
    match e.kind {
        DeErrorKind::MissingField { field } => assert_eq!(field, "server.host"),
        other => panic!("wrong error {:?}", other),
    }

    let located = confval::de::deserialize_at(
        &tree,
        &vec!["server".to_string(), "port".to_string()],
        &Shape::Bool,
    )
    .unwrap_err();
    assert_eq!(located.path_string(), "server.port");
}

#[test]
fn narrowing_conversions() {
    assert_eq!(v(ValueKind::Boolean(true)).as_bool(), Some(true));
    assert_eq!(v(ValueKind::Str("yes".to_string())).as_bool(), Some(true));
    assert_eq!(v(ValueKind::Str("fals".to_string())).as_bool(), None);
    assert_eq!(v(ValueKind::Integer(9)).as_i64(), Some(9));
    assert_eq!(v(ValueKind::Str("-12".to_string())).as_i64(), Some(-12));
    assert_eq!(v(ValueKind::Boolean(true)).as_i64(), None);
    let f = v(ValueKind::Float(1.5f64.to_bits()));
    assert_eq!(f.as_float_bits(), Some(1.5f64.to_bits()));
    assert_eq!(f.as_i64(), None);
    let s = v(ValueKind::Str("abc".to_string()));
    assert_eq!(s.as_str(), Some(&"abc".to_string()));
    assert_eq!(s.as_array(), None);
    let arr = v(ValueKind::Array(vec![v(ValueKind::Nil)]));
    assert!(arr.as_array().is_some());
    assert!(arr.as_table().is_none());
}

#[test]
fn float_coercion() {
    let from_str = v(ValueKind::Str("43.7".to_string()));
    assert_eq!(
        deserialize(&from_str, &Shape::Float, &mut Vec::new()).unwrap(),
        Typed::Float(43.7f64.to_bits())
    );

    let widened = v(ValueKind::Str("42".to_string()));
    assert_eq!(
        deserialize(&widened, &Shape::Float, &mut Vec::new()).unwrap(),
        Typed::Float(42.0f64.to_bits())
    );

    assert_eq!(
        v(ValueKind::Str("-0.5".to_string())).as_float_bits(),
        Some((-0.5f64).to_bits())
    );

    let bad = v(ValueKind::Str("not a number".to_string()));
    let e = deserialize(&bad, &Shape::Float, &mut Vec::new()).unwrap_err();
    assert!(matches!(
        e.kind,
        DeErrorKind::TypeMismatch { expected: Kind::Float, .. }
    ));
    let int_node = v(ValueKind::Integer(3));
    assert!(deserialize(&int_node, &Shape::Float, &mut Vec::new()).is_err());
}

#[test]
fn absent_optional_field_is_none() {
    let t = table(vec![("present", v(ValueKind::Integer(1)))]);
    let shape = Shape::Record(vec![
        Field {
            name: "present".to_string(),
            alias: None,
            shape: Shape::Int,
        },
        Field {
            name: "missing".to_string(),
            alias: None,
            shape: Shape::Optional(Box::new(Shape::Str)),
        },
    ]);
    assert_eq!(
        deserialize(&t, &shape, &mut Vec::new()).unwrap(),
        Typed::Record(vec![
            ("present".to_string(), Typed::Int(1)),
            ("missing".to_string(), Typed::OptNone),
        ])
    );
}

#[test]
fn merge_accepts_empty_document_roots() {
    let keeper = table(vec![("k", v(ValueKind::Integer(7)))]);
    let empty_doc = v(ValueKind::Nil);
    let merged = merge(vec![source(keeper), source(empty_doc)]);
    assert_eq!(lookup(&merged, "k"), Some(&v(ValueKind::Integer(7))));
    assert!(matches!(merged.kind, ValueKind::Table(_)));
}
