//! The historic error-reporting and whole-file scenarios, driven through
//! programmatic trees and the RON adapter.

use confval::de::{deserialize, DeErrorKind, Field, Shape, Typed, VariantDef, VariantShape};
use confval::value::{get_at, Value, ValueKind};

fn v(kind: ValueKind) -> Value {
    Value { origin: None, kind }
}

fn v_at(origin: &str, kind: ValueKind) -> Value {
    Value {
        origin: Some(origin.to_string()),
        kind,
    }
}

fn field(name: &str, shape: Shape) -> Field {
    Field {
        name: name.to_string(),
        alias: None,
        shape,
    }
}

fn diode_shape() -> Shape {
    Shape::Enum(
        "Diode".to_string(),
        vec![
            VariantDef {
                name: "Off".to_string(),
                payload: VariantShape::Unit,
            },
            VariantDef {
                name: "Brightness".to_string(),
                payload: VariantShape::Newtype(Box::new(Shape::Int)),
            },
            VariantDef {
                name: "Blinking".to_string(),
                payload: VariantShape::Tuple(vec![Shape::Int, Shape::Int]),
            },
            VariantDef {
                name: "Pattern".to_string(),
                payload: VariantShape::Record(vec![
                    field("name", Shape::Str),
                    field("inifinite", Shape::Bool),
                ]),
            },
        ],
    )
}

#[test]
fn test_error_type() {
    let origin = ["tests", "Settings.toml"].join("/");
    let settings = v_at(
        &origin,
        ValueKind::Table(vec![(
            "boolean_s_parse".to_string(),
            v_at(&origin, ValueKind::Str("fals".to_string())),
        )]),
    );

    let key = vec!["boolean_s_parse".to_string()];
    let target = get_at(&settings, &key).unwrap();
    let mut path = key.clone();
    let res = deserialize(target, &Shape::Bool, &mut path);

    assert!(res.is_err());
    assert_eq!(
        res.unwrap_err().located_message(),
        format!(
            "invalid type: string \"fals\", expected a boolean for key `boolean_s_parse` in {}",
            origin
        )
    );
}

#[test]
fn test_error_type_detached() {
    let value = v(ValueKind::Str("fals".to_string()));
    let res = deserialize(&value, &Shape::Bool, &mut Vec::new());

    assert!(res.is_err());
    assert_eq!(
        res.unwrap_err().message(),
        "invalid type: string \"fals\", expected a boolean".to_owned()
    );
}

#[test]
fn test_error_enum_de() {
    let shape = diode_shape();

    let on_v = v(ValueKind::Str("on".to_string()));
    let on_d = deserialize(&on_v, &shape, &mut Vec::new());
    assert_eq!(
        on_d.unwrap_err().message(),
        "enum Diode does not have variant constructor on".to_owned()
    );

    let array_v = v(ValueKind::Array(vec![
        v(ValueKind::Integer(100)),
        v(ValueKind::Integer(100)),
    ]));
    let array_d = deserialize(&array_v, &shape, &mut Vec::new());
    assert_eq!(
        array_d.unwrap_err().message(),
        "value of enum Diode should be represented by either string or table with exactly one key"
    );

    let confused_v = v(ValueKind::Table(vec![
        ("Brightness".to_owned(), v(ValueKind::Integer(100))),
        (
            "Blinking".to_owned(),
            v(ValueKind::Array(vec![
                v(ValueKind::Integer(300)),
                v(ValueKind::Integer(700)),
            ])),
        ),
    ]));
    let confused_d = deserialize(&confused_v, &shape, &mut Vec::new());
    assert_eq!(
        confused_d.unwrap_err().message(),
        "value of enum Diode should be represented by either string or table with exactly one key"
    );
}

#[test]
fn error_with_path() {
    let cfg = v(ValueKind::Table(vec![(
        "inner".to_string(),
        v(ValueKind::Table(vec![(
            "test".to_string(),
            v(ValueKind::Str("ABC".to_string())),
        )])),
    )]));
    let outer = Shape::Record(vec![field(
        "inner",
        Shape::Record(vec![field("test", Shape::Int)]),
    )]);

    let e = deserialize(&cfg, &outer, &mut Vec::new()).unwrap_err();
    match e.kind {
        DeErrorKind::TypeMismatch { .. } => assert_eq!(e.path_string(), "inner.test"),
        _ => panic!("Wrong error {:?}", e),
    }
}

fn record_field<'a>(fields: &'a [(String, Typed)], name: &str) -> &'a Typed {
    &fields.iter().find(|(n, _)| n == name).unwrap().1
}

fn approx(bits: u64, expected: f64) -> bool {
    (f64::from_bits(bits) - expected).abs() < 1e-9
}

#[test]
fn test_file() {
    let text = r#"{
        "debug": 1.0,
        "production": Some("false"),
        "code": 53,
        "place": {
            "number": 1,
            "name": "Torre di Pisa",
            "longitude": 43.7224985,
            "latitude": 10.3970522,
            "favorite": false,
            "telephone": None,
            "reviews": 3866,
            "creator": {
                "name": "John Smith",
                "username": "jsmith",
                "email": "jsmith@localhost",
            },
            "rating": Some(4.5),
        },
        "arr": ["1", "2", "3", "4", "5", "6", "7", "8", "9", "10"],
    }"#;
    let rows = confval::ronfmt::parse(None, text).unwrap();
    let tree = v(ValueKind::Table(rows));

    let place_shape = Shape::Record(vec![
        field("number", Shape::Int),
        field("name", Shape::Str),
        field("longitude", Shape::Float),
        field("latitude", Shape::Float),
        field("favorite", Shape::Bool),
        field("telephone", Shape::Optional(Box::new(Shape::Str))),
        field("reviews", Shape::Int),
        field("creator", Shape::Mapping(Box::new(Shape::Str))),
        field("rating", Shape::Optional(Box::new(Shape::Float))),
    ]);
    let settings_shape = Shape::Record(vec![
        field("debug", Shape::Float),
        field("production", Shape::Optional(Box::new(Shape::Str))),
        field("code", Shape::Int),
        field("place", place_shape),
        Field {
            name: "elements".to_string(),
            alias: Some("arr".to_string()),
            shape: Shape::Sequence(Box::new(Shape::Str)),
        },
    ]);

    let s = match deserialize(&tree, &settings_shape, &mut Vec::new()).unwrap() {
        Typed::Record(fields) => fields,
        other => panic!("not a record: {:?}", other),
    };

    match record_field(&s, "debug") {
        Typed::Float(bits) => assert!(approx(*bits, 1.0)),
        other => panic!("debug: {:?}", other),
    }
    assert_eq!(
        record_field(&s, "production"),
        &Typed::OptSome(Box::new(Typed::Str("false".to_owned())))
    );
    assert_eq!(record_field(&s, "code"), &Typed::Int(53));

    let place = match record_field(&s, "place") {
        Typed::Record(fields) => fields,
        other => panic!("place: {:?}", other),
    };
    assert_eq!(record_field(place, "number"), &Typed::Int(1));
    assert_eq!(
        record_field(place, "name"),
        &Typed::Str("Torre di Pisa".to_owned())
    );
    match record_field(place, "longitude") {
        Typed::Float(bits) => assert!(approx(*bits, 43.722_498_5)),
        other => panic!("longitude: {:?}", other),
    }
    match record_field(place, "latitude") {
        Typed::Float(bits) => assert!(approx(*bits, 10.397_052_2)),
        other => panic!("latitude: {:?}", other),
    }
    assert_eq!(record_field(place, "favorite"), &Typed::Bool(false));
    assert_eq!(record_field(place, "reviews"), &Typed::Int(3866));
    match record_field(place, "rating") {
        Typed::OptSome(inner) => match inner.as_ref() {
            Typed::Float(bits) => assert!(approx(*bits, 4.5)),
            other => panic!("rating: {:?}", other),
        },
        other => panic!("rating: {:?}", other),
    }
    assert_eq!(record_field(place, "telephone"), &Typed::OptNone);

    let elements = match record_field(&s, "elements") {
        Typed::List(items) => items,
        other => panic!("elements: {:?}", other),
    };
    assert_eq!(elements.len(), 10);
    assert_eq!(elements[3], Typed::Str("4".to_owned()));

    match record_field(place, "creator") {
        Typed::MapEntries(entries) => {
            assert_eq!(entries.len(), 3);
            assert_eq!(
                record_field(entries, "name"),
                &Typed::Str("John Smith".to_owned())
            );
            assert_eq!(
                record_field(entries, "username"),
                &Typed::Str("jsmith".to_owned())
            );
            assert_eq!(
                record_field(entries, "email"),
                &Typed::Str("jsmith@localhost".to_owned())
            );
        },
        other => panic!("creator: {:?}", other),
    }
}
