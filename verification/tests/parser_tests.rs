use jqbe::json::JsonValue;
use jqbe::number::JsonNumber;
use jqbe::parser::{parse, parse_str, FieldEntry, Operator, OrderDir, ParseError, QueryNode};

fn s(text: &str) -> JsonValue {
    JsonValue::String(text.to_string())
}

fn n(value: u64) -> JsonValue {
    JsonValue::Number(JsonNumber::PosInt(value))
}

fn arr(items: Vec<JsonValue>) -> JsonValue {
    JsonValue::Array(items)
}

fn obj(members: Vec<(&str, JsonValue)>) -> JsonValue {
    JsonValue::Object(members.into_iter().map(|(k, v)| (k.to_string(), v)).collect())
}

/// The entry of a field, as a map read would give it (the last one written).
fn field<'a>(q: &'a QueryNode, name: &str) -> &'a FieldEntry {
    q.fields.iter().rev().find(|(k, _)| k == name).map(|(_, e)| e).expect("no such field")
}

#[test]
fn parser_test_projection() {
    let q = parse(&obj(vec![("name", s("*")), ("email", s("*"))])).unwrap();
    assert!(matches!(field(&q, "name"), FieldEntry::Projection));
    assert!(matches!(field(&q, "email"), FieldEntry::Projection));
}

#[test]
fn test_literal_match() {
    let q = parse(&obj(vec![("status", s("pending")), ("id", n(1))])).unwrap();
    assert!(matches!(field(&q, "status"), FieldEntry::Match(JsonValue::String(t)) if t == "pending"));
    assert!(matches!(field(&q, "id"), FieldEntry::Match(JsonValue::Number(_))));
}

#[test]
fn parser_test_operator_gt() {
    let q = parse(&obj(vec![("total", obj(vec![(">", n(100))]))])).unwrap();
    assert!(matches!(field(&q, "total"), FieldEntry::Operator(Operator::Gt(_))));
}

#[test]
fn parser_test_operator_in() {
    let q = parse(&obj(vec![("status", obj(vec![("|", arr(vec![s("pending"), s("processing")]))]))]))
        .unwrap();
    assert!(matches!(field(&q, "status"), FieldEntry::Operator(Operator::In(_))));
}

#[test]
fn test_nested() {
    let q = parse(&obj(vec![(
        "user",
        obj(vec![
            ("id", n(1)),
            ("name", s("*")),
            ("address", obj(vec![("city", s("*")), ("country", s("US"))])),
        ]),
    )]))
    .unwrap();

    let user = match field(&q, "user") {
        FieldEntry::Nested(node) => node,
        _ => panic!("expected nested node"),
    };

    assert!(matches!(field(user, "name"), FieldEntry::Projection));
    assert!(matches!(field(user, "id"), FieldEntry::Match(JsonValue::Number(_))));

    let address = match field(user, "address") {
        FieldEntry::Nested(node) => node,
        _ => panic!("expected nested node for address"),
    };

    assert!(matches!(field(address, "city"), FieldEntry::Projection));
    assert!(matches!(field(address, "country"), FieldEntry::Match(JsonValue::String(t)) if t == "US"));
}

#[test]
fn test_collection_opts() {
    let q = parse(&obj(vec![("^", s("total")), ("#", n(10)), ("@", n(20)), ("status", s("pending"))]))
        .unwrap();

    assert_eq!(q.collection_opts.order_by.as_deref(), Some("total"));
    assert!(matches!(q.collection_opts.order_dir, Some(OrderDir::Asc)));
    assert_eq!(q.collection_opts.limit, Some(10));
    assert_eq!(q.collection_opts.offset, Some(20));
    assert!(matches!(field(&q, "status"), FieldEntry::Match(JsonValue::String(t)) if t == "pending"));
}

#[test]
fn test_not_an_object() {
    assert!(matches!(parse(&arr(vec![n(1), n(2), n(3)])), Err(ParseError::NotAnObject)));
}

#[test]
fn test_full_example() {
    let input = r##"
        {
            "user": {
                "id": 1,
                "name": "*",
                "email": "*",
                "orders": {
                    "status": "pending",
                    "total": { ">": 100 },
                    "^": "total",
                    "#": 10,
                    "id": "*",
                    "total": "*"
                }
            }
        }"##;

    let q = parse_str(input).unwrap();
    let user = match field(&q, "user") {
        FieldEntry::Nested(n) => n,
        _ => panic!("expected nested user"),
    };
    let orders = match field(user, "orders") {
        FieldEntry::Nested(n) => n,
        _ => panic!("expected nested orders"),
    };

    assert!(matches!(field(orders, "id"), FieldEntry::Projection));
    assert!(matches!(field(orders, "total"), FieldEntry::Projection));
    assert!(matches!(field(orders, "status"), FieldEntry::Match(_)));
    assert!(matches!(field(orders, "total"), FieldEntry::Projection));
    assert!(matches!(orders.collection_opts.limit, Some(10)));
    assert!(matches!(orders.collection_opts.order_by.as_deref(), Some("total")));
}
