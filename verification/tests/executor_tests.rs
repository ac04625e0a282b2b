use jqbe::executor::{execute, ExecuteError};
use jqbe::json::JsonValue;
use jqbe::number::JsonNumber;
use jqbe::parser::parse;

fn s(text: &str) -> JsonValue {
    JsonValue::String(text.to_string())
}

fn n(value: u64) -> JsonValue {
    JsonValue::Number(JsonNumber::PosInt(value))
}

fn arr(items: Vec<JsonValue>) -> JsonValue {
    JsonValue::Array(items)
}

fn obj(members: Vec<(&str, JsonValue)>) -> JsonValue {
    JsonValue::Object(members.into_iter().map(|(k, v)| (k.to_string(), v)).collect())
}

/// The member `key` of an object, `null` when there is none.
fn at<'a>(v: &'a JsonValue, key: &str) -> &'a JsonValue {
    const NULL: &JsonValue = &JsonValue::Null;
    v.get(key).unwrap_or(NULL)
}

fn is_int(v: &JsonValue, expected: u64) -> bool {
    matches!(v, JsonValue::Number(JsonNumber::PosInt(u)) if *u == expected)
}

fn is_text(v: &JsonValue, expected: &str) -> bool {
    v.as_str() == Some(expected)
}

fn run(query: &JsonValue, doc: &JsonValue) -> Result<JsonValue, ExecuteError> {
    let q = parse(query).unwrap();
    execute(&q, doc)
}

#[test]
fn executor_test_projection() {
    let result = run(
        &obj(vec![("name", s("*")), ("email", s("*"))]),
        &obj(vec![("name", s("Alice")), ("email", s("alice@example.com")), ("age", n(30))]),
    )
    .unwrap();

    assert!(is_text(at(&result, "name"), "Alice"));
    assert!(is_text(at(&result, "email"), "alice@example.com"));
    assert!(result.get("age").is_none());
}

#[test]
fn test_literal_match_passes() {
    let result = run(
        &obj(vec![("status", s("active")), ("name", s("*"))]),
        &obj(vec![("status", s("active")), ("name", s("Alice"))]),
    )
    .unwrap();

    assert!(is_text(at(&result, "name"), "Alice"));
}

#[test]
fn test_literal_match_fails() {
    let result = run(
        &obj(vec![("status", s("active")), ("name", s("*"))]),
        &obj(vec![("status", s("inactive")), ("name", s("Alice"))]),
    )
    .unwrap();

    assert!(result.is_null());
}

#[test]
fn executor_test_operator_gt() {
    let result = run(
        &obj(vec![("total", obj(vec![(">", n(100))])), ("id", s("*"))]),
        &obj(vec![("total", n(150)), ("id", n(1))]),
    )
    .unwrap();

    assert!(is_int(at(&result, "id"), 1));

    let no_match = run(
        &obj(vec![("total", obj(vec![(">", n(100))])), ("id", s("*"))]),
        &obj(vec![("total", n(50)), ("id", n(1))]),
    )
    .unwrap();

    assert!(no_match.is_null());
}

#[test]
fn executor_test_operator_in() {
    let result = run(
        &obj(vec![("status", obj(vec![("|", arr(vec![s("pending"), s("processing")]))])), ("id", s("*"))]),
        &obj(vec![("status", s("pending")), ("id", n(1))]),
    )
    .unwrap();

    assert!(is_int(at(&result, "id"), 1));

    let no_match = run(
        &obj(vec![("status", obj(vec![("|", arr(vec![s("pending"), s("processing")]))])), ("id", s("*"))]),
        &obj(vec![("status", s("complete")), ("id", n(1))]),
    )
    .unwrap();

    assert!(no_match.is_null());
}

#[test]
fn test_missing_field_error() {
    let result = run(&obj(vec![("nonexistent", s("*"))]), &obj(vec![("name", s("Alice"))]));

    assert!(matches!(result, Err(ExecuteError::MissingField { .. })));
}

#[test]
fn test_nested_object() {
    let result = run(
        &obj(vec![(
            "user",
            obj(vec![("name", s("*")), ("address", obj(vec![("city", s("*")), ("country", s("US"))]))]),
        )]),
        &obj(vec![(
            "user",
            obj(vec![
                ("name", s("Alice")),
                ("address", obj(vec![("city", s("New York")), ("country", s("US"))])),
            ]),
        )]),
    )
    .unwrap();

    assert!(is_text(at(at(&result, "user"), "name"), "Alice"));
    assert!(is_text(at(at(at(&result, "user"), "address"), "city"), "New York"));
}

#[test]
fn test_collection_filtering() {
    let result = run(
        &obj(vec![("orders", obj(vec![("status", s("pending")), ("id", s("*")), ("total", s("*"))]))]),
        &obj(vec![(
            "orders",
            arr(vec![
                obj(vec![("id", n(1)), ("status", s("pending")), ("total", n(100))]),
                obj(vec![("id", n(2)), ("status", s("complete")), ("total", n(200))]),
                obj(vec![("id", n(3)), ("status", s("pending")), ("total", n(300))]),
            ]),
        )]),
    )
    .unwrap();

    let orders = at(&result, "orders").as_array().unwrap();
    assert_eq!(orders.len(), 2);
    assert!(is_int(at(&orders[0], "id"), 1));
    assert!(is_int(at(&orders[1], "id"), 3));
}

#[test]
fn test_collection_ordering_and_limit() {
    let result = run(
        &obj(vec![("orders", obj(vec![("v", s("total")), ("#", n(2)), ("id", s("*")), ("total", s("*"))]))]),
        &obj(vec![(
            "orders",
            arr(vec![
                obj(vec![("id", n(1)), ("total", n(100))]),
                obj(vec![("id", n(2)), ("total", n(300))]),
                obj(vec![("id", n(3)), ("total", n(200))]),
            ]),
        )]),
    )
    .unwrap();

    let orders = at(&result, "orders").as_array().unwrap();
    assert_eq!(orders.len(), 2);
    assert!(is_int(at(&orders[0], "total"), 300)); // descending
    assert!(is_int(at(&orders[1], "total"), 200));
}

#[test]
fn test_collection_offset() {
    let result = run(
        &obj(vec![("orders", obj(vec![("^", s("total")), ("@", n(1)), ("id", s("*")), ("total", s("*"))]))]),
        &obj(vec![(
            "orders",
            arr(vec![
                obj(vec![("id", n(1)), ("total", n(100))]),
                obj(vec![("id", n(2)), ("total", n(200))]),
                obj(vec![("id", n(3)), ("total", n(300))]),
            ]),
        )]),
    )
    .unwrap();

    let orders = at(&result, "orders").as_array().unwrap();
    assert_eq!(orders.len(), 2);
    assert!(is_int(at(&orders[0], "total"), 200)); // first skipped by offset
}

#[test]
fn test_full_specification_example() {
    let result = run(
        &obj(vec![(
            "user",
            obj(vec![
                ("id", n(1)),
                ("name", s("*")),
                ("email", s("*")),
                (
                    "orders",
                    obj(vec![
                        ("status", s("pending")),
                        ("total", obj(vec![(">", n(100))])),
                        ("id", s("*")),
                        ("total", s("*")),
                    ]),
                ),
            ]),
        )]),
        &obj(vec![(
            "user",
            obj(vec![
                ("id", n(1)),
                ("name", s("Alice")),
                ("email", s("alice@example.com")),
                (
                    "orders",
                    arr(vec![
                        obj(vec![("id", n(42)), ("status", s("pending")), ("total", n(150))]),
                        obj(vec![("id", n(43)), ("status", s("pending")), ("total", n(50))]),
                        obj(vec![("id", n(44)), ("status", s("complete")), ("total", n(200))]),
                        obj(vec![("id", n(45)), ("status", s("pending")), ("total", n(200))]),
                    ]),
                ),
            ]),
        )]),
    )
    .unwrap();

    assert!(is_text(at(at(&result, "user"), "name"), "Alice"));
    assert!(is_text(at(at(&result, "user"), "email"), "alice@example.com"));

    let orders = at(at(&result, "user"), "orders").as_array().unwrap();
    assert_eq!(orders.len(), 2); // id 42 and 45 match
    assert!(is_int(at(&orders[0], "id"), 42));
    assert!(is_int(at(&orders[1], "id"), 45));
}
